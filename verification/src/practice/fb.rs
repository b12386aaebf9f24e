//! Two ways of computing Fibonacci numbers.
use vstd::prelude::*;

verus! {

pub open spec fn fib(n: nat) -> nat
    decreases n,
{
    if n <= 1 {
        n
    } else {
        fib((n - 1) as nat) + fib((n - 2) as nat)
    }
}

pub proof fn lemma_fib_monotone(i: nat, j: nat)
    requires
        i <= j,
    ensures
        fib(i) <= fib(j),
    decreases j,
{
    if i < j {
        lemma_fib_monotone(i, (j - 1) as nat);
    }
}

/// The `n`-th Fibonacci number, by the defining recursion.
pub fn fibonacci_recursive(n: u64) -> (r: u64)
    requires
        fib(n as nat) <= u64::MAX,
    ensures
        r == fib(n as nat),
    decreases n,
{
    if n <= 1 {
        return n;
    }
    proof {
        lemma_fib_monotone((n - 1) as nat, n as nat);
        lemma_fib_monotone((n - 2) as nat, n as nat);
    }
    fibonacci_recursive(n - 1) + fibonacci_recursive(n - 2)
}

/// The `n`-th Fibonacci number, by iteration. The loop also forms the
/// `n + 1`-th number, which must fit as well.
pub fn fibonacci_iterative(n: u64) -> (r: u64)
    requires
        fib(n as nat + 1) <= u64::MAX,
    ensures
        r == fib(n as nat),
{
    let mut a: u64 = 0;
    let mut b: u64 = 1;
    let mut i: u64 = 0;
    while i < n
        invariant
            i <= n,
            a == fib(i as nat),
            b == fib(i as nat + 1),
            fib(n as nat + 1) <= u64::MAX,
        decreases n - i,
    {
        proof {
            lemma_fib_monotone(i as nat + 2, n as nat + 1);
            assert(fib(i as nat + 2) == fib(i as nat) + fib(i as nat + 1));
        }
        let tmp = a;
        a = b;
        b = tmp + b;
        i = i + 1;
    }
    a
}

} // verus!
