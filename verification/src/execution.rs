//! Physical operators: sorting, and index creation.
use vstd::prelude::*;

use std::sync::Arc;

use crate::catalog::{Column, Schema, SchemaRef};
use crate::common::{sgn, Comparison, ScalarValue, TableReference};
use crate::error::BustubxError;
use crate::expression::ColumnExpr;
use crate::storage::Tuple;

verus! {

/// A sort key: an expression and its direction.
pub struct OrderByExpr {
    pub expr: ColumnExpr,
    pub asc: bool,
}

/// The direction of each sort key.
pub open spec fn directions(order_bys: Seq<OrderByExpr>) -> Seq<bool> {
    Seq::new(order_bys.len(), |i: int| order_bys[i].asc)
}

/// How two values of one sort key compare, as -1, 0 or 1, in the key's direction.
pub open spec fn value_order(a: ScalarValue, b: ScalarValue, asc: bool) -> int {
    if asc {
        sgn(a.rank() - b.rank())
    } else {
        sgn(b.rank() - a.rank())
    }
}

/// Values of a key compare as their integers do (`false` before `true`,
/// NULL before any value), and a descending key reverses the comparison.
pub proof fn law_value_order_follows_values()
    ensures
        forall|x: i8, y: i8|
            #![trigger value_order(ScalarValue::Int8(Some(x)), ScalarValue::Int8(Some(y)), true)]
            (value_order(ScalarValue::Int8(Some(x)), ScalarValue::Int8(Some(y)), true) < 0 <==> x
                < y) && (value_order(ScalarValue::Int8(Some(x)), ScalarValue::Int8(Some(y)), true)
                == 0 <==> x == y),
        forall|x: i16, y: i16|
            #![trigger value_order(ScalarValue::Int16(Some(x)), ScalarValue::Int16(Some(y)), true)]
            (value_order(ScalarValue::Int16(Some(x)), ScalarValue::Int16(Some(y)), true) < 0 <==> x
                < y) && (value_order(ScalarValue::Int16(Some(x)), ScalarValue::Int16(Some(y)), true)
                == 0 <==> x == y),
        forall|x: i32, y: i32|
            #![trigger value_order(ScalarValue::Int32(Some(x)), ScalarValue::Int32(Some(y)), true)]
            (value_order(ScalarValue::Int32(Some(x)), ScalarValue::Int32(Some(y)), true) < 0 <==> x
                < y) && (value_order(ScalarValue::Int32(Some(x)), ScalarValue::Int32(Some(y)), true)
                == 0 <==> x == y),
        forall|x: i64, y: i64|
            #![trigger value_order(ScalarValue::Int64(Some(x)), ScalarValue::Int64(Some(y)), true)]
            (value_order(ScalarValue::Int64(Some(x)), ScalarValue::Int64(Some(y)), true) < 0 <==> x
                < y) && (value_order(ScalarValue::Int64(Some(x)), ScalarValue::Int64(Some(y)), true)
                == 0 <==> x == y),
        value_order(ScalarValue::Boolean(Some(false)), ScalarValue::Boolean(Some(true)), true) < 0,
        forall|x: i8| #[trigger] value_order(ScalarValue::Int8(None), ScalarValue::Int8(Some(x)), true) < 0,
        forall|x: i16| #[trigger] value_order(ScalarValue::Int16(None), ScalarValue::Int16(Some(x)), true) < 0,
        forall|x: i32| #[trigger] value_order(ScalarValue::Int32(None), ScalarValue::Int32(Some(x)), true) < 0,
        forall|x: i64| #[trigger] value_order(ScalarValue::Int64(None), ScalarValue::Int64(Some(x)), true) < 0,
        forall|x: bool| #[trigger] value_order(ScalarValue::Boolean(None), ScalarValue::Boolean(Some(x)), true) < 0,
        forall|a: ScalarValue, b: ScalarValue|
            #![trigger value_order(a, b, false)]
            (value_order(a, b, false) < 0 <==> value_order(b, a, true) < 0) && (value_order(a, b, false)
                == 0 <==> value_order(b, a, true) == 0),
{
}

/// Lexicographic comparison of two rows of sort-key values from key `i` on.
pub open spec fn keys_order_from(a: Seq<ScalarValue>, b: Seq<ScalarValue>, asc: Seq<bool>, i: int) -> int
    decreases asc.len() - i,
{
    if i < 0 || i >= asc.len() {
        0
    } else {
        let c = value_order(a[i], b[i], asc[i]);
        if c != 0 {
            c
        } else {
            keys_order_from(a, b, asc, i + 1)
        }
    }
}

/// Lexicographic comparison of two rows of sort-key values, as -1, 0 or 1.
pub open spec fn keys_order(a: Seq<ScalarValue>, b: Seq<ScalarValue>, asc: Seq<bool>) -> int {
    keys_order_from(a, b, asc, 0)
}

/// Row `x` comes before row `y` in the sorted output: its keys compare lower,
/// or equal with `x` first in the input.
pub open spec fn sorts_before(keys: Seq<Seq<ScalarValue>>, asc: Seq<bool>, x: int, y: int) -> bool {
    let c = keys_order(keys[x], keys[y], asc);
    c < 0 || (c == 0 && x < y)
}

/// Each row has one value per key, and the values of each key share a variant.
pub open spec fn comparable_keys(keys: Seq<Seq<ScalarValue>>, m: nat) -> bool {
    &&& forall|x: int| 0 <= x < keys.len() ==> (#[trigger] keys[x]).len() == m
    &&& forall|x: int, y: int, j: int|
        0 <= x < keys.len() && 0 <= y < keys.len() && 0 <= j < m ==> (#[trigger] keys[x][j]).kind()
            == (#[trigger] keys[y][j]).kind()
}

/// `perm` lists the rows `0..n` once each, in sorted order.
pub open spec fn is_sorted_permutation(
    perm: Seq<usize>,
    keys: Seq<Seq<ScalarValue>>,
    asc: Seq<bool>,
    n: nat,
) -> bool {
    &&& perm.len() == n
    &&& perm.no_duplicates()
    &&& forall|a: int| 0 <= a < n ==> (#[trigger] perm[a] as int) < n
    &&& forall|a: int, b: int|
        0 <= a < b < n ==> sorts_before(keys, asc, #[trigger] perm[a] as int, #[trigger] perm[b] as int)
}

pub proof fn lemma_keys_order_antisymmetric(a: Seq<ScalarValue>, b: Seq<ScalarValue>, asc: Seq<bool>, i: int)
    ensures
        keys_order_from(a, b, asc, i) == -keys_order_from(b, a, asc, i),
    decreases asc.len() - i,
{
    if 0 <= i < asc.len() {
        lemma_keys_order_antisymmetric(a, b, asc, i + 1);
    }
}

pub proof fn lemma_keys_order_transitive(
    a: Seq<ScalarValue>,
    b: Seq<ScalarValue>,
    c: Seq<ScalarValue>,
    asc: Seq<bool>,
    i: int,
)
    requires
        keys_order_from(a, b, asc, i) <= 0,
        keys_order_from(b, c, asc, i) <= 0,
    ensures
        keys_order_from(a, c, asc, i) <= 0,
        keys_order_from(a, b, asc, i) < 0 || keys_order_from(b, c, asc, i) < 0 ==> keys_order_from(
            a,
            c,
            asc,
            i,
        ) < 0,
    decreases asc.len() - i,
{
    if 0 <= i < asc.len() {
        if value_order(a[i], b[i], asc[i]) == 0 && value_order(b[i], c[i], asc[i]) == 0 {
            lemma_keys_order_transitive(a, b, c, asc, i + 1);
        }
    }
}

/// Of two distinct rows exactly one sorts before the other.
pub proof fn lemma_sorts_before_total(keys: Seq<Seq<ScalarValue>>, asc: Seq<bool>, x: int, y: int)
    requires
        x != y,
    ensures
        sorts_before(keys, asc, x, y) || sorts_before(keys, asc, y, x),
        !(sorts_before(keys, asc, x, y) && sorts_before(keys, asc, y, x)),
{
    lemma_keys_order_antisymmetric(keys[x], keys[y], asc, 0);
}

/// A list of `n` distinct indices below `n` holds every index below `n`.
proof fn lemma_full_permutation(perm: Seq<usize>, n: nat, v: int)
    requires
        perm.len() == n,
        perm.no_duplicates(),
        forall|a: int| 0 <= a < n ==> (#[trigger] perm[a] as int) < n,
        0 <= v < n,
    ensures
        exists|a: int| 0 <= a < n && perm[a] as int == v,
{
    let ints = perm.map_values(|x: usize| x as int);
    assert(ints.no_duplicates()) by {
        assert forall|a: int, b: int| 0 <= a < ints.len() && 0 <= b < ints.len() && a != b implies ints[a]
            != ints[b] by {
            assert(perm[a] != perm[b]);
        }
    }
    ints.unique_seq_to_set();
    let range = vstd::set_lib::set_int_range(0, n as int);
    vstd::set_lib::lemma_int_range(0, n as int);
    assert(ints.to_set().subset_of(range)) by {
        assert forall|x: int| ints.to_set().contains(x) implies range.contains(x) by {
            let a = choose|a: int| 0 <= a < ints.len() && ints[a] == x;
            assert(perm[a] as int == x);
        }
    }
    vstd::set_lib::lemma_subset_equality(ints.to_set(), range);
    assert(range.contains(v));
    assert(ints.to_set().contains(v));
    let a = choose|a: int| 0 <= a < ints.len() && ints[a] == v;
    assert(perm[a] as int == v);
}

/// There is one sorted order: two sorted permutations of the same rows are equal.
pub proof fn law_sorted_permutation_unique(
    p1: Seq<usize>,
    p2: Seq<usize>,
    keys: Seq<Seq<ScalarValue>>,
    asc: Seq<bool>,
    n: nat,
)
    requires
        is_sorted_permutation(p1, keys, asc, n),
        is_sorted_permutation(p2, keys, asc, n),
    ensures
        p1 == p2,
{
    if exists|a: int| 0 <= a < n && p1[a] != p2[a] {
        lemma_first_difference(p1, p2, n);
        let a = choose|a: int| 0 <= a < n && p1[a] != p2[a] && forall|c: int|
            0 <= c < a ==> p1[c] == p2[c];
        let x = p1[a] as int;
        let y = p2[a] as int;
        lemma_full_permutation(p1, n, y);
        lemma_full_permutation(p2, n, x);
        let b = choose|b: int| 0 <= b < n && p1[b] as int == y;
        let c = choose|c: int| 0 <= c < n && p2[c] as int == x;
        if b < a {
            assert(p2[b] == p1[b]);
        }
        if c < a {
            assert(p1[c] == p2[c]);
        }
        assert(b != a && c != a);
        assert(sorts_before(keys, asc, p1[a] as int, p1[b] as int));
        assert(sorts_before(keys, asc, p2[a] as int, p2[c] as int));
        lemma_sorts_before_total(keys, asc, x, y);
    }
    assert(p1 =~= p2);
}

proof fn lemma_first_difference(p1: Seq<usize>, p2: Seq<usize>, n: nat)
    requires
        exists|a: int| 0 <= a < n && p1[a] != p2[a],
    ensures
        exists|a: int| 0 <= a < n && p1[a] != p2[a] && forall|c: int| 0 <= c < a ==> p1[c] == p2[c],
    decreases n,
{
    if n > 0 {
        if exists|a: int| 0 <= a < n - 1 && p1[a] != p2[a] {
            lemma_first_difference(p1, p2, (n - 1) as nat);
        } else {
            let a = (n - 1) as int;
            assert(p1[a] != p2[a]);
            assert(forall|c: int| 0 <= c < a ==> p1[c] == p2[c]);
        }
    }
}

/// Two rows compare by the first key on which they differ, in that key's own
/// direction: ascending, the lower value comes first; descending, the higher.
/// Rows equal on every key compare equal.
pub proof fn law_keys_order_first_difference(
    a: Seq<ScalarValue>,
    b: Seq<ScalarValue>,
    asc: Seq<bool>,
    i: int,
)
    requires
        0 <= i < asc.len(),
        forall|j: int| 0 <= j < i ==> (#[trigger] a[j]).rank() == b[j].rank(),
        a[i].rank() != b[i].rank(),
    ensures
        asc[i] ==> (keys_order(a, b, asc) < 0 <==> a[i].rank() < b[i].rank()),
        !asc[i] ==> (keys_order(a, b, asc) < 0 <==> a[i].rank() > b[i].rank()),
        keys_order(a, b, asc) != 0,
{
    lemma_keys_order_skips_equal(a, b, asc, 0, i);
}

/// Rows equal on every key compare equal.
pub proof fn law_keys_order_equal_rows(a: Seq<ScalarValue>, b: Seq<ScalarValue>, asc: Seq<bool>)
    requires
        forall|j: int| 0 <= j < asc.len() ==> (#[trigger] a[j]).rank() == b[j].rank(),
    ensures
        keys_order(a, b, asc) == 0,
{
    lemma_keys_order_skips_equal(a, b, asc, 0, asc.len() as int);
}

proof fn lemma_keys_order_skips_equal(
    a: Seq<ScalarValue>,
    b: Seq<ScalarValue>,
    asc: Seq<bool>,
    from: int,
    i: int,
)
    requires
        0 <= from <= i <= asc.len(),
        forall|j: int| from <= j < i ==> (#[trigger] a[j]).rank() == b[j].rank(),
    ensures
        keys_order_from(a, b, asc, from) == keys_order_from(a, b, asc, i),
    decreases i - from,
{
    if from < i {
        assert(a[from].rank() == b[from].rank());
        lemma_keys_order_skips_equal(a, b, asc, from + 1, i);
    }
}

/// Compares two rows of sort-key values key by key.
fn compare_keys(a: &Vec<ScalarValue>, b: &Vec<ScalarValue>, order_bys: &Vec<OrderByExpr>) -> (r:
    Comparison)
    requires
        a@.len() == order_bys@.len(),
        b@.len() == order_bys@.len(),
        forall|j: int| 0 <= j < order_bys@.len() ==> (#[trigger] a@[j]).kind() == b@[j].kind(),
    ensures
        r.sign() == keys_order(a@, b@, directions(order_bys@)),
{
    let ghost asc = directions(order_bys@);
    let mut ordering = Comparison::Equal;
    let mut index: usize = 0;
    while ordering == Comparison::Equal && index < order_bys.len()
        invariant
            a@.len() == order_bys@.len(),
            b@.len() == order_bys@.len(),
            forall|j: int| 0 <= j < order_bys@.len() ==> (#[trigger] a@[j]).kind() == b@[j].kind(),
            asc == directions(order_bys@),
            index <= order_bys@.len(),
            ordering == Comparison::Equal ==> keys_order(a@, b@, asc) == keys_order_from(
                a@,
                b@,
                asc,
                index as int,
            ),
            ordering != Comparison::Equal ==> ordering.sign() == keys_order(a@, b@, asc),
        decreases order_bys@.len() - index,
    {
        let c = if order_bys[index].asc {
            a[index].partial_compare(&b[index])
        } else {
            b[index].partial_compare(&a[index])
        };
        ordering = c.unwrap();
        index = index + 1;
    }
    ordering
}

/// The order in which the rows go: row indices, sorted by their keys and,
/// among equal keys, by input position.
fn sort_order(keys: &Vec<Vec<ScalarValue>>, order_bys: &Vec<OrderByExpr>) -> (perm: Vec<usize>)
    requires
        comparable_keys(key_rows(keys), order_bys@.len()),
    ensures
        is_sorted_permutation(perm@, key_rows(keys), directions(order_bys@), keys@.len()),
{
    let ghost k = key_rows(keys);
    let ghost asc = directions(order_bys@);
    let n = keys.len();
    let mut perm: Vec<usize> = Vec::new();
    let mut i: usize = 0;
    while i < n
        invariant
            n == keys@.len(),
            k == key_rows(keys),
            asc == directions(order_bys@),
            comparable_keys(k, order_bys@.len()),
            i <= n,
            is_sorted_permutation(perm@, k, asc, i as nat),
        decreases n - i,
    {
        let mut p: usize = 0;
        let mut found = false;
        while p < i && !found
            invariant
                n == keys@.len(),
                k == key_rows(keys),
                asc == directions(order_bys@),
                comparable_keys(k, order_bys@.len()),
                i < n,
                is_sorted_permutation(perm@, k, asc, i as nat),
                p <= i,
                found ==> p < i && keys_order(k[i as int], k[perm@[p as int] as int], asc) < 0,
                forall|q: int|
                    0 <= q < p && !(found && q == p) ==> keys_order(
                        k[i as int],
                        k[#[trigger] perm@[q] as int],
                        asc,
                    ) >= 0,
            decreases i - p + (if found { 0int } else { 1int }),
        {
            let other = perm[p];
            proof {
                assert(k[i as int] == keys@[i as int]@);
                assert(k[other as int] == keys@[other as int]@);
                assert forall|j: int| 0 <= j < order_bys@.len() implies (
                #[trigger] keys@[i as int]@[j]).kind() == keys@[other as int]@[j].kind() by {
                    assert(k[i as int][j].kind() == k[other as int][j].kind());
                }
            }
            let c = compare_keys(&keys[i], &keys[other], order_bys);
            if c == Comparison::Less {
                found = true;
            } else {
                p = p + 1;
            }
        }
        let ghost old_perm = perm@;
        perm.insert(p, i);
        proof {
            lemma_insert_keeps_sorted(old_perm, perm@, k, asc, i as int, p as int);
        }
        i = i + 1;
    }
    perm
}

/// The sort-key values of each row.
pub open spec fn key_rows(keys: &Vec<Vec<ScalarValue>>) -> Seq<Seq<ScalarValue>> {
    Seq::new(keys@.len(), |x: int| keys@[x]@)
}

proof fn lemma_insert_keeps_sorted(
    old_perm: Seq<usize>,
    perm: Seq<usize>,
    k: Seq<Seq<ScalarValue>>,
    asc: Seq<bool>,
    i: int,
    p: int,
)
    requires
        0 <= p <= i < k.len(),
        i <= usize::MAX,
        is_sorted_permutation(old_perm, k, asc, i as nat),
        perm == old_perm.insert(p, i as usize),
        p < i ==> keys_order(k[i], k[old_perm[p] as int], asc) < 0,
        forall|q: int| 0 <= q < p ==> keys_order(k[i], k[#[trigger] old_perm[q] as int], asc) >= 0,
    ensures
        is_sorted_permutation(perm, k, asc, (i + 1) as nat),
{
    assert forall|a: int| 0 <= a < i + 1 implies (#[trigger] perm[a] as int) < i + 1 by {
        if a < p {
            assert(perm[a] == old_perm[a]);
        } else if a > p {
            assert(perm[a] == old_perm[a - 1]);
        }
    }
    assert forall|a: int, b: int| 0 <= a < i + 1 && 0 <= b < i + 1 && a != b implies perm[a]
        != perm[b] by {
        let a0 = if a < p { a } else { a - 1 };
        let b0 = if b < p { b } else { b - 1 };
        if a != p && b != p {
            assert(perm[a] == old_perm[a0]);
            assert(perm[b] == old_perm[b0]);
        } else if a == p {
            assert(perm[b] == old_perm[b0]);
            assert((old_perm[b0] as int) < i);
        } else {
            assert(perm[a] == old_perm[a0]);
            assert((old_perm[a0] as int) < i);
        }
    }
    assert forall|a: int, b: int| 0 <= a < b < i + 1 implies sorts_before(
        k,
        asc,
        #[trigger] perm[a] as int,
        #[trigger] perm[b] as int,
    ) by {
        if b < p {
            assert(perm[a] == old_perm[a]);
            assert(perm[b] == old_perm[b]);
        } else if a > p {
            assert(perm[a] == old_perm[a - 1]);
            assert(perm[b] == old_perm[b - 1]);
        } else if a < p && b > p {
            assert(perm[a] == old_perm[a]);
            assert(perm[b] == old_perm[b - 1]);
        } else if b == p {
            let x = old_perm[a] as int;
            assert(perm[a] == old_perm[a]);
            assert(keys_order(k[i], k[x], asc) >= 0);
            lemma_keys_order_antisymmetric(k[i], k[x], asc, 0);
            assert(x < i);
        } else {
            let y = old_perm[b - 1] as int;
            assert(perm[b] == old_perm[b - 1]);
            let z = old_perm[p] as int;
            assert(keys_order(k[i], k[z], asc) < 0);
            if b - 1 > p {
                assert(sorts_before(k, asc, z, y));
                lemma_keys_order_transitive(k[i], k[z], k[y], asc, 0);
            }
        }
    }
}

/// What a row is as far as its consumers can tell: its schema and its values.
pub type TupleView = (SchemaRef, Seq<ScalarValue>);

/// An operator of a query plan that hands out rows one at a time.
pub trait VolcanoExecutor: Sized {
    /// The operator is usable.
    spec fn wf(&self) -> bool;

    /// The rows that calls of `next` hand out from this state, in order.
    spec fn pending(&self) -> Seq<TupleView>;

    /// What `next` gives once the pending rows are out: `Ok` for the end of
    /// the rows, `Err(e)` for an error.
    spec fn end(&self) -> Result<(), BustubxError>;

    /// `init` may leave the operator in `post` and return `r`.
    spec fn init_outcome(&self, post: Self, r: Result<(), BustubxError>) -> bool;

    /// The columns of the rows the operator outputs.
    spec fn schema_columns(&self) -> Seq<Column>;

    /// Prepares the operator to hand out its rows.
    fn init(&mut self) -> (r: Result<(), BustubxError>)
        requires
            old(self).wf(),
        ensures
            final(self).wf(),
            final(self).schema_columns() == old(self).schema_columns(),
            old(self).init_outcome(*final(self), r),
    ;

    /// The next row: the first pending row, else the end or the error.
    fn next(&mut self) -> (r: Result<Option<Tuple>, BustubxError>)
        requires
            old(self).wf(),
        ensures
            final(self).wf(),
            final(self).schema_columns() == old(self).schema_columns(),
            final(self).end() == old(self).end(),
            old(self).pending().len() > 0 ==> {
                &&& r matches Ok(Some(t)) && t@ == old(self).pending()[0]
                &&& final(self).pending() == old(self).pending().drop_first()
            },
            old(self).pending().len() == 0 ==> match old(self).end() {
                Ok(_) => r matches Ok(None),
                Err(e) => r == Err::<Option<Tuple>, BustubxError>(e),
            },
            old(self).pending().len() == 0 ==> final(self).pending().len() == 0,
    ;

    fn output_schema(&self) -> (r: SchemaRef)
        requires
            self.wf(),
        ensures
            r.columns@ == self.schema_columns(),
    ;
}

/// The views of the rows.
pub open spec fn tuple_views(rows: Seq<Tuple>) -> Seq<TupleView> {
    Seq::new(rows.len(), |i: int| rows[i]@)
}

/// The sort-key values of two rows agree in length and in the variant of
/// each key.
pub open spec fn same_kinds(a: Seq<ScalarValue>, b: Seq<ScalarValue>) -> bool {
    &&& a.len() == b.len()
    &&& forall|j: int| 0 <= j < a.len() ==> (#[trigger] a[j]).kind() == b[j].kind()
}

/// `k` is a possible result of `key_of` on row `t`.
pub open spec fn gives_keys<F: Fn(&Tuple) -> Vec<ScalarValue>>(key_of: F, t: Tuple, k: Vec<ScalarValue>) -> bool {
    key_of.ensures((&t,), k)
}

/// `key_of` gives the sort-key values of any row: one value per key, and the
/// same variant for a key on every row, so that any two rows compare.
pub open spec fn keys_fit<F: Fn(&Tuple) -> Vec<ScalarValue>>(key_of: F, m: nat) -> bool {
    &&& forall|t: Tuple| #[trigger] key_of.requires((&t,))
    &&& forall|t: Tuple, k: Vec<ScalarValue>| #[trigger] gives_keys(key_of, t, k) ==> k@.len() == m
    &&& forall|t1: Tuple, k1: Vec<ScalarValue>, t2: Tuple, k2: Vec<ScalarValue>|
        #![trigger gives_keys(key_of, t1, k1), gives_keys(key_of, t2, k2)]
        gives_keys(key_of, t1, k1) && gives_keys(key_of, t2, k2) ==> same_kinds(k1@, k2@)
}

/// The sort-key values of each row, as sequences.
pub open spec fn key_views(ks: Seq<Vec<ScalarValue>>) -> Seq<Seq<ScalarValue>> {
    Seq::new(ks.len(), |i: int| ks[i]@)
}

/// `out` holds `rows` in sorted order: by the sort-key values that `key_of`
/// gives for each row, in the keys' directions, rows with equal keys in
/// their input order.
pub open spec fn sorted_by_keys<F: Fn(&Tuple) -> Vec<ScalarValue>>(
    rows: Seq<TupleView>,
    out: Seq<TupleView>,
    key_of: F,
    asc: Seq<bool>,
) -> bool {
    exists|ts: Seq<Tuple>, ks: Seq<Vec<ScalarValue>>, perm: Seq<usize>|
        #![trigger tuple_views(ts), is_sorted_permutation(perm, key_views(ks), asc, rows.len())]
        {
            &&& tuple_views(ts) == rows
            &&& ks.len() == rows.len()
            &&& forall|i: int| 0 <= i < rows.len() ==> gives_keys(key_of, ts[i], #[trigger] ks[i])
            &&& is_sorted_permutation(perm, key_views(ks), asc, rows.len())
            &&& out.len() == rows.len()
            &&& forall|a: int| 0 <= a < rows.len() ==> #[trigger] out[a] == rows[perm[a] as int]
        }
}

/// Sorts the rows of its input by its sort keys and hands them out one at a time.
pub struct PhysicalSort<P, F> {
    order_bys: Vec<OrderByExpr>,
    input: P,
    key_of: F,
    all_tuples: Vec<Tuple>,
    cursor: usize,
}

impl<P: VolcanoExecutor, F: Fn(&Tuple) -> Vec<ScalarValue>> PhysicalSort<P, F> {
    pub closed spec fn spec_order_bys(&self) -> Seq<OrderByExpr> {
        self.order_bys@
    }

    pub closed spec fn spec_input(&self) -> P {
        self.input
    }

    pub closed spec fn spec_key_of(&self) -> F {
        self.key_of
    }

    pub closed spec fn sorted_tuples(&self) -> Seq<Tuple> {
        self.all_tuples@
    }

    pub closed spec fn spec_cursor(&self) -> usize {
        self.cursor
    }

    /// A sort of the rows of `input` by `order_bys`; `key_of` gives the
    /// values of the sort keys for a row.
    pub fn new(order_bys: Vec<OrderByExpr>, input: P, key_of: F) -> (r: Self)
        ensures
            r.spec_order_bys() == order_bys@,
            r.spec_input() == input,
            r.spec_key_of() == key_of,
            r.sorted_tuples() == Seq::<Tuple>::empty(),
            r.spec_cursor() == 0,
    {
        PhysicalSort { order_bys, input, key_of, all_tuples: Vec::new(), cursor: 0 }
    }

    pub fn order_bys(&self) -> (r: &Vec<OrderByExpr>)
        ensures
            r@ == self.spec_order_bys(),
    {
        &self.order_bys
    }

    /// The operator whose rows are sorted.
    pub fn input(&self) -> (r: &P)
        ensures
            *r == self.spec_input(),
    {
        &self.input
    }
}

/// What `init` of a sort does: it initialises the input, takes all its rows
/// and sorts them. An error of the input is passed on unchanged, and the
/// sorted rows and the read position stay as they were.
pub open spec fn sort_init_outcome<P: VolcanoExecutor, F: Fn(&Tuple) -> Vec<ScalarValue>>(
    pre: PhysicalSort<P, F>,
    post: PhysicalSort<P, F>,
    r: Result<(), BustubxError>,
) -> bool {
    &&& post.spec_order_bys() == pre.spec_order_bys()
    &&& post.spec_key_of() == pre.spec_key_of()
    &&& exists|mid: P, ri: Result<(), BustubxError>|
        {
            &&& #[trigger] pre.spec_input().init_outcome(mid, ri)
            &&& match ri {
                Err(e) => {
                    &&& r == Err::<(), BustubxError>(e)
                    &&& post.spec_input() == mid
                    &&& post.sorted_tuples() == pre.sorted_tuples()
                    &&& post.spec_cursor() == pre.spec_cursor()
                },
                Ok(_) => {
                    &&& post.spec_input().end() == mid.end()
                    &&& match mid.end() {
                        Err(e) => {
                            &&& r == Err::<(), BustubxError>(e)
                            &&& post.sorted_tuples() == pre.sorted_tuples()
                            &&& post.spec_cursor() == pre.spec_cursor()
                        },
                        Ok(_) => {
                            &&& r == Ok::<(), BustubxError>(())
                            &&& post.spec_cursor() == 0
                            &&& sorted_by_keys(
                                mid.pending(),
                                tuple_views(post.sorted_tuples()),
                                pre.spec_key_of(),
                                directions(pre.spec_order_bys()),
                            )
                        },
                    }
                },
            }
        }
}

impl<P: VolcanoExecutor, F: Fn(&Tuple) -> Vec<ScalarValue>> VolcanoExecutor for PhysicalSort<P, F> {
    open spec fn wf(&self) -> bool {
        &&& self.spec_input().wf()
        &&& keys_fit(self.spec_key_of(), self.spec_order_bys().len())
    }

    open spec fn pending(&self) -> Seq<TupleView> {
        if self.spec_cursor() < self.sorted_tuples().len() {
            tuple_views(self.sorted_tuples()).skip(self.spec_cursor() as int)
        } else {
            Seq::empty()
        }
    }

    open spec fn end(&self) -> Result<(), BustubxError> {
        Ok(())
    }

    open spec fn init_outcome(&self, post: Self, r: Result<(), BustubxError>) -> bool {
        sort_init_outcome(*self, post, r)
    }

    open spec fn schema_columns(&self) -> Seq<Column> {
        self.spec_input().schema_columns()
    }

    /// Initialises the input, takes all its rows, computes the sort-key
    /// values of each with `key_of` and sorts the rows by them, then rewinds
    /// to the first. Rows with equal keys keep their input order. The first
    /// error of the input is returned unchanged. The keys come from `key_of`
    /// and not from the sort expressions: evaluating a column expression is
    /// not implemented.
    fn init(&mut self) -> (r: Result<(), BustubxError>) {
        let ghost pre = *self;
        let ri = self.input.init();
        match ri {
            Err(e) => {
                proof {
                    assert(pre.spec_input().init_outcome(self.spec_input(), ri));
                }
                return Err(e);
            },
            Ok(()) => {},
        }
        let ghost mid = self.input;
        let ghost init_r = ri;
        proof {
            assert(pre.spec_input().init_outcome(mid, init_r));
        }
        let mut rows: Vec<Tuple> = Vec::new();
        let mut keys: Vec<Vec<ScalarValue>> = Vec::new();
        loop
            invariant_except_break
                self.input.pending() == mid.pending().skip(rows@.len() as int),
            invariant
                *old(self) == pre,
                self.spec_order_bys() == pre.spec_order_bys(),
                self.spec_key_of() == pre.spec_key_of(),
                self.sorted_tuples() == pre.sorted_tuples(),
                self.spec_cursor() == pre.spec_cursor(),
                self.input.wf(),
                keys_fit(self.key_of, self.order_bys@.len()),
                self.input.end() == mid.end(),
                self.input.schema_columns() == pre.spec_input().schema_columns(),
                pre.spec_input().init_outcome(mid, init_r),
                init_r is Ok,
                rows@.len() == keys@.len(),
                rows@.len() <= mid.pending().len(),
                tuple_views(rows@) == mid.pending().take(rows@.len() as int),
                forall|i: int|
                    0 <= i < rows@.len() ==> gives_keys(self.key_of, rows@[i], #[trigger] keys@[i]),
            ensures
                self.spec_order_bys() == pre.spec_order_bys(),
                self.spec_key_of() == pre.spec_key_of(),
                self.sorted_tuples() == pre.sorted_tuples(),
                self.spec_cursor() == pre.spec_cursor(),
                self.input.wf(),
                keys_fit(self.key_of, self.order_bys@.len()),
                self.input.end() == mid.end(),
                self.input.schema_columns() == pre.spec_input().schema_columns(),
                mid.end() is Ok,
                rows@.len() == keys@.len(),
                tuple_views(rows@) == mid.pending(),
                forall|i: int|
                    0 <= i < rows@.len() ==> gives_keys(self.key_of, rows@[i], #[trigger] keys@[i]),
            decreases self.input.pending().len(),
        {
            match self.input.next() {
                Err(e) => {
                    proof {
                        assert(mid.pending().skip(rows@.len() as int).len() == 0);
                        assert(mid.end() == Err::<(), BustubxError>(e));
                        assert(self.schema_columns() == pre.schema_columns());
                        assert(sort_init_outcome(pre, *self, Err(e)));
                    }
                    return Err(e);
                },
                Ok(None) => {
                    proof {
                        assert(tuple_views(rows@) =~= mid.pending());
                    }
                    break;
                },
                Ok(Some(t)) => {
                    let k = (self.key_of)(&t);
                    proof {
                        assert(gives_keys(self.key_of, t, k));
                    }
                    let ghost n = rows@.len();
                    rows.push(t);
                    keys.push(k);
                    proof {
                        assert(tuple_views(rows@) =~= mid.pending().take(rows@.len() as int));
                        assert(self.input.pending() =~= mid.pending().skip(rows@.len() as int));
                    }
                },
            }
        }
        proof {
            assert forall|x: int, y: int, j: int|
                0 <= x < keys@.len() && 0 <= y < keys@.len() && 0 <= j < self.order_bys@.len()
                    implies (#[trigger] key_rows(&keys)[x][j]).kind() == (
            #[trigger] key_rows(&keys)[y][j]).kind() by {
                assert(gives_keys(self.key_of, rows@[x], keys@[x]));
                assert(gives_keys(self.key_of, rows@[y], keys@[y]));
                assert(same_kinds(keys@[x]@, keys@[y]@));
            }
            assert forall|x: int| 0 <= x < keys@.len() implies (#[trigger] key_rows(
                &keys,
            )[x]).len() == self.order_bys@.len() by {
                assert(gives_keys(self.key_of, rows@[x], keys@[x]));
            }
        }
        let perm = sort_order(&keys, &self.order_bys);
        let mut all_tuples: Vec<Tuple> = Vec::new();
        let mut a: usize = 0;
        while a < perm.len()
            invariant
                perm@.len() == rows@.len(),
                forall|b: int| 0 <= b < perm@.len() ==> (#[trigger] perm@[b] as int) < rows@.len(),
                a <= perm@.len(),
                all_tuples@.len() == a,
                forall|b: int| 0 <= b < a ==> (#[trigger] all_tuples@[b])@ == rows@[perm@[b] as int]@,
            decreases perm@.len() - a,
        {
            let t = rows[perm[a]].duplicate();
            all_tuples.push(t);
            a = a + 1;
        }
        self.all_tuples = all_tuples;
        self.cursor = 0;
        proof {
            let out = tuple_views(self.sorted_tuples());
            let n = mid.pending().len();
            assert(key_views(keys@) =~= key_rows(&keys));
            assert(is_sorted_permutation(perm@, key_views(keys@), directions(pre.spec_order_bys()), n));
            assert forall|a: int| 0 <= a < n implies #[trigger] out[a] == mid.pending()[perm@[a] as int] by {
                assert(tuple_views(rows@)[perm@[a] as int] == rows@[perm@[a] as int]@);
            }
            assert forall|i: int| 0 <= i < n implies gives_keys(self.key_of, rows@[i], #[trigger] keys@[i]) by {}
            assert(tuple_views(rows@) == mid.pending());
            assert(sorted_by_keys(mid.pending(), out, pre.spec_key_of(), directions(pre.spec_order_bys())));
        }
        Ok(())
    }

    /// The next row in sorted order; `None` once all rows were handed out,
    /// and on every later call until the next `init`: the read position stays
    /// at the end.
    fn next(&mut self) -> (r: Result<Option<Tuple>, BustubxError>) {
        let cursor = self.cursor;
        if cursor >= self.all_tuples.len() {
            return Ok(None);
        }
        self.cursor = cursor + 1;
        proof {
            assert(self.pending() =~= old(self).pending().drop_first());
        }
        Ok(Some(self.all_tuples[cursor].duplicate()))
    }

    /// The columns of the input's rows.
    fn output_schema(&self) -> (r: SchemaRef) {
        self.input.output_schema()
    }
}

/// Creates an index over the columns of a table.
pub struct PhysicalCreateIndex {
    pub name: String,
    pub table: TableReference,
    pub table_schema: SchemaRef,
    pub columns: Vec<OrderByExpr>,
}

impl PhysicalCreateIndex {
    pub fn new(
        name: String,
        table: TableReference,
        table_schema: SchemaRef,
        columns: Vec<OrderByExpr>,
    ) -> (r: Self)
        ensures
            r.name == name,
            r.table == table,
            r.table_schema == table_schema,
            r.columns == columns,
    {
        PhysicalCreateIndex { name, table, table_schema, columns }
    }
}

impl VolcanoExecutor for PhysicalCreateIndex {
    open spec fn wf(&self) -> bool {
        true
    }

    /// Creating an index yields no rows.
    open spec fn pending(&self) -> Seq<TupleView> {
        Seq::empty()
    }

    open spec fn end(&self) -> Result<(), BustubxError> {
        Ok(())
    }

    /// Initialising changes nothing and succeeds.
    open spec fn init_outcome(&self, post: Self, r: Result<(), BustubxError>) -> bool {
        post == *self && r == Ok::<(), BustubxError>(())
    }

    /// The operator outputs no columns.
    open spec fn schema_columns(&self) -> Seq<Column> {
        Seq::empty()
    }

    fn init(&mut self) -> (r: Result<(), BustubxError>) {
        Ok(())
    }

    fn next(&mut self) -> (r: Result<Option<Tuple>, BustubxError>) {
        Ok(None)
    }

    fn output_schema(&self) -> (r: SchemaRef) {
        Arc::new(Schema::empty())
    }
}

/// Hands out a fixed list of rows, in order.
pub struct PhysicalValues {
    rows: Vec<Tuple>,
    columns: Vec<Column>,
    cursor: usize,
}

impl PhysicalValues {
    pub closed spec fn spec_rows(&self) -> Seq<Tuple> {
        self.rows@
    }

    pub closed spec fn spec_columns(&self) -> Seq<Column> {
        self.columns@
    }

    pub closed spec fn spec_cursor(&self) -> usize {
        self.cursor
    }

    /// Rows of the given columns.
    pub fn new(columns: Vec<Column>, rows: Vec<Tuple>) -> (r: Self)
        ensures
            r.spec_rows() == rows@,
            r.spec_columns() == columns@,
            r.spec_cursor() == 0,
    {
        PhysicalValues { rows, columns, cursor: 0 }
    }
}

impl VolcanoExecutor for PhysicalValues {
    open spec fn wf(&self) -> bool {
        self.spec_cursor() <= self.spec_rows().len()
    }

    open spec fn pending(&self) -> Seq<TupleView> {
        tuple_views(self.spec_rows()).skip(self.spec_cursor() as int)
    }

    open spec fn end(&self) -> Result<(), BustubxError> {
        Ok(())
    }

    /// Initialising rewinds to the first row.
    open spec fn init_outcome(&self, post: Self, r: Result<(), BustubxError>) -> bool {
        &&& r == Ok::<(), BustubxError>(())
        &&& post.spec_rows() == self.spec_rows()
        &&& post.spec_columns() == self.spec_columns()
        &&& post.spec_cursor() == 0
    }

    open spec fn schema_columns(&self) -> Seq<Column> {
        self.spec_columns()
    }

    fn init(&mut self) -> (r: Result<(), BustubxError>) {
        self.cursor = 0;
        Ok(())
    }

    fn next(&mut self) -> (r: Result<Option<Tuple>, BustubxError>) {
        if self.cursor >= self.rows.len() {
            return Ok(None);
        }
        let t = self.rows[self.cursor].duplicate();
        self.cursor = self.cursor + 1;
        proof {
            assert(self.pending() =~= old(self).pending().drop_first());
        }
        Ok(Some(t))
    }

    fn output_schema(&self) -> (r: SchemaRef) {
        let mut columns: Vec<Column> = Vec::new();
        let mut i: usize = 0;
        while i < self.columns.len()
            invariant
                i <= self.columns@.len(),
                columns@ == self.columns@.take(i as int),
            decreases self.columns@.len() - i,
        {
            columns.push(self.columns[i].clone());
            i = i + 1;
            assert(columns@ =~= self.columns@.take(i as int));
        }
        assert(columns@ =~= self.columns@);
        Arc::new(Schema::new(columns))
    }
}

} // verus!
