use bustubx::practice::fb::{fibonacci_iterative, fibonacci_recursive};
use bustubx::practice::lru::{access, evict, init, SimpleCache};

#[test]
pub fn lru_test_lru_k() {
    let mut lru = SimpleCache::new(3);
    lru.put(10, 2000);
    lru.put(11, 2001);
    lru.put(12, 2002);
    assert_eq!(lru.get(10), 2000);
    lru.put(13, 2003);
    assert_eq!(lru.get(9), -1);
}

#[test]
fn cache_evicts_least_recently_used() {
    let mut lru = SimpleCache::new(3);
    lru.put(10, 2000);
    lru.put(11, 2001);
    lru.put(12, 2002);
    assert_eq!(lru.get(10), 2000);
    lru.put(13, 2003);
    assert_eq!(lru.get(11), -1);
    assert_eq!(lru.get(12), 2002);
    assert_eq!(lru.get(13), 2003);
    assert_eq!(lru.get(10), 2000);
}

#[test]
fn cache_put_replaces_value() {
    let mut lru = SimpleCache::new(2);
    lru.put(1, 1);
    lru.put(2, 2);
    lru.put(1, 10);
    lru.put(3, 3);
    assert_eq!(lru.get(1), 10);
    assert_eq!(lru.get(2), -1);
    assert_eq!(lru.get(3), 3);
}

#[test]
fn cache_of_no_capacity_stores_nothing() {
    let mut lru = SimpleCache::new(0);
    lru.put(1, 1);
    assert_eq!(lru.get(1), -1);
}

#[test]
fn practice_placeholders() {
    init(5, SimpleCache::new(1));
    assert_eq!(access(42), 42);
    assert_eq!(evict(), 1);
}

#[test]
fn fibonacci_values() {
    assert_eq!(fibonacci_recursive(0), 0);
    assert_eq!(fibonacci_recursive(1), 1);
    assert_eq!(fibonacci_recursive(20), 6765);
    assert_eq!(fibonacci_iterative(0), 0);
    assert_eq!(fibonacci_iterative(1), 1);
    assert_eq!(fibonacci_iterative(20), 6765);
    assert_eq!(fibonacci_iterative(92), 7540113804746346429);
}
