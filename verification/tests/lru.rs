use bustubx::buffer::lru::LRUReplacer;

#[test]
pub fn test_lru_k() {
    let mut lru_replacer = LRUReplacer::new(7);

    lru_replacer.unpin(1);
    lru_replacer.unpin(2);
    lru_replacer.unpin(3);
    lru_replacer.unpin(4);
    lru_replacer.unpin(5);
    lru_replacer.unpin(6);
    lru_replacer.unpin(1);
    assert_eq!(6, lru_replacer.size());
    // Scenario: get three victims from the lru.
    let mut value: u32 = 0;
    lru_replacer.victim(&mut value);
    assert_eq!(1, value);
    lru_replacer.victim(&mut value);
    assert_eq!(2, value);
    lru_replacer.victim(&mut value);
    assert_eq!(3, value);

    // Scenario: pin elements in the replacer.
    // Note that 3 has already been victimized, so pinning 3 should have no effect.
    lru_replacer.pin(3);
    lru_replacer.pin(4);
    assert_eq!(2, lru_replacer.size());

    // Scenario: unpin 4. We expect that the reference bit of 4 will be set to 1.
    lru_replacer.unpin(4);

    // Scenario: continue looking for victims. We expect these victims.
    lru_replacer.victim(&mut value);
    assert_eq!(5, value);
    lru_replacer.victim(&mut value);
    assert_eq!(6, value);
    lru_replacer.victim(&mut value);
    assert_eq!(4, value);
}

#[test]
fn victim_of_empty_replacer_fails() {
    let mut lru = LRUReplacer::new(2);
    let mut value: u32 = 9;
    assert!(!lru.victim(&mut value));
    assert_eq!(value, 9);
}

#[test]
fn full_replacer_ignores_unpin() {
    let mut lru = LRUReplacer::new(2);
    lru.unpin(1);
    lru.unpin(2);
    lru.unpin(3);
    assert_eq!(lru.size(), 2);
    let mut value: u32 = 0;
    assert!(lru.victim(&mut value));
    assert_eq!(value, 1);
    assert!(lru.victim(&mut value));
    assert_eq!(value, 2);
    assert!(!lru.victim(&mut value));
}
