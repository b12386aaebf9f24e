use bustubx::buffer::replacer::LRUKReplacer;

#[test]
fn lru_k_evicts_by_backward_k_distance() {
    let mut r = LRUKReplacer::new(7, 2);
    for f in 1..=6u32 {
        r.record_access(f);
    }
    for f in 1..=5u32 {
        r.set_evictable(f, true);
    }
    r.set_evictable(6, false);
    assert_eq!(r.size(), 5);

    r.record_access(1);
    assert_eq!(r.evict(), Some(2));
    assert_eq!(r.evict(), Some(3));
    assert_eq!(r.evict(), Some(4));
    assert_eq!(r.size(), 2);

    r.record_access(3);
    r.record_access(4);
    r.record_access(5);
    r.record_access(4);
    r.set_evictable(3, true);
    r.set_evictable(4, true);
    assert_eq!(r.size(), 4);

    assert_eq!(r.evict(), Some(3));
    assert_eq!(r.size(), 3);

    r.set_evictable(6, true);
    assert_eq!(r.size(), 4);
    assert_eq!(r.evict(), Some(6));
    assert_eq!(r.size(), 3);

    r.set_evictable(1, false);
    assert_eq!(r.size(), 2);
    assert_eq!(r.evict(), Some(5));
    assert_eq!(r.size(), 1);

    r.record_access(1);
    r.record_access(1);
    r.set_evictable(1, true);
    assert_eq!(r.size(), 2);
    assert_eq!(r.evict(), Some(4));
    assert_eq!(r.size(), 1);
    assert_eq!(r.evict(), Some(1));
    assert_eq!(r.size(), 0);
    assert_eq!(r.evict(), None);
}

#[test]
fn untracked_frames_are_ignored() {
    let mut r = LRUKReplacer::new(3, 2);
    r.set_evictable(0, true);
    assert_eq!(r.size(), 0);
    r.remove(1);
    assert_eq!(r.size(), 0);
    r.record_access(2);
    r.set_evictable(2, true);
    r.set_evictable(2, true);
    assert_eq!(r.size(), 1);
    r.remove(2);
    assert_eq!(r.size(), 0);
    assert_eq!(r.evict(), None);
    assert_eq!(r.capacity(), 3);
}
