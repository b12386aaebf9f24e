use bustubx::buffer::lru_replacer::add;

#[test]
fn test_addition() {
    assert_eq!(add(2, 3), 5);
    assert_eq!(add(-1, 1), 0);
    assert_eq!(add(0, 0), 0);
}
