use bustubx::buffer::bpm_bench::BpmMetrics;

#[test]
fn report_is_due_after_a_second() {
    let mut m = BpmMetrics::new("Reporter".to_string(), 5000);
    assert!(m.report_at(500_000_000).is_none());
    m.tick();
    m.tick();
    m.tick();
    let r = m.report_at(1_500_000_000).unwrap();
    assert_eq!(r.elapsed_ns, 1_500_000_000);
    assert_eq!(r.cnt, 3);
    assert_eq!(r.new_cnt, 3);
    assert_eq!(r.interval_ns, 1_500_000_000);
    m.tick();
    assert!(m.report_at(2_000_000_000).is_none());
    assert!(m.report_at(2_500_999_999).is_none());
    let r = m.report_at(2_501_000_000).unwrap();
    assert_eq!(r.cnt, 4);
    assert_eq!(r.new_cnt, 1);
    assert_eq!(r.interval_ns, 1_001_000_000);
    assert_eq!(m.reporter(), "Reporter");
}

#[test]
fn run_finishes_after_its_duration() {
    let m = BpmMetrics::new("r".to_string(), 5000);
    assert!(!m.finished_after(5_000_999_999));
    assert!(m.finished_after(5_001_000_000));
    assert!(!m.should_finish());
}
