use up4::warn::{WarnRate, WARN_INTERVAL_US};

const NOW: u64 = 123_456_789;

#[test]
fn the_first_occurrence_always_reports() {
    let mut w = WarnRate::new();
    assert_eq!(w.tick(NOW), Some(1));
}

#[test]
fn the_first_occurrence_reports_even_at_the_clocks_origin() {
    let mut w = WarnRate::new();
    assert_eq!(w.tick(0), Some(1));
    assert_eq!(w.tick(0), None);
}

#[test]
fn subsequent_occurrences_are_counted_quietly() {
    let mut w = WarnRate::new();
    assert_eq!(w.tick(NOW), Some(1));
    for i in 0..1000 {
        assert_eq!(w.tick(NOW + i), None);
    }
    assert_eq!(w.count(), 1001);
}

#[test]
fn the_interval_reports_the_running_total() {
    let mut w = WarnRate::new();
    w.tick(NOW);
    w.tick(NOW + WARN_INTERVAL_US - 1);
    assert_eq!(w.tick(NOW + WARN_INTERVAL_US), Some(3));
    assert_eq!(w.tick(NOW + WARN_INTERVAL_US), None, "and goes quiet again");
}
