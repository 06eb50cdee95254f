use up4::seq::{SeqEvent, SeqNum, SeqTracker, REORDER_WINDOW};

fn observe_all(start: u32, seqs: &[u32]) -> Vec<SeqEvent> {
    let mut t = SeqTracker::new();
    t.observe(SeqNum::new(start));
    seqs.iter().map(|s| t.observe(SeqNum::new(*s))).collect()
}

#[test]
fn first_frame_is_in_order_whatever_its_value() {
    let mut t = SeqTracker::new();
    assert_eq!(t.observe(SeqNum::new(0xdead_beef)), SeqEvent::InOrder);
    assert_eq!(t.expected(), Some(SeqNum::new(0xdead_bef0)));
}

#[test]
fn contiguous_run_is_in_order() {
    assert!(
        observe_all(0, &[1, 2, 3, 4])
            .iter()
            .all(|e| *e == SeqEvent::InOrder)
    );
}

#[test]
fn gap_reports_the_number_of_missing_frames() {
    assert_eq!(observe_all(10, &[14]), vec![SeqEvent::Gap(3)]);
}

#[test]
fn late_frame_is_reorder_and_does_not_disturb_expectation() {
    // 10, then 14 (gap of 3), then the three late ones arrive.
    assert_eq!(
        observe_all(10, &[14, 11, 12, 13, 15]),
        vec![
            SeqEvent::Gap(3),
            SeqEvent::Reorder,
            SeqEvent::Reorder,
            SeqEvent::Reorder,
            SeqEvent::InOrder,
        ]
    );
}

#[test]
fn counter_wrap_is_in_order_not_a_gap() {
    assert_eq!(
        observe_all(u32::MAX, &[0, 1]),
        vec![SeqEvent::InOrder, SeqEvent::InOrder]
    );
}

#[test]
fn far_behind_resynchronizes() {
    // A peer restart: one Reorder, then the new run is in order.
    assert_eq!(
        observe_all(1_000_000, &[0, 1, 2]),
        vec![SeqEvent::Reorder, SeqEvent::InOrder, SeqEvent::InOrder]
    );
}

#[test]
fn reorder_window_boundary_is_exact() {
    let mut t = SeqTracker::new();
    t.observe(SeqNum::new(REORDER_WINDOW + 10));
    // expected = W + 11; a frame exactly W behind it is still "late"...
    assert_eq!(t.observe(SeqNum::new(11)), SeqEvent::Reorder);
    assert_eq!(t.expected(), Some(SeqNum::new(REORDER_WINDOW + 11)));
    // ...and one further back resynchronizes.
    assert_eq!(t.observe(SeqNum::new(10)), SeqEvent::Reorder);
    assert_eq!(t.expected(), Some(SeqNum::new(11)));
}

#[test]
fn delta_is_shortest_path_around_the_ring() {
    assert_eq!(SeqNum::new(0).delta(SeqNum::new(u32::MAX)), 1);
    assert_eq!(SeqNum::new(u32::MAX).delta(SeqNum::new(0)), -1);
}
