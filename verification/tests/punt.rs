use up4::punt::{PuntFrame, PuntQueue, PUNT_DEPTH};

#[test]
fn frames_come_back_in_order_with_their_metadata() {
    let mut q = PuntQueue::with_depth(4, 64);
    assert!(q.push(b"one", 3, 111));
    assert!(q.push(b"two", 4, 222));
    assert_eq!(q.len(), 2);
    assert_eq!(
        q.drain(10),
        vec![
            PuntFrame {
                ingress_vport: 3,
                rx_ts_us: 111,
                bytes: b"one".to_vec()
            },
            PuntFrame {
                ingress_vport: 4,
                rx_ts_us: 222,
                bytes: b"two".to_vec()
            },
        ]
    );
    assert!(q.is_empty());
}

#[test]
fn a_full_ring_refuses_rather_than_growing() {
    let mut q = PuntQueue::with_depth(2, 64);
    assert!(q.push(b"a", 0, 0));
    assert!(q.push(b"b", 0, 0));
    assert!(
        !q.push(b"c", 0, 0),
        "the third push is the overflow counter's job"
    );
    assert_eq!(q.len(), 2);
    assert_eq!(q.capacity(), 2);
}

#[test]
fn draining_frees_slots_and_the_ring_wraps() {
    let mut q = PuntQueue::with_depth(2, 64);
    for round in 0..5u8 {
        assert!(q.push(&[round], 0, 0));
        assert!(q.push(&[round, round], 0, 0));
        let got = q.drain(2);
        assert_eq!(got.len(), 2);
        assert_eq!(got[0].bytes, vec![round]);
        assert_eq!(got[1].bytes, vec![round, round]);
    }
}

#[test]
fn partial_drains_leave_the_rest_in_order() {
    let mut q = PuntQueue::with_depth(4, 64);
    for i in 0..4u8 {
        assert!(q.push(&[i], 0, 0));
    }
    assert_eq!(
        q.drain(2).iter().map(|f| f.bytes[0]).collect::<Vec<_>>(),
        [0, 1]
    );
    assert_eq!(
        q.drain(99).iter().map(|f| f.bytes[0]).collect::<Vec<_>>(),
        [2, 3]
    );
    assert_eq!(q.drain(1), vec![]);
}

#[test]
fn a_frame_larger_than_a_slot_is_truncated_not_refused() {
    let mut q = PuntQueue::with_depth(1, 4);
    assert!(q.push(b"abcdefgh", 0, 0));
    assert_eq!(q.drain(1)[0].bytes, b"abcd".to_vec());
}



#[test]
fn a_queue_has_at_least_one_slot_and_a_default_depth() {
    let mut q = PuntQueue::with_depth(0, 8);
    assert_eq!(q.capacity(), 1);
    assert!(q.push(b"x", 1, 2));
    assert!(!q.push(b"y", 1, 2));
    assert_eq!(PuntQueue::new(8).capacity(), PUNT_DEPTH);
}

#[test]
fn a_slot_forgets_the_longer_frame_it_held_before() {
    let mut q = PuntQueue::with_depth(1, 8);
    assert!(q.push(b"longer", 1, 2));
    q.drain(1);
    assert!(q.push(b"ab", 3, 4));
    assert_eq!(
        q.drain(1),
        vec![PuntFrame { ingress_vport: 3, rx_ts_us: 4, bytes: b"ab".to_vec() }]
    );
}

#[test]
fn a_storm_is_bounded_by_the_ring_and_the_slot() {
    let mut q = PuntQueue::with_depth(4, 8);
    for i in 0..100u8 {
        assert_eq!(q.push(&[i; 20], 1, 0), i < 4);
        assert!(q.len() <= q.capacity());
    }
    assert!(q.drain(100).iter().all(|f| f.bytes.len() == 8));
}
