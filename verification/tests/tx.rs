use up4::socket::{GSO_MAX_BYTES, TX_BATCH};
use up4::tx::{Run, TxQueue};
use up4::wire::OVERLAY_HDR_LEN;

const HDR: [u8; OVERLAY_HDR_LEN] = [0x10, 0, 0, 0, 0, 0, 0, 0, 0, 0, 0, 0];

fn queue(frames: &[usize]) -> TxQueue {
    let mut q = TxQueue::new(1460);
    for len in frames {
        assert!(q.push(&HDR, &vec![0xab; *len]), "staging {len} B");
    }
    q
}

#[test]
fn staging_lays_segments_out_back_to_back() {
    let q = queue(&[4, 4]);
    assert_eq!(q.len(), 2);
    assert_eq!(q.bytes().len(), 2 * (OVERLAY_HDR_LEN + 4));
    assert_eq!(&q.bytes()[..OVERLAY_HDR_LEN], &HDR);
    assert_eq!(&q.bytes()[OVERLAY_HDR_LEN..OVERLAY_HDR_LEN + 4], &[0xab; 4]);
    assert_eq!(q.inner_bytes(), 8);
}

#[test]
fn a_queue_is_bounded_and_reusable() {
    let mut q = queue(&[]);
    for _ in 0..TX_BATCH {
        assert!(q.push(&HDR, &[0u8; 64]));
    }
    assert!(q.is_full());
    assert!(
        !q.push(&HDR, &[0u8; 64]),
        "the bound is structural, not advisory"
    );
    q.clear();
    assert!(q.is_empty() && !q.is_full());
    assert!(q.push(&HDR, &[0u8; 64]));
}

#[test]
fn an_oversized_frame_is_refused_rather_than_truncated() {
    let mut q = TxQueue::new(100);
    assert!(!q.push(&HDR, &[0u8; 101]));
    assert!(q.is_empty());
    assert!(q.push(&HDR, &[0u8; 100]));
}

#[test]
fn uniform_segments_form_one_run() {
    let q = queue(&[100, 100, 100]);
    let runs: Vec<Run> = q.runs(64).collect();
    assert_eq!(runs.len(), 1);
    assert_eq!(runs[0].count, 3);
    assert_eq!(runs[0].segment_size, OVERLAY_HDR_LEN + 100);
    assert_eq!((runs[0].start, runs[0].end), (0, q.bytes().len()));
}

#[test]
fn a_shorter_tail_joins_the_run_and_a_longer_one_starts_a_new_one() {
    let runs: Vec<Run> = queue(&[100, 100, 40]).runs(64).collect();
    assert_eq!(
        runs.len(),
        1,
        "a short final segment is legal GSO: {runs:?}"
    );
    assert_eq!(runs[0].count, 3);

    let runs: Vec<Run> = queue(&[100, 40, 100]).runs(64).collect();
    assert_eq!(runs.len(), 2, "{runs:?}");
    assert_eq!((runs[0].count, runs[1].count), (2, 1));
    assert_eq!(runs[1].start, runs[0].end);
}

#[test]
fn runs_never_exceed_the_gso_segment_limit() {
    let q = queue(&[64; 10]);
    let runs: Vec<Run> = q.runs(4).collect();
    assert_eq!(runs.iter().map(|r| r.count).collect::<Vec<_>>(), [4, 4, 2]);
    assert_eq!(runs.last().map(|r| r.end), Some(q.bytes().len()));
}

#[test]
fn without_gso_every_segment_is_its_own_run() {
    let runs: Vec<Run> = queue(&[64, 64, 64]).runs(1).collect();
    assert_eq!(runs.len(), 3);
    assert!(runs.iter().all(|r| r.count == 1));
}

#[test]
fn runs_are_bounded_by_what_one_segmented_write_can_carry() {
    // 64 full-MTU segments is 94 KiB, past the single-datagram limit.
    let q = queue(&[1460; 64]);
    let runs: Vec<Run> = q.runs(64).collect();
    assert!(runs.len() > 1, "a full-MTU batch must be split: {runs:?}");
    for run in &runs {
        assert!(
            run.end - run.start <= GSO_MAX_BYTES,
            "run of {} B exceeds the limit",
            run.end - run.start
        );
    }
    assert_eq!(runs.iter().map(|r| r.count).sum::<usize>(), q.len());
    assert_eq!(runs.last().map(|r| r.end), Some(q.bytes().len()));
}

#[test]
fn a_single_oversized_segment_still_forms_a_run() {
    // Segments are MTU-bounded, so this can only happen with one segment.
    let q = queue(&[1460]);
    let runs: Vec<Run> = q.runs(64).collect();
    assert_eq!(runs.len(), 1);
    assert_eq!(runs[0].count, 1);
}

#[test]
fn an_empty_queue_has_no_runs() {
    assert_eq!(queue(&[]).runs(64).collect().len(), 0);
}

#[test]
fn runs_partition_the_buffer_exactly() {
    let q = queue(&[10, 10, 5, 20, 20, 1]);
    let runs: Vec<Run> = q.runs(64).collect();
    assert_eq!(runs.first().map(|r| r.start), Some(0));
    assert_eq!(runs.last().map(|r| r.end), Some(q.bytes().len()));
    assert!(runs.windows(2).all(|w| w[0].end == w[1].start), "{runs:?}");
    assert_eq!(runs.iter().map(|r| r.count).sum::<usize>(), q.len());
}

#[test]
fn a_run_that_ends_in_a_short_segment_cannot_grow() {
    let q = queue(&[100, 40, 40]);
    let runs: Vec<Run> = q.runs(64).collect();
    assert_eq!(runs.iter().map(|r| r.count).collect::<Vec<_>>(), [2, 1]);
    assert_eq!((runs[0].start, runs[0].end, runs[0].segment_size), (0, 164, 112));
    assert_eq!((runs[1].start, runs[1].end, runs[1].segment_size), (164, 216, 52));
}

#[test]
fn a_walk_over_runs_ends_and_stays_ended() {
    let q = queue(&[7]);
    let mut walk = q.runs(0);
    assert_eq!(walk.next(), Some(Run { start: 0, end: 19, count: 1, segment_size: 19 }));
    assert_eq!(walk.next(), None);
    assert_eq!(walk.next(), None);
}

#[test]
fn a_segment_longer_than_a_datagram_is_refused() {
    let mut q = TxQueue::new(70_000);
    assert!(!q.push(&HDR, &vec![0u8; 65_524]));
    assert!(q.push(&HDR, &vec![0u8; 65_523]));
    assert_eq!(q.inner_bytes(), 65_523);
}
