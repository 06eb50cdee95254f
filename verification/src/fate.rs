//! What becomes of a received segment.
//!
//! A segment is refused, or it is accepted, shown to the pipeline under the id
//! of the vport it came from, and then sent on, flooded, punted or dropped.
//! These laws follow one segment, and one read, from the bytes that arrive to
//! the bytes that leave.
use crate::config::vport::distinct;
use crate::engine::{Engine, Pipeline, Verdict};
use crate::metrics::{Counters, Hist, VportCounter};
use crate::programs::null::{NullEngine, NullPipeline};
use crate::punt::PuntModel;
use crate::shard::{
    lemma_found_id, lemma_found_peer, lemma_next_segment, lemma_no_id, lemma_no_peer,
    lemma_segments, pieces, received, segment_of, segment_received, segment_start,
    segments_received, BatchModel, Fabric, PuntState, Read, ShardState,
};
use crate::tx::TxModel;
use vstd::prelude::*;

verus! {

/// The state has one queue, one number of each direction and one block of
/// counters for each vport, and no two vports are alike.
pub open spec fn matches_fabric(s: ShardState, fabric: Fabric) -> bool {
    &&& s.tx.len() == fabric.vports.len()
    &&& s.tx_seq.len() == fabric.vports.len()
    &&& s.rx_seq.len() == fabric.vports.len()
    &&& s.metrics.vports.len() == fabric.vports.len()
    &&& distinct(fabric.vports)
}

/// `segment` starts with a whole header of the version spoken here.
pub open spec fn decodable(segment: Seq<u8>) -> bool {
    segment.len() >= 12 && segment[0] / 16 == 1
}

/// The frame that a segment carries.
pub open spec fn carried(segment: Seq<u8>) -> Seq<u8> {
    segment.subrange(12, segment.len() as int)
}

/// The last segment of `queue` is `frame` behind a header that names the vport
/// it came from, its number and the time.
pub open spec fn ends_with(
    queue: TxModel,
    from: u16,
    number: int,
    now: u32,
    frame: Seq<u8>,
) -> bool {
    let b = queue.bytes;
    let at = b.len() - 12 - frame.len();
    &&& queue.lens.len() > 0
    &&& queue.lens.last() == 12 + frame.len()
    &&& at >= 0
    &&& b[at] == 0x10
    &&& b[at + 1] == 0
    &&& b[at + 2] * 0x100 + b[at + 3] == from
    &&& b[at + 4] * 0x100_0000 + b[at + 5] * 0x1_0000 + b[at + 6] * 0x100 + b[at + 7] == number
    &&& b[at + 8] * 0x100_0000 + b[at + 9] * 0x1_0000 + b[at + 10] * 0x100 + b[at + 11] == now
    &&& b.subrange(at + 12, b.len() as int) == frame
}

/// `after` is `before` with `frame` added behind what is staged for `egress`.
/// Sixty-four staged segments are sent first, to the peer of that vport.
pub open spec fn stages(
    before: ShardState,
    after: ShardState,
    fabric: Fabric,
    egress: int,
    from: u16,
    now: u32,
    frame: Seq<u8>,
) -> bool {
    let was = before.tx[egress];
    let is = after.tx[egress];
    &&& ends_with(is, from, before.tx_seq[egress], now, frame)
    &&& after.tx_seq[egress] == (before.tx_seq[egress] + 1) % 0x1_0000_0000
    &&& was.lens.len() < 64 ==> is.lens.drop_last() == was.lens && is.bytes.subrange(
        0,
        is.bytes.len() - 12 - frame.len(),
    ) == was.bytes && after.outbox == before.outbox
    &&& was.lens.len() >= 64 ==> is.lens.len() == 1 && is.bytes.len() == 12 + frame.len()
        && after.outbox == before.outbox.push(
        BatchModel { egress, destination: fabric.vports[egress].peer, queue: was },
    )
}

proof fn lemma_stages(
    s: ShardState,
    fabric: Fabric,
    egress: int,
    from: u16,
    now: u32,
    frame: Seq<u8>,
)
    requires
        0 <= egress < s.tx.len(),
        s.tx_seq.len() == s.tx.len(),
        0 <= s.tx_seq[egress] < 0x1_0000_0000,
        frame.len() <= fabric.inner_mtu,
        12 + frame.len() <= 65535,
    ensures
        ({
            let after = s.staged(fabric, egress, frame, from, now);
            &&& stages(s, after, fabric, egress, from, now, frame)
            &&& after.metrics.global == s.metrics.global
            &&& after.metrics.vports == s.metrics.vports
            &&& after.rx_seq == s.rx_seq
            &&& after.punt == s.punt
            &&& after.tx.len() == s.tx.len()
            &&& after.tx_seq.len() == s.tx_seq.len()
            &&& forall|i: int|
                0 <= i < s.tx.len() && i != egress ==> (#[trigger] after.tx[i]) == s.tx[i]
            &&& forall|i: int|
                0 <= i < s.tx.len() && i != egress ==> (#[trigger] after.tx_seq[i]) == s.tx_seq[i]
        }),
{
    let after = s.staged(fabric, egress, frame, from, now);
    let queue = after.tx[egress];
    let at = queue.bytes.len() - 12 - frame.len();
    crate::bytes::lemma_be16_round_trip(from as int);
    crate::bytes::lemma_be32_round_trip(s.tx_seq[egress]);
    crate::bytes::lemma_be32_round_trip(now as int);
    let header = crate::wire::header_of(from as int, s.tx_seq[egress], now as int);
    assert(header.len() == 12);
    assert(queue.bytes.subrange(at, at + 12) =~= header);
    assert(forall|i: int| 0 <= i < 12 ==> queue.bytes[at + i] == #[trigger] header[i]);
    assert(queue.bytes.subrange(at + 12, queue.bytes.len() as int) =~= frame);
    if s.tx[egress].lens.len() < 64 {
        assert(queue.lens.drop_last() =~= s.tx[egress].lens);
        assert(queue.bytes.subrange(0, at) =~= s.tx[egress].bytes);
    }
}

/// `after` is `before` with a frame of `len` bytes and this number counted as
/// received on `ingress`. A number ahead of the expected one counts as so many
/// missing, one behind it as late; one that is late by at most 1024 leaves the
/// expectation alone. Nothing is counted for any other vport.
pub open spec fn arrives(
    before: ShardState,
    after: ShardState,
    ingress: int,
    number: int,
    len: int,
) -> bool {
    let b = before.metrics.vports[ingress];
    let a = after.metrics.vports[ingress];
    let next = Some((number + 1) % 0x1_0000_0000);
    &&& a.rx_pkts == (b.rx_pkts + 1) % 0x1_0000_0000_0000_0000
    &&& a.rx_bytes == (b.rx_bytes + len) % 0x1_0000_0000_0000_0000
    &&& a.tx_pkts == b.tx_pkts
    &&& a.tx_bytes == b.tx_bytes
    &&& match before.rx_seq[ingress] {
        None => a.rx_seq_gap_total == b.rx_seq_gap_total && a.rx_reorder == b.rx_reorder
            && after.rx_seq[ingress] == next,
        Some(e) => {
            let ahead = (number - e) % 0x1_0000_0000;
            if ahead == 0 {
                a.rx_seq_gap_total == b.rx_seq_gap_total && a.rx_reorder == b.rx_reorder
                    && after.rx_seq[ingress] == next
            } else if ahead < 0x8000_0000 {
                a.rx_seq_gap_total == (b.rx_seq_gap_total + ahead) % 0x1_0000_0000_0000_0000
                    && a.rx_reorder == b.rx_reorder && after.rx_seq[ingress] == next
            } else {
                a.rx_seq_gap_total == b.rx_seq_gap_total && a.rx_reorder == (b.rx_reorder + 1)
                    % 0x1_0000_0000_0000_0000 && after.rx_seq[ingress] == (if 0x1_0000_0000
                    - ahead <= 1024 {
                    Some(e)
                } else {
                    next
                })
            }
        },
    }
    &&& after.rx_seq.len() == before.rx_seq.len()
    &&& after.metrics.vports.len() == before.metrics.vports.len()
    &&& forall|i: int|
        0 <= i < before.rx_seq.len() && i != ingress ==> (#[trigger] after.rx_seq[i])
            == before.rx_seq[i]
    &&& forall|i: int|
        0 <= i < before.metrics.vports.len() && i != ingress ==> (#[trigger]
        after.metrics.vports[i]) == before.metrics.vports[i]
}

/// The number that a segment carries.
pub open spec fn numbered(segment: Seq<u8>) -> int {
    segment[4] * 0x100_0000 + segment[5] * 0x1_0000 + segment[6] * 0x100 + segment[7]
}

#[verifier::rlimit(40)]
proof fn lemma_arrives(s: ShardState, fabric: Fabric, ingress: int, number: int, len: int)
    requires
        matches_fabric(s, fabric),
        0 <= ingress < fabric.vports.len(),
        0 <= len <= u64::MAX,
    ensures
        ({
            let after = s.accepted(ingress, number, len);
            &&& arrives(s, after, ingress, number, len)
            &&& matches_fabric(after, fabric)
            &&& after.metrics.vports[ingress].tx_broadcast
                == s.metrics.vports[ingress].tx_broadcast
            &&& after.metrics.global == s.metrics.global
            &&& after.tx == s.tx
            &&& after.tx_seq == s.tx_seq
            &&& after.outbox == s.outbox
            &&& after.punt == s.punt
        }),
{
    let after = s.accepted(ingress, number, len);
    if let Some(e) = s.rx_seq[ingress] {
        let ahead = (number - e) % 0x1_0000_0000;
        assert(0 <= ahead < 0x1_0000_0000);
    }
}

/// What `segment` does to the state on the way to the pipeline.
spec fn shown(s: ShardState, segment: Seq<u8>, ingress: int) -> ShardState {
    s.accepted(ingress, numbered(segment), segment.len() - 12)
}

proof fn lemma_shown<P: Pipeline>(
    s: ShardState,
    program: &P,
    fabric: Fabric,
    segment: Seq<u8>,
    ingress: int,
    now: u32,
)
    requires
        matches_fabric(s, fabric),
        0 <= ingress < fabric.vports.len(),
        decodable(segment),
        segment.len() <= u64::MAX,
    ensures
        arrives(s, shown(s, segment, ingress), ingress, numbered(segment), segment.len() - 12),
        segment_received(s, program, fabric, segment, ingress, now) == shown(
            s,
            segment,
            ingress,
        ).decided(
            fabric,
            P::Engine::decision(program, fabric.vports[ingress].id, carried(segment)),
            ingress,
            now,
        ),
{
    reveal(segment_received);
    lemma_arrives(s, fabric, ingress, numbered(segment), segment.len() - 12);
}

/// A segment that is too short for a header, or of another version, is counted
/// once and leaves no other trace.
pub proof fn law_bad_segments_are_only_counted<P: Pipeline>(
    s: ShardState,
    program: &P,
    fabric: Fabric,
    segment: Seq<u8>,
    ingress: int,
    now: u32,
)
    requires
        !decodable(segment),
    ensures
        ({
            let after = segment_received(s, program, fabric, segment, ingress, now);
            let global = Counters {
                rx_bad_header: ((s.metrics.global.rx_bad_header + 1)
                    % 0x1_0000_0000_0000_0000) as u64,
                ..s.metrics.global
            };
            after == (ShardState {
                metrics: crate::metrics::MetricsModel { global, ..s.metrics },
                ..s
            })
        }),
{
    reveal(segment_received);
}

/// A frame that the pipeline forwards to a configured vport is the last one
/// staged for that vport, as the pipeline left it. The pipeline was asked about
/// the id of the vport the frame came from, and the header names that id. No
/// other queue is touched and nothing is counted as lost.
pub proof fn law_a_forwarded_frame_is_staged<P: Pipeline>(
    s: ShardState,
    program: &P,
    fabric: Fabric,
    segment: Seq<u8>,
    ingress: int,
    now: u32,
    egress: int,
    out: Seq<u8>,
)
    requires
        matches_fabric(s, fabric),
        0 <= ingress < fabric.vports.len(),
        0 <= egress < fabric.vports.len(),
        decodable(segment),
        segment.len() <= u64::MAX,
        0 <= s.tx_seq[egress] < 0x1_0000_0000,
        P::Engine::decision(program, fabric.vports[ingress].id, carried(segment)) == (
            Verdict::Forward(fabric.vports[egress].id),
            out,
        ),
        out.len() <= fabric.inner_mtu,
        12 + out.len() <= 65535,
    ensures
        ({
            let after = segment_received(s, program, fabric, segment, ingress, now);
            &&& stages(s, after, fabric, egress, fabric.vports[ingress].id, now, out)
            &&& arrives(s, after, ingress, numbered(segment), segment.len() - 12)
            &&& after.metrics.vports[ingress].tx_broadcast
                == s.metrics.vports[ingress].tx_broadcast
            &&& after.metrics.global == s.metrics.global
            &&& after.punt == s.punt
            &&& after.tx.len() == s.tx.len()
            &&& after.tx_seq.len() == s.tx_seq.len()
            &&& forall|i: int|
                0 <= i < s.tx.len() && i != egress ==> (#[trigger] after.tx[i]) == s.tx[i]
            &&& forall|i: int|
                0 <= i < s.tx.len() && i != egress ==> (#[trigger] after.tx_seq[i]) == s.tx_seq[i]
        }),
{
    lemma_shown(s, program, fabric, segment, ingress, now);
    lemma_arrives(s, fabric, ingress, numbered(segment), segment.len() - 12);
    let mid = shown(s, segment, ingress);
    lemma_found_id(fabric.vports, fabric.vports[egress].id, egress);
    lemma_stages(mid, fabric, egress, fabric.vports[ingress].id, now, out);
}

/// A frame that is forwarded to an id no vport has is counted as such, and one
/// that the pipeline drops as a drop of the pipeline's. Either is all that
/// becomes of it.
#[verifier::rlimit(40)]
pub proof fn law_a_frame_without_a_way_out_is_counted<P: Pipeline>(
    s: ShardState,
    program: &P,
    fabric: Fabric,
    segment: Seq<u8>,
    ingress: int,
    now: u32,
)
    requires
        matches_fabric(s, fabric),
        0 <= ingress < fabric.vports.len(),
        decodable(segment),
        segment.len() <= u64::MAX,
    ensures
        ({
            let decision = P::Engine::decision(
                program,
                fabric.vports[ingress].id,
                carried(segment),
            );
            let after = segment_received(s, program, fabric, segment, ingress, now);
            let was = s.metrics.global;
            let is = after.metrics.global;
            let nowhere = decision.0 matches Verdict::Forward(port) && forall|i: int|
                0 <= i < fabric.vports.len() ==> (#[trigger] fabric.vports[i]).id != port;
            let too_long = decision.0 != Verdict::Drop && decision.1.len() > fabric.inner_mtu;
            let lost = too_long || decision.0 == Verdict::Drop || nowhere;
            &&& too_long ==> is == (Counters {
                tx_oversize_drop: ((was.tx_oversize_drop + 1) % 0x1_0000_0000_0000_0000) as u64,
                ..was
            })
            &&& decision.0 == Verdict::Drop ==> is == (Counters {
                engine_drop: ((was.engine_drop + 1) % 0x1_0000_0000_0000_0000) as u64,
                ..was
            })
            &&& nowhere && !too_long ==> is == (Counters {
                tx_unknown_port: ((was.tx_unknown_port + 1) % 0x1_0000_0000_0000_0000) as u64,
                ..was
            })
            &&& lost ==> after.tx == s.tx && after.tx_seq == s.tx_seq && after.outbox == s.outbox
                && after.punt == s.punt && arrives(
                s,
                after,
                ingress,
                numbered(segment),
                segment.len() - 12,
            ) && after.metrics.vports[ingress].tx_broadcast
                == s.metrics.vports[ingress].tx_broadcast
        }),
{
    lemma_shown(s, program, fabric, segment, ingress, now);
    lemma_arrives(s, fabric, ingress, numbered(segment), segment.len() - 12);
    let decision = P::Engine::decision(program, fabric.vports[ingress].id, carried(segment));
    if let Verdict::Forward(port) = decision.0 {
        if forall|i: int| 0 <= i < fabric.vports.len() ==> (#[trigger] fabric.vports[i]).id != port {
            lemma_no_id(fabric.vports, port, fabric.vports.len() as int);
        }
    }
}

/// A punted frame waits for the control channel behind the others, with the id
/// of the vport it came from, the time, and as much of its bytes as a slot
/// holds. Without a queue, or with a full one, it is counted instead.
pub proof fn law_a_punted_frame_waits<P: Pipeline>(
    s: ShardState,
    program: &P,
    fabric: Fabric,
    segment: Seq<u8>,
    ingress: int,
    now: u32,
    out: Seq<u8>,
)
    requires
        matches_fabric(s, fabric),
        0 <= ingress < fabric.vports.len(),
        decodable(segment),
        segment.len() <= u64::MAX,
        P::Engine::decision(program, fabric.vports[ingress].id, carried(segment)) == (
            Verdict::Punt,
            out,
        ),
        out.len() <= fabric.inner_mtu,
        s.punt matches Some(q) ==> q.slot_size >= 0,
    ensures
        ({
            let after = segment_received(s, program, fabric, segment, ingress, now);
            let was = s.metrics.global;
            &&& after.tx == s.tx
            &&& after.tx_seq == s.tx_seq
            &&& after.outbox == s.outbox
            &&& arrives(s, after, ingress, numbered(segment), segment.len() - 12)
            &&& match s.punt {
                None => after.punt is None && after.metrics.global == (Counters {
                    punt_unconfigured_drop: ((was.punt_unconfigured_drop + 1)
                        % 0x1_0000_0000_0000_0000) as u64,
                    ..was
                }),
                Some(q) => if q.frames.len() >= q.capacity {
                    after.punt == s.punt && after.metrics.global == (Counters {
                        punt_overflow_drop: ((was.punt_overflow_drop + 1)
                            % 0x1_0000_0000_0000_0000) as u64,
                        ..was
                    })
                } else {
                    let held = if out.len() <= q.slot_size {
                        out.len() as int
                    } else {
                        q.slot_size
                    };
                    &&& after.metrics.global == was
                    &&& after.punt == Some(
                        PuntState {
                            frames: q.frames.push(
                                PuntModel {
                                    ingress_vport: fabric.vports[ingress].id,
                                    rx_ts_us: now,
                                    bytes: out.subrange(0, held),
                                },
                            ),
                            ..q
                        },
                    )
                },
            }
        }),
{
    lemma_shown(s, program, fabric, segment, ingress, now);
    lemma_arrives(s, fabric, ingress, numbered(segment), segment.len() - 12);
    assert(out.subrange(0, out.len() as int) =~= out);
}

proof fn lemma_fans_out(
    s: ShardState,
    fabric: Fabric,
    frame: Seq<u8>,
    ingress: int,
    now: u32,
    n: int,
)
    requires
        s.tx.len() == fabric.vports.len(),
        s.tx_seq.len() == fabric.vports.len(),
        forall|i: int| 0 <= i < s.tx_seq.len() ==> 0 <= #[trigger] s.tx_seq[i] < 0x1_0000_0000,
        frame.len() <= fabric.inner_mtu,
        12 + frame.len() <= 65535,
        0 <= n <= fabric.vports.len(),
        0 <= ingress < fabric.vports.len(),
    ensures
        ({
            let after = s.fanned_out(fabric, frame, ingress, now, n);
            let from = fabric.vports[ingress].id;
            &&& after.metrics.global == s.metrics.global
            &&& after.metrics.vports == s.metrics.vports
            &&& after.rx_seq == s.rx_seq
            &&& after.punt == s.punt
            &&& after.tx.len() == s.tx.len()
            &&& after.tx_seq.len() == s.tx_seq.len()
            &&& forall|i: int|
                0 <= i < s.tx.len() && (i == ingress || n <= i) ==> (#[trigger] after.tx[i])
                    == s.tx[i]
            &&& forall|i: int|
                0 <= i < s.tx.len() && (i == ingress || n <= i) ==> (#[trigger] after.tx_seq[i])
                    == s.tx_seq[i]
            &&& forall|i: int|
                0 <= i < n && i != ingress ==> ends_with(
                    #[trigger] after.tx[i],
                    from,
                    s.tx_seq[i],
                    now,
                    frame,
                )
            &&& forall|i: int|
                0 <= i < n && i != ingress ==> (#[trigger] after.tx_seq[i]) == (s.tx_seq[i] + 1)
                    % 0x1_0000_0000
        }),
    decreases n,
{
    if n > 0 {
        lemma_fans_out(s, fabric, frame, ingress, now, n - 1);
        let before = s.fanned_out(fabric, frame, ingress, now, n - 1);
        if n - 1 != ingress {
            lemma_stages(before, fabric, n - 1, fabric.vports[ingress].id, now, frame);
        }
    }
}

/// A flooded frame is the last one staged for every vport but the one it came
/// from, whose queue is not touched, and counts there as one broadcast. Nothing
/// is counted as lost.
#[verifier::rlimit(40)]
pub proof fn law_a_flooded_frame_is_staged_for_the_others<P: Pipeline>(
    s: ShardState,
    program: &P,
    fabric: Fabric,
    segment: Seq<u8>,
    ingress: int,
    now: u32,
    out: Seq<u8>,
    i: int,
)
    requires
        matches_fabric(s, fabric),
        0 <= ingress < fabric.vports.len(),
        decodable(segment),
        segment.len() <= u64::MAX,
        forall|k: int| 0 <= k < s.tx_seq.len() ==> 0 <= #[trigger] s.tx_seq[k] < 0x1_0000_0000,
        P::Engine::decision(program, fabric.vports[ingress].id, carried(segment)) == (
            Verdict::Broadcast,
            out,
        ),
        out.len() <= fabric.inner_mtu,
        12 + out.len() <= 65535,
        0 <= i < fabric.vports.len(),
    ensures
        ({
            let after = segment_received(s, program, fabric, segment, ingress, now);
            &&& i != ingress ==> ends_with(
                after.tx[i],
                fabric.vports[ingress].id,
                s.tx_seq[i],
                now,
                out,
            )
            &&& i != ingress ==> after.tx_seq[i] == (s.tx_seq[i] + 1) % 0x1_0000_0000
            &&& after.tx[ingress] == s.tx[ingress]
            &&& after.tx_seq[ingress] == s.tx_seq[ingress]
            &&& arrives(s, after, ingress, numbered(segment), segment.len() - 12)
            &&& after.metrics.vports[ingress].tx_broadcast == (
            s.metrics.vports[ingress].tx_broadcast + 1) % 0x1_0000_0000_0000_0000
            &&& after.metrics.global == s.metrics.global
            &&& after.punt == s.punt
        }),
{
    lemma_shown(s, program, fabric, segment, ingress, now);
    lemma_arrives(s, fabric, ingress, numbered(segment), segment.len() - 12);
    let mid = shown(s, segment, ingress).vport_counted(ingress, VportCounter::TxBroadcast, 1);
    lemma_fans_out(mid, fabric, out, ingress, now, fabric.vports.len() as int);
    let after = segment_received(s, program, fabric, segment, ingress, now);
    assert(after.metrics.vports == mid.metrics.vports);
}

/// Two ends of a wire: under the null pipeline, a frame of legal length from
/// the peer of one vport is afterwards the last one staged for the vport that
/// follows in the configuration, unchanged, and no drop is counted.
pub proof fn law_the_null_pipeline_wires_vports(
    s: ShardState,
    program: &NullPipeline,
    vports: Seq<u16>,
    fabric: Fabric,
    segment: Seq<u8>,
    ingress: int,
    now: u32,
)
    requires
        matches_fabric(s, fabric),
        vports.len() == fabric.vports.len(),
        forall|i: int| 0 <= i < vports.len() ==> (#[trigger] vports[i]) == fabric.vports[i].id,
        forall|id: u16| #[trigger]
            program.egress_of(id) == crate::programs::null::successor(
                vports,
                id,
                vports.len() as int,
            ),
        0 <= ingress < fabric.vports.len(),
        decodable(segment),
        segment.len() <= 65535,
        segment.len() - 12 <= fabric.inner_mtu,
        forall|k: int| 0 <= k < s.tx_seq.len() ==> 0 <= #[trigger] s.tx_seq[k] < 0x1_0000_0000,
    ensures
        ({
            let after = segment_received(s, program, fabric, segment, ingress, now);
            let egress = if ingress + 1 < fabric.vports.len() {
                ingress + 1
            } else {
                0
            };
            &&& ends_with(
                after.tx[egress],
                fabric.vports[ingress].id,
                s.tx_seq[egress],
                now,
                segment.subrange(12, segment.len() as int),
            )
            &&& after.metrics.global == s.metrics.global
            &&& forall|i: int|
                0 <= i < s.tx.len() && i != egress ==> (#[trigger] after.tx[i]) == s.tx[i]
        }),
{
    let egress = if ingress + 1 < fabric.vports.len() {
        ingress + 1
    } else {
        0
    };
    assert(0 <= egress < fabric.vports.len());
    assert(vports[egress] == fabric.vports[egress].id);
    assert forall|i: int, j: int| 0 <= i < j < vports.len() implies (#[trigger] vports[i]) != (
    #[trigger] vports[j]) by {
        assert(fabric.vports[i].id != fabric.vports[j].id);
    }
    crate::programs::null::law_frames_go_to_the_next_vport(vports, ingress);
    assert(program.egress_of(vports[ingress]) == Some(vports[egress]));
    assert(NullEngine::decision(program, fabric.vports[ingress].id, carried(segment)) == (
        Verdict::Forward(fabric.vports[egress].id),
        carried(segment),
    ));
    law_a_forwarded_frame_is_staged(
        s,
        program,
        fabric,
        segment,
        ingress,
        now,
        egress,
        carried(segment),
    );
}

/// `s` with other observations of how many segments a read holds.
pub open spec fn observing(s: ShardState, reads: Seq<u64>) -> ShardState {
    ShardState {
        metrics: crate::metrics::MetricsModel { gro_segments_per_read: reads, ..s.metrics },
        ..s
    }
}

proof fn lemma_observing_fanned_out(
    s: ShardState,
    reads: Seq<u64>,
    fabric: Fabric,
    frame: Seq<u8>,
    ingress: int,
    now: u32,
    n: int,
)
    ensures
        observing(s, reads).fanned_out(fabric, frame, ingress, now, n) == observing(
            s.fanned_out(fabric, frame, ingress, now, n),
            reads,
        ),
    decreases n,
{
    if n > 0 {
        lemma_observing_fanned_out(s, reads, fabric, frame, ingress, now, n - 1);
    }
}

proof fn lemma_observing_segment<P: Pipeline>(
    s: ShardState,
    reads: Seq<u64>,
    program: &P,
    fabric: Fabric,
    segment: Seq<u8>,
    ingress: int,
    now: u32,
)
    ensures
        segment_received(observing(s, reads), program, fabric, segment, ingress, now) == observing(
            segment_received(s, program, fabric, segment, ingress, now),
            reads,
        ),
{
    reveal(segment_received);
    if decodable(segment) {
        let frame = carried(segment);
        let number = crate::bytes::be32(segment, 4);
        let a = s.accepted(ingress, number, frame.len() as int);
        let b = observing(s, reads).accepted(ingress, number, frame.len() as int);
        assert(b == observing(a, reads));
        let decision = P::Engine::decision(program, fabric.vports[ingress].id, frame);
        let n = fabric.vports.len() as int;
        let c = a.vport_counted(ingress, VportCounter::TxBroadcast, 1);
        assert(b.vport_counted(ingress, VportCounter::TxBroadcast, 1) == observing(c, reads));
        lemma_observing_fanned_out(c, reads, fabric, decision.1, ingress, now, n);
    }
}

proof fn lemma_observing_segments<P: Pipeline>(
    s: ShardState,
    reads: Seq<u64>,
    program: &P,
    fabric: Fabric,
    payload: Seq<u8>,
    stride: int,
    ingress: int,
    now: u32,
    n: int,
)
    ensures
        segments_received(
            observing(s, reads),
            program,
            fabric,
            payload,
            stride,
            ingress,
            now,
            n,
        ) == observing(
            segments_received(s, program, fabric, payload, stride, ingress, now, n),
            reads,
        ),
    decreases n,
{
    if n > 0 {
        lemma_observing_segments(s, reads, program, fabric, payload, stride, ingress, now, n - 1);
        lemma_observing_segment(
            segments_received(s, program, fabric, payload, stride, ingress, now, n - 1),
            reads,
            program,
            fabric,
            segment_of(payload, stride, n - 1),
            ingress,
            now,
        );
    }
}

proof fn lemma_first_segment<P: Pipeline>(
    s: ShardState,
    program: &P,
    fabric: Fabric,
    payload: Seq<u8>,
    stride: int,
    ingress: int,
    now: u32,
    n: int,
)
    requires
        0 < stride < payload.len(),
        1 <= n <= pieces(payload.len() as int, stride),
    ensures
        segments_received(s, program, fabric, payload, stride, ingress, now, n)
            == segments_received(
            segment_received(s, program, fabric, payload.subrange(0, stride), ingress, now),
            program,
            fabric,
            payload.subrange(stride, payload.len() as int),
            stride,
            ingress,
            now,
            n - 1,
        ),
    decreases n,
{
    let rest = payload.subrange(stride, payload.len() as int);
    let len = payload.len() as int;
    lemma_next_segment(len, stride, n - 1);
    if n == 1 {
        vstd::arithmetic::mul::lemma_mul_basics(stride);
        assert(segment_start(stride, 0) == 0);
        assert(segment_of(payload, stride, 0) =~= payload.subrange(0, stride));
        let none = segments_received(s, program, fabric, payload, stride, ingress, now, 0);
        assert(none == s);
        reveal_with_fuel(segments_received, 2);
    } else {
        lemma_first_segment(s, program, fabric, payload, stride, ingress, now, n - 1);
        lemma_next_segment(len, stride, n - 2);
        assert(segment_start(stride, n - 1) == segment_start(stride, n - 2) + stride);
        assert(segment_of(payload, stride, n - 1) =~= segment_of(rest, stride, n - 2));
    }
}

proof fn lemma_pieces_of_the_rest(len: int, stride: int)
    requires
        0 < stride < len,
    ensures
        pieces(len - stride, stride) == pieces(len, stride) - 1,
        pieces(stride, stride) == 1,
        1 <= pieces(len - stride, stride),
{
    lemma_segments(len - stride, stride);
    reveal(pieces);
    let a = len - stride + stride - 1;
    assert((a + stride) / stride == a / stride + 1) by (nonlinear_arith)
        requires
            stride > 0,
    ;
    vstd::arithmetic::div_mod::lemma_fundamental_div_mod_converse(
        stride + stride - 1,
        stride,
        1,
        stride - 1,
    );
}

/// A coalesced read is its segments: a read of several leaves what reading the
/// first `stride` bytes by themselves and then the rest leaves, except that it
/// is observed as one read. So every segment is processed, in the order of
/// arrival, and a shorter last one too.
#[verifier::rlimit(40)]
pub proof fn law_a_coalesced_read_is_its_segments<P: Pipeline>(
    s: ShardState,
    program: &P,
    fabric: Fabric,
    payload: Seq<u8>,
    read: Read,
    first: Read,
    rest: Read,
    now: u32,
)
    requires
        payload.len() == read.len,
        0 < read.stride < read.len,
        first.len == read.stride,
        first.stride == 0,
        first.from == read.from,
        rest.len == read.len - read.stride,
        rest.stride == read.stride,
        rest.from == read.from,
    ensures
        ({
            let whole = received(s, program, fabric, payload, read, now);
            let front = received(
                s,
                program,
                fabric,
                payload.subrange(0, read.stride as int),
                first,
                now,
            );
            let both = received(
                front,
                program,
                fabric,
                payload.subrange(read.stride as int, read.len as int),
                rest,
                now,
            );
            whole == observing(both, whole.metrics.gro_segments_per_read)
        }),
{
    let stride = read.stride as int;
    let len = read.len as int;
    let n = pieces(len, stride);
    lemma_pieces_of_the_rest(len, stride);
    lemma_segments(len, stride);
    lemma_segments(len - stride, stride);
    let head = payload.subrange(0, stride);
    let tail = payload.subrange(stride, len);
    let peer = crate::config::vport::last_with_peer(
        fabric.vports,
        read.from,
        fabric.vports.len() as int,
    );
    let whole = received(s, program, fabric, payload, read, now);
    let front = received(s, program, fabric, head, first, now);
    let both = received(front, program, fabric, tail, rest, now);
    let h = s.metrics.recorded(Hist::GroSegmentsPerRead, n).gro_segments_per_read;
    let h1 = s.metrics.recorded(Hist::GroSegmentsPerRead, 1).gro_segments_per_read;
    match peer {
        None => {
            assert(n as u64 == n && (n - 1) as u64 == n - 1);
            let c = s.metrics.global.rx_unknown_peer;
            assert((c + n) % 0x1_0000_0000_0000_0000 == ((c + 1) % 0x1_0000_0000_0000_0000 + (n - 1))
                % 0x1_0000_0000_0000_0000);
            assert(whole.metrics.global == both.metrics.global);
            assert(whole =~= observing(both, whole.metrics.gro_segments_per_read));
        },
        Some(ingress) => {
            vstd::arithmetic::mul::lemma_mul_basics(stride);
        assert(segment_start(stride, 0) == 0);
            assert(segment_of(head, stride, 0) =~= head);
            reveal_with_fuel(segments_received, 2);
            assert(front == segment_received(
                observing(s, h1),
                program,
                fabric,
                head,
                ingress,
                now,
            ));
            lemma_observing_segment(s, h1, program, fabric, head, ingress, now);
            lemma_first_segment(
                observing(s, h),
                program,
                fabric,
                payload,
                stride,
                ingress,
                now,
                n,
            );
            let one = segment_received(s, program, fabric, head, ingress, now);
            lemma_observing_segment(s, h, program, fabric, head, ingress, now);
            lemma_observing_segments(one, h, program, fabric, tail, stride, ingress, now, n - 1);
            let h2 = front.metrics.recorded(
                Hist::GroSegmentsPerRead,
                n - 1,
            ).gro_segments_per_read;
            assert(observing(front, h2) == observing(one, h2));
            lemma_observing_segments(one, h2, program, fabric, tail, stride, ingress, now, n - 1);
            let end = segments_received(
                one,
                program,
                fabric,
                tail,
                stride,
                ingress,
                now,
                n - 1,
            );
            assert(whole == observing(end, h));
            assert(both == observing(end, h2));
        },
    }
}

/// A read of one segment is that segment from the vport whose peer sent it,
/// observed as one read of one. A read from any other address is counted, and
/// an empty one is nothing at all.
pub proof fn law_a_read_comes_from_the_vport_of_its_peer<P: Pipeline>(
    s: ShardState,
    program: &P,
    fabric: Fabric,
    payload: Seq<u8>,
    read: Read,
    now: u32,
    ingress: int,
)
    requires
        distinct(fabric.vports),
        payload.len() == read.len,
        read.stride == 0 || read.stride >= read.len,
        s.metrics.gro_segments_per_read.len() == 8,
    ensures
        ({
            let after = received(s, program, fabric, payload, read, now);
            let reads = s.metrics.gro_segments_per_read;
            let observed = observing(
                s,
                reads.update(0, ((reads[0] + 1) % 0x1_0000_0000_0000_0000) as u64),
            );
            let was = s.metrics.global;
            &&& read.len == 0 ==> after == s
            &&& read.len > 0 && 0 <= ingress < fabric.vports.len() && fabric.vports[ingress].peer
                == read.from ==> after == segment_received(
                observed,
                program,
                fabric,
                payload,
                ingress,
                now,
            )
            &&& read.len > 0 && (forall|i: int|
                0 <= i < fabric.vports.len() ==> (#[trigger] fabric.vports[i]).peer != read.from)
                ==> after == (ShardState {
                metrics: crate::metrics::MetricsModel {
                    global: Counters {
                        rx_unknown_peer: ((was.rx_unknown_peer + 1)
                            % 0x1_0000_0000_0000_0000) as u64,
                        ..was
                    },
                    ..observed.metrics
                },
                ..s
            })
        }),
{
    let len = read.len as int;
    let stride = if read.stride == 0 {
        len
    } else {
        read.stride as int
    };
    if len > 0 {
        reveal(pieces);
        vstd::arithmetic::div_mod::lemma_fundamental_div_mod_converse(
            len + stride - 1,
            stride,
            1,
            len - 1,
        );
        assert(pieces(len, stride) == 1);
        vstd::arithmetic::mul::lemma_mul_basics(stride);
        assert(segment_start(stride, 0) == 0);
        assert(segment_of(payload, stride, 0) =~= payload);
        reveal_with_fuel(segments_received, 2);
        if 0 <= ingress < fabric.vports.len() && fabric.vports[ingress].peer == read.from {
            lemma_found_peer(fabric.vports, read.from, ingress);
        }
        if forall|i: int|
            0 <= i < fabric.vports.len() ==> (#[trigger] fabric.vports[i]).peer != read.from {
            lemma_no_peer(fabric.vports, read.from, fabric.vports.len() as int);
        }
    }
}

/// A read is observed once, under the number of segments it holds: so many
/// strides as it takes to cover it.
pub proof fn law_a_read_is_observed_once<P: Pipeline>(
    s: ShardState,
    program: &P,
    fabric: Fabric,
    payload: Seq<u8>,
    read: Read,
    now: u32,
    n: int,
)
    requires
        read.len > 0,
        read.stride > 0,
        (n - 1) * read.stride < read.len <= n * read.stride,
    ensures
        received(s, program, fabric, payload, read, now).metrics.gro_segments_per_read
            == crate::metrics::recorded(s.metrics.gro_segments_per_read, n),
{
    let len = read.len as int;
    let stride = read.stride as int;
    reveal(pieces);
    let r = len + stride - 1 - n * stride;
    assert(0 <= r < stride) by (nonlinear_arith)
        requires
            r == len + stride - 1 - n * stride,
            (n - 1) * stride < len <= n * stride,
    ;
    vstd::arithmetic::div_mod::lemma_fundamental_div_mod_converse(len + stride - 1, stride, n, r);
    let h = crate::metrics::recorded(s.metrics.gro_segments_per_read, n);
    let peer = crate::config::vport::last_with_peer(
        fabric.vports,
        read.from,
        fabric.vports.len() as int,
    );
    if let Some(ingress) = peer {
        lemma_observing_segments(s, h, program, fabric, payload, stride, ingress, now, n);
    }
}

/// What is staged for a vport leaves in one batch, to the peer of that vport,
/// and the queue is empty afterwards. Where nothing is staged, nothing happens.
pub proof fn law_flushing_sends_what_is_staged(s: ShardState, fabric: Fabric, egress: int)
    requires
        0 <= egress < s.tx.len(),
    ensures
        ({
            let after = s.flushed(fabric, egress);
            let n = s.tx[egress].lens.len() as int;
            &&& n == 0 ==> after == s
            &&& n > 0 ==> after.tx[egress].lens.len() == 0 && after.tx[egress].bytes.len() == 0
            &&& n > 0 ==> after.outbox == s.outbox.push(
                BatchModel {
                    egress,
                    destination: fabric.vports[egress].peer,
                    queue: s.tx[egress],
                },
            )
            &&& n > 0 ==> after.metrics == (crate::metrics::MetricsModel {
                tx_batch_size: crate::metrics::recorded(s.metrics.tx_batch_size, n),
                ..s.metrics
            })
            &&& after.tx.len() == s.tx.len()
            &&& forall|i: int|
                0 <= i < s.tx.len() && i != egress ==> (#[trigger] after.tx[i]) == s.tx[i]
            &&& after.tx_seq == s.tx_seq
            &&& after.rx_seq == s.rx_seq
            &&& after.punt == s.punt
        }),
{
}

/// Flushing every destination leaves nothing staged, and sends one batch for
/// each destination that had something.
pub proof fn law_flushing_all_leaves_nothing_staged(s: ShardState, fabric: Fabric, n: int, i: int)
    requires
        0 <= n <= s.tx.len(),
        0 <= i < s.tx.len(),
    ensures
        ({
            let after = s.all_flushed(fabric, n);
            &&& after.tx.len() == s.tx.len()
            &&& i < n ==> after.tx[i].lens.len() == 0
            &&& i >= n ==> after.tx[i] == s.tx[i]
            &&& after.outbox.len() >= s.outbox.len()
            &&& after.outbox.subrange(0, s.outbox.len() as int) == s.outbox
            &&& i < n && s.tx[i].lens.len() > 0 ==> after.outbox.contains(
                BatchModel { egress: i, destination: fabric.vports[i].peer, queue: s.tx[i] },
            )
            &&& after.tx_seq == s.tx_seq
            &&& after.rx_seq == s.rx_seq
            &&& after.punt == s.punt
            &&& after.metrics.global == s.metrics.global
            &&& after.metrics.vports == s.metrics.vports
        }),
    decreases n,
{
    if n > 0 {
        law_flushing_all_leaves_nothing_staged(s, fabric, n - 1, i);
        law_flushing_all_leaves_nothing_staged(s, fabric, n - 1, n - 1);
        let before = s.all_flushed(fabric, n - 1);
        let after = s.all_flushed(fabric, n);
        assert(after.outbox.subrange(0, s.outbox.len() as int) =~= before.outbox.subrange(
            0,
            s.outbox.len() as int,
        ));
        let batch = BatchModel {
            egress: i,
            destination: fabric.vports[i].peer,
            queue: s.tx[i],
        };
        if i < n && s.tx[i].lens.len() > 0 {
            if i == n - 1 {
                assert(after.outbox[before.outbox.len() as int] == batch);
            } else {
                let k = choose|k: int|
                    0 <= k < before.outbox.len() && before.outbox[k] == batch;
                assert(after.outbox[k] == batch);
            }
        }
    } else {
        assert(s.outbox.subrange(0, s.outbox.len() as int) =~= s.outbox);
    }
}

/// A shard starts with nothing: nothing staged, nothing to send, every number
/// at zero and no number expected.
pub proof fn law_shards_start_empty(n: nat, metrics: crate::metrics::MetricsModel, i: int)
    requires
        0 <= i < n,
    ensures
        ({
            let s = ShardState::fresh(n, metrics, None);
            &&& s.tx.len() == n && s.tx_seq.len() == n && s.rx_seq.len() == n
            &&& s.tx[i].lens.len() == 0 && s.tx[i].bytes.len() == 0
            &&& s.tx_seq[i] == 0
            &&& s.rx_seq[i] is None
            &&& s.outbox.len() == 0
            &&& s.metrics == metrics
            &&& s.punt is None
        }),
{
}

} // verus!
