//! The receive/transmit path, driven the way the fabric drives it: by handing
//! a shard overlay segments. The engine is the null oracle, so a mismatch here
//! is the harness's fault and not a pipeline's.
use std::sync::Arc;
use up4::config::raw::{RawAddr, RawConfig, RawNode, RawVport};
use up4::config::vport::{VportIdx, VportTable};
use up4::config::Config;
use up4::engine::PipelineParams;
use up4::frame::MIN_HEADROOM;
use up4::metrics::{Counter, Metrics, VportCounter};
use up4::net::SocketAddr;
use up4::programs::l2fwd::L2Fwd;
use up4::programs::null::NullPipeline;
use up4::punt::PuntQueue;
use up4::seq::SeqNum;
use up4::rx::RxArena;
use up4::shard::{advertised, after_send, AfterSend, Node, Read, Shard, ShardParams};
use up4::socket::{Failure, SocketCaps, HEADROOM};
use up4::wire::{decode, encode, Hdr, INNER_MTU_V4, OVERLAY_HDR_LEN};

const INNER_MTU: usize = INNER_MTU_V4;

const A: SocketAddr = SocketAddr::V4 { ip: 0x7f00_0001, port: 2 };
const B: SocketAddr = SocketAddr::V4 { ip: 0x7f00_0001, port: 3 };
const STRANGER: SocketAddr = SocketAddr::V4 { ip: 0x7f00_0001, port: 9 };

fn raw(addr: SocketAddr) -> RawAddr {
    RawAddr { text: format!("{addr:?}"), addr: Some(addr), shown: format!("{addr:?}") }
}

fn topology() -> VportTable {
    let file = RawConfig {
        node: RawNode {
            id: "t".into(),
            bind: raw(SocketAddr::V4 { ip: 0x7f00_0001, port: 1 }),
            fabric: "ipv4".into(),
            pipeline: "null".into(),
            threads: 1,
            pin_cores: None,
            ctl_socket: "/tmp/up4-test.sock".into(),
            metrics_interval_s: 5,
        },
        vport: vec![RawVport { id: 0, peer: raw(A) }, RawVport { id: 1, peer: raw(B) }],
        punt: None,
    };
    Config::from_parsed(Ok(file), &["null"]).expect("fixture config is valid").vports
}

fn caps(max_gso_segments: usize) -> SocketCaps {
    SocketCaps {
        rcvbuf: 1,
        sndbuf: 1,
        gro_segments: 64,
        max_gso_segments,
        may_fragment: false,
        reuse_port: false,
    }
}

/// Two vports with the null oracle wired between them (0 -> 1, 1 -> 0).
struct Fixture {
    shard: Shard<NullPipeline>,
    program: NullPipeline,
    node: Node,
    topology: Arc<VportTable>,
    seq: u32,
    delivered: Vec<(SocketAddr, Vec<u8>)>,
}

impl Fixture {
    fn start() -> Self {
        let topology = Arc::new(topology());
        let program = NullPipeline::new(&PipelineParams::new(vec![0, 1]));
        let params = ShardParams {
            id: 0,
            topology: Arc::clone(&topology),
            inner_mtu: INNER_MTU,
            caps: caps(64),
        };
        Self {
            shard: Shard::new(&program, params),
            program,
            node: Node {
                metrics: Metrics::new("t", &topology),
                punt: Some(PuntQueue::new(INNER_MTU)),
            },
            topology,
            seq: 0,
            delivered: Vec::new(),
        }
    }

    fn vport(&self, id: u16) -> VportIdx {
        self.topology.idx_of_id(id).expect("configured vport")
    }

    fn get(&self, id: u16, c: VportCounter) -> u64 {
        self.node.metrics.vport(self.vport(id)).get(c)
    }

    fn raw(&mut self, from: SocketAddr, bytes: &[u8], stride: usize) {
        let mut slot = vec![0u8; HEADROOM + bytes.len()];
        slot[HEADROOM..].copy_from_slice(bytes);
        let read = Read { len: bytes.len(), stride, from };
        self.shard.receive(&mut self.node, &self.program, &mut slot, read, 1_000);
        self.shard.flush_all(&mut self.node);
        for batch in self.shard.take_outbox() {
            for run in batch.runs() {
                let segment = advertised(run).unwrap_or(run.end - run.start);
                for part in batch.bytes()[run.start..run.end].chunks(segment) {
                    self.delivered.push((batch.destination(), part.to_vec()));
                }
            }
            let sent = vec![true; batch.runs().len()];
            self.shard.settle(&mut self.node, batch, &sent);
        }
    }

    /// Send `count` segments of `frame` from `from`, as one coalesced read.
    fn send(&mut self, from: SocketAddr, frame: &[u8], count: usize) {
        let mut buf = Vec::new();
        for _ in 0..count {
            let mut hdr = [0u8; OVERLAY_HDR_LEN];
            encode(
                &Hdr { ingress_vport: 0, seq: SeqNum::new(self.seq), ts_us: 0 },
                &mut hdr,
            );
            self.seq += 1;
            buf.extend_from_slice(&hdr);
            buf.extend_from_slice(frame);
        }
        let stride = OVERLAY_HDR_LEN + frame.len();
        self.raw(from, &buf, stride);
    }

    fn frames(&self) -> Vec<Vec<u8>> {
        self.delivered.iter().map(|(_, s)| s[OVERLAY_HDR_LEN..].to_vec()).collect()
    }
}

fn frame(len: usize, tag: u8) -> Vec<u8> {
    let mut f = vec![tag; len];
    f[0..6].copy_from_slice(&[0xaa, 0xbb, 0xcc, 0xdd, 0xee, tag]);
    f
}

#[test]
fn a_frame_arrives_on_the_other_vport_unchanged() {
    let mut fx = Fixture::start();
    let sent = frame(64, 1);
    fx.send(A, &sent, 1);
    assert_eq!(fx.frames(), vec![sent], "the oracle forwards 0 -> 1 byte for byte");
    assert_eq!(fx.delivered[0].0, B);
    assert_eq!(fx.node.metrics.harness_drops(), 0, "a clean path drops nothing");
    assert_eq!(fx.get(0, VportCounter::RxPkts), 1);
    assert_eq!(fx.get(0, VportCounter::RxBytes), 64);
    assert_eq!(fx.get(1, VportCounter::TxPkts), 1);
    assert_eq!(fx.get(1, VportCounter::TxBytes), 64);
}

#[test]
fn a_batch_of_segments_survives_the_round_trip() {
    let mut fx = Fixture::start();
    let sent = frame(512, 7);
    fx.send(A, &sent, 16);
    assert_eq!(fx.frames().len(), 16, "every segment is forwarded, coalesced or not");
    assert!(fx.frames().iter().all(|f| *f == sent));
    assert_eq!(fx.node.metrics.harness_drops(), 0);
    assert_eq!(fx.get(0, VportCounter::RxPkts), 16);
    assert_eq!(fx.get(1, VportCounter::TxPkts), 16);
}

#[test]
fn a_maximum_size_frame_is_forwarded() {
    let mut fx = Fixture::start();
    let sent = frame(INNER_MTU, 3);
    fx.send(A, &sent, 1);
    assert_eq!(fx.frames(), vec![sent]);
    assert_eq!(fx.node.metrics.harness_drops(), 0);
}

#[test]
fn a_frame_beyond_the_fabric_is_counted_and_dropped() {
    let mut fx = Fixture::start();
    fx.send(A, &frame(INNER_MTU + 1, 3), 1);
    assert!(fx.delivered.is_empty());
    assert_eq!(fx.node.metrics.get(Counter::TxOversizeDrop), 1);
}

#[test]
fn an_unconfigured_peer_is_counted_and_dropped() {
    let mut fx = Fixture::start();
    fx.send(STRANGER, &frame(64, 9), 1);
    fx.send(A, &frame(64, 1), 1);
    assert_eq!(fx.frames(), vec![frame(64, 1)]);
    assert_eq!(fx.node.metrics.get(Counter::RxUnknownPeer), 1);
    assert_eq!(fx.node.metrics.get(Counter::RxBadHeader), 0);
}

#[test]
fn an_undecodable_segment_is_counted_and_dropped() {
    let mut fx = Fixture::start();
    fx.raw(A, &[0xf0; OVERLAY_HDR_LEN + 4], 0); // wrong version
    fx.raw(A, &[0x10; OVERLAY_HDR_LEN - 1], 0); // short buffer
    fx.send(A, &frame(64, 1), 1);
    assert_eq!(fx.frames().len(), 1, "a good frame still gets through");
    assert_eq!(fx.node.metrics.get(Counter::RxBadHeader), 2);
    assert_eq!(fx.get(0, VportCounter::RxPkts), 1);
}

#[test]
fn sequence_gaps_and_reorder_are_recorded_without_buffering() {
    let mut fx = Fixture::start();
    fx.seq = 0;
    fx.send(A, &frame(64, 1), 1); // seq 0
    fx.seq = 5;
    fx.send(A, &frame(64, 2), 1); // seq 5: four missing
    fx.seq = 1;
    fx.send(A, &frame(64, 3), 1); // seq 1: late
    assert_eq!(fx.frames().len(), 3, "recording loss never means dropping frames");
    assert_eq!(fx.get(0, VportCounter::RxSeqGapTotal), 4);
    assert_eq!(fx.get(0, VportCounter::RxReorder), 1);
    assert_eq!(fx.node.metrics.harness_drops(), 0, "loss on the wire is not a harness drop");
}

#[test]
fn the_shard_stamps_its_own_sequence_per_destination() {
    let mut fx = Fixture::start();
    fx.seq = 900;
    for tag in 0..3 {
        fx.send(A, &frame(64, tag), 1);
    }
    assert_eq!(fx.frames().len(), 3);
    assert_eq!(fx.get(1, VportCounter::TxPkts), 3);
    let seqs: Vec<u32> = fx
        .delivered
        .iter()
        .map(|(_, s)| decode(s).expect("stamped").seq.get())
        .collect();
    assert_eq!(seqs, vec![0, 1, 2]);
}

#[test]
fn the_headroom_promise_holds_for_every_segment_of_a_read() {
    // The oracle does not encapsulate, so this checks the arithmetic the
    // datapath relies on: segment k of a coalesced read begins at
    // HEADROOM + k*stride + 12, all of which precedes it and is already spent.
    let stride = OVERLAY_HDR_LEN + INNER_MTU;
    for k in 0..64 {
        let headroom = HEADROOM + k * stride + OVERLAY_HDR_LEN;
        assert!(headroom >= MIN_HEADROOM, "segment {k}");
    }
}

#[test]
fn punt_is_not_reached_by_a_forwarding_oracle() {
    let mut fx = Fixture::start();
    fx.send(A, &frame(64, 1), 1);
    assert!(fx.node.punt.as_ref().expect("configured").is_empty());
    assert_eq!(fx.node.metrics.get(Counter::PuntOverflowDrop), 0);
    assert_eq!(fx.node.metrics.get(Counter::PuntUnconfiguredDrop), 0);
}

#[test]
fn a_broadcast_skips_the_port_it_came_from() {
    let topology = Arc::new(topology());
    let program = L2Fwd::new(&PipelineParams::new(vec![0, 1]));
    let params = ShardParams {
        id: 3,
        topology: Arc::clone(&topology),
        inner_mtu: INNER_MTU,
        caps: caps(1),
    };
    let mut shard: Shard<L2Fwd> = Shard::new(&program, params);
    assert_eq!(shard.id(), 3);
    assert!(shard.slot_len() > HEADROOM);
    let mut node = Node { metrics: Metrics::new("t", &topology), punt: None };
    let mut slot = vec![0u8; HEADROOM + OVERLAY_HDR_LEN + 64];
    let mut hdr = [0u8; OVERLAY_HDR_LEN];
    encode(&Hdr { ingress_vport: 0, seq: SeqNum::new(0), ts_us: 0 }, &mut hdr);
    slot[HEADROOM..HEADROOM + OVERLAY_HDR_LEN].copy_from_slice(&hdr);
    let read = Read { len: OVERLAY_HDR_LEN + 64, stride: 0, from: B };
    shard.receive(&mut node, &program, &mut slot, read, 7);
    shard.flush_all(&mut node);
    let out = shard.take_outbox();
    assert_eq!(out.len(), 1);
    assert_eq!(out[0].destination(), A);
    let from_b = topology.idx_of_id(1).expect("configured");
    assert_eq!(node.metrics.vport(from_b).get(VportCounter::TxBroadcast), 1);
}

#[test]
fn a_blocked_send_is_retried_once() {
    let mut m = Metrics::new("t", &topology());
    assert_eq!(after_send(&mut m, false, Err(Failure::WouldBlock)), AfterSend::Retry);
    assert_eq!(after_send(&mut m, true, Err(Failure::WouldBlock)), AfterSend::Done(false));
    assert_eq!(after_send(&mut m, false, Err(Failure::Other)), AfterSend::Done(false));
    assert_eq!(after_send(&mut m, true, Ok(())), AfterSend::Done(true));
    assert_eq!(m.get(Counter::TxWouldBlock), 1);
    assert_eq!(m.get(Counter::TxSendError), 1);
    assert_eq!(m.get(Counter::SyscallsTx), 1);
}

#[test]
fn receive_buffers_do_not_overlap() {
    let mut arena = RxArena::new(3, 80);
    assert_eq!(arena.len(), 3);
    assert!(!arena.is_empty());
    assert_eq!(arena.slot_len(), 80);
    assert_eq!(arena.slots_mut().len(), 240);

    arena.slot_mut(1).fill(7);
    assert_eq!(arena.slot_mut(1).len(), 80);
    assert!(arena.slot_mut(1).iter().all(|b| *b == 7));
    assert!(arena.slot_mut(0).iter().all(|b| *b == 0));
    assert!(arena.slot_mut(2).iter().all(|b| *b == 0));
    assert_eq!(arena.slots_mut()[79], 0);
    assert_eq!(arena.slots_mut()[80], 7);
    assert_eq!(arena.slots_mut()[159], 7);
    assert_eq!(arena.slots_mut()[160], 0);

    assert!(RxArena::new(0, 80).is_empty());
}

#[test]
fn every_frame_is_in_hand_or_counted() {
    let mut fx = Fixture::start();
    let long = frame(INNER_MTU + 1, 1);
    let short = frame(64, 2);
    fx.send(A, &short, 3);
    fx.send(A, &long, 2);
    fx.send(B, &short, 4);
    let lost = fx.node.metrics.get(Counter::TxOversizeDrop)
        + fx.node.metrics.get(Counter::EngineDrop)
        + fx.node.metrics.get(Counter::TxUnknownPort);
    assert_eq!(fx.delivered.len(), 7);
    assert_eq!(lost, 2);
    let received = fx.get(0, VportCounter::RxPkts) + fx.get(1, VportCounter::RxPkts);
    assert_eq!(received, 9);
}

#[test]
fn a_read_from_a_stranger_leaves_the_slot_alone() {
    let mut fx = Fixture::start();
    let mut slot: Vec<u8> = (0..200u8).collect();
    let before = slot.clone();
    let read = Read { len: 100, stride: 40, from: STRANGER };
    fx.shard.receive(&mut fx.node, &fx.program, &mut slot, read, 1_000);
    assert_eq!(slot, before);
    assert_eq!(fx.node.metrics.get(Counter::RxUnknownPeer), 3);
    let empty = Read { len: 0, stride: 0, from: A };
    fx.shard.receive(&mut fx.node, &fx.program, &mut slot, empty, 1_000);
    assert_eq!(slot, before);
    assert_eq!(fx.get(0, VportCounter::RxPkts), 0);
}
