//! Command handling.
use std::sync::Arc;
use up4::b64;
use up4::config::raw::{RawAddr, RawConfig, RawNode, RawPunt, RawVport};
use up4::config::Config;
use up4::ctl::protocol::{EntrySpec, NodeFacts, Params, Request, Response};
use up4::ctl::server::{after_silence, apply_entries, handle, Context, Now};
use up4::engine::PipelineParams;
use up4::metrics::{Counter, Metrics};
use up4::named::NamedTexts;
use up4::net::{Ipv4Addr, SocketAddr};
use up4::punt::PuntQueue;
use up4::registry::{build, names, Loaded};
use up4::shard::Node;
use up4::signal::Stop;

fn local(port: u16) -> RawAddr {
    let shown = format!("127.0.0.1:{port}");
    RawAddr {
        text: shown.clone(),
        addr: Some(SocketAddr::V4 { ip: 0x7f00_0001, port }),
        shown,
    }
}

fn config(pipeline: &str) -> Config {
    let raw = RawConfig {
        node: RawNode {
            id: "a".into(),
            bind: local(7400),
            fabric: "ipv4".into(),
            pipeline: pipeline.into(),
            threads: 1,
            pin_cores: None,
            ctl_socket: "/tmp/up4-ctl-test.sock".into(),
            metrics_interval_s: 5,
        },
        vport: vec![
            RawVport { id: 0, peer: local(7401) },
            RawVport { id: 1, peer: local(7402) },
        ],
        punt: Some(RawPunt { vport: 65535 }),
    };
    Config::from_parsed(Ok(raw), &names()).expect("fixture config")
}

struct Fixture {
    ctx: Context,
    node: Node,
    pipeline: Loaded,
}

impl Fixture {
    fn handle(&mut self, request: Request) -> Response {
        let now = Now { monotonic_us: 3_500_000, wall_us: 77 };
        handle(&mut self.ctx, &mut self.node, &mut self.pipeline, now, request)
    }
}

fn context(punt: bool) -> Fixture {
    let cfg = config("l3fwd");
    Fixture {
        ctx: Context {
            facts: Arc::new(NodeFacts {
                node: cfg.node.id.clone(),
                version: "0.1.0".to_owned(),
                pipeline: "l3fwd".to_owned(),
                pipeline_summary: "test".to_owned(),
                threads: 1,
                fabric: "ipv4".to_owned(),
                inner_mtu: 1460,
                bind: "127.0.0.1:7400".to_owned(),
                punt_enabled: punt,
                vports: Vec::new(),
                probe: None,
            }),
            started_us: 1_000_000,
            stop: Stop::new(),
        },
        node: Node {
            metrics: Metrics::new(&cfg.node.id, &cfg.vports),
            punt: if punt { Some(PuntQueue::with_depth(4, 1460)) } else { None },
        },
        pipeline: build("l3fwd", &PipelineParams::new(vec![0, 1])).expect("registered"),
    }
}

fn spec(table: &str, key: &str, action: &str, params: &[&str]) -> EntrySpec {
    let args: Vec<String> = params.iter().map(|s| (*s).to_owned()).collect();
    EntrySpec {
        table: table.to_owned(),
        key: key.to_owned(),
        action: action.to_owned(),
        params: Params::from_args(&args),
    }
}

fn add(table: &str, key: &str, action: &str, params: &[&str]) -> Request {
    Request::TableAdd { entries: vec![spec(table, key, action, params)] }
}

fn count(r: Response) -> usize {
    match r {
        Response::Applied { count } => count,
        other => panic!("applied, not {other:?}"),
    }
}

fn message(r: Response) -> String {
    match r {
        Response::Error { message } => message,
        other => panic!("refused, not {other:?}"),
    }
}

#[test]
fn ping_and_info_answer_without_touching_the_pipeline() {
    let mut fx = context(true);
    assert!(matches!(fx.handle(Request::Ping), Response::Pong));
    let Response::Info(info) = fx.handle(Request::Info) else {
        panic!("info replies with info");
    };
    assert_eq!(info.facts.node, "a");
    assert_eq!(info.facts.pipeline, "l3fwd");
    assert!(info.facts.punt_enabled);
    assert_eq!(info.uptime_s, 2);
}

#[test]
fn tables_describes_what_to_type() {
    let mut fx = context(true);
    let Response::Tables { tables: schemas } = fx.handle(Request::Tables) else {
        panic!("tables replies with schemas");
    };
    assert_eq!(schemas.len(), 1);
    assert_eq!(schemas[0].name, "ipv4_lpm");
    assert_eq!(schemas[0].key_field, "ipv4.dst");
    let forward = schemas[0]
        .actions
        .iter()
        .find(|a| a.name == "forward")
        .expect("declared");
    assert_eq!(
        forward.params.iter().map(|p| p.name.as_str()).collect::<Vec<_>>(),
        ["port", "dmac"]
    );
}

#[test]
fn a_route_can_be_added_dumped_and_removed_by_name_or_position() {
    let mut fx = context(true);
    let one = add("ipv4_lpm", "10.0.0.0/24", "forward", &["port=1", "dmac=aa:bb:cc:dd:ee:01"]);
    assert_eq!(count(fx.handle(one)), 1);
    let two = add("ipv4_lpm", "10.0.1.0/24", "forward", &["0", "aa:bb:cc:dd:ee:02"]);
    assert_eq!(count(fx.handle(two)), 1, "positional parameters mean the same thing");

    let dump = Request::TableDump { table: "ipv4_lpm".into() };
    let Response::Entries { entries, default } = fx.handle(dump) else {
        panic!("dump replies with entries");
    };
    assert_eq!(entries.len(), 2);
    assert_eq!(entries[0].params.get("port").map(String::as_str), Some("1"));
    assert_eq!(default.action, "drop");

    let del = Request::TableDel { table: "ipv4_lpm".into(), key: "10.0.0.0/24".into() };
    assert_eq!(count(fx.handle(del)), 1);
    assert_eq!(count(fx.handle(Request::TableClear { table: "ipv4_lpm".into() })), 1);
}

#[test]
fn a_batch_reports_which_entry_failed_and_how_far_it_got() {
    let mut fx = context(true);
    let entries = vec![
        spec("ipv4_lpm", "10.0.0.0/24", "drop", &[]),
        spec("ipv4_lpm", "not-an-address", "drop", &[]),
    ];
    let message = message(fx.handle(Request::TableAdd { entries }));
    assert!(message.contains("entry 1"), "{message}");
    assert!(message.contains("1 of 2 applied"), "{message}");
}

#[test]
fn refusals_name_the_alternatives() {
    let mut fx = context(true);
    let cases = [
        (add("nope", "10.0.0.0/24", "drop", &[]), "ipv4_lpm"),
        (add("ipv4_lpm", "10.0.0.0/24", "teleport", &[]), "forward"),
        (add("ipv4_lpm", "10.0.0.0/24", "forward", &["port=1"]), "2 parameter"),
        (
            add(
                "ipv4_lpm",
                "10.0.0.0/24",
                "forward",
                &["port=1", "mac=aa:bb:cc:dd:ee:01"],
            ),
            "dmac",
        ),
        (add("ipv4_lpm", "10.0.0.0/99", "drop", &[]), "10.0.0.0/99"),
    ];
    for (request, expected) in cases {
        let message = message(fx.handle(request));
        assert!(message.contains(expected), "{message:?} should mention {expected:?}");
    }
}

#[test]
fn the_default_action_is_settable() {
    let mut fx = context(true);
    let set = Request::TableSetDefault {
        table: "ipv4_lpm".into(),
        action: "punt".into(),
        params: Params::default(),
    };
    assert_eq!(count(fx.handle(set)), 1);
    let dump = Request::TableDump { table: "ipv4_lpm".into() };
    let Response::Entries { default, .. } = fx.handle(dump) else {
        panic!("dump replies with entries");
    };
    assert_eq!(default.action, "punt");
}

#[test]
fn punt_drain_returns_frames_and_says_what_is_left() {
    let mut fx = context(true);
    let queue = fx.node.punt.as_mut().expect("punt configured");
    for i in 0..3u8 {
        assert!(queue.push(&[i, i, i], 1, 42));
    }
    let Response::Punted { frames, remaining } = fx.handle(Request::PuntDrain { max: 2 }) else {
        panic!("drain replies with frames");
    };
    assert_eq!(frames.len(), 2);
    assert_eq!(remaining, 1);
    assert_eq!(frames[0].ingress_vport, 1);
    assert_eq!(frames[0].rx_ts_us, 42);
    assert_eq!(b64::decode(&frames[0].frame_b64), Some(vec![0, 0, 0]));
}

#[test]
fn punt_drain_on_a_node_without_punt_says_so() {
    let mut fx = context(false);
    let message = message(fx.handle(Request::PuntDrain { max: 8 }));
    assert!(message.contains("[punt]"), "{message}");
}

#[test]
fn a_pipeline_without_tables_refuses_table_commands_by_name() {
    assert_eq!(config("l2fwd").node.pipeline, "l2fwd");
    let mut fx = context(true);
    let message = message(fx.handle(Request::TableDump { table: "mac_dst".into() }));
    assert!(message.contains("ipv4_lpm"), "{message}");
}

#[test]
fn shutdown_sets_the_stop_flag_and_answers_first() {
    let mut fx = context(true);
    assert!(!fx.ctx.stop.requested());
    assert!(matches!(fx.handle(Request::Shutdown), Response::ShuttingDown));
    assert!(fx.ctx.stop.requested());
}

#[test]
fn a_thousand_routes_load_in_one_batch() {
    let mut fx = context(true);
    let entries: Vec<EntrySpec> = (0..1000u32)
        .map(|i| {
            let mut params = NamedTexts::new();
            params.insert("port".into(), (i % 2).to_string());
            params.insert("dmac".into(), "aa:bb:cc:dd:ee:01".into());
            EntrySpec {
                table: "ipv4_lpm".into(),
                key: format!("{}/24", Ipv4Addr { bits: 0x0a00_0000 | (i << 8) }.to_text()),
                action: "forward".into(),
                params: Params::Named(params),
            }
        })
        .collect();
    assert_eq!(count(fx.handle(Request::TableAdd { entries })), 1000);
    let dump = Request::TableDump { table: "ipv4_lpm".into() };
    let Response::Entries { entries, .. } = fx.handle(dump) else {
        panic!("dump replies with entries");
    };
    assert_eq!(entries.len(), 1000);
}

#[test]
fn counters_reply_with_a_snapshot() {
    let mut fx = context(true);
    fx.node.metrics.add(Counter::RxBadHeader, 2);
    let Response::Counters(snapshot) = fx.handle(Request::Counters) else {
        panic!("counters replies with a snapshot");
    };
    assert_eq!(snapshot.node, "a");
    assert_eq!(snapshot.ts_us, 77);
    assert_eq!(snapshot.harness_drops, 2);
}

#[test]
fn a_failed_batch_keeps_what_it_applied() {
    let mut fx = context(true);
    let entries = [
        spec("ipv4_lpm", "10.0.0.0/24", "drop", &[]),
        spec("ipv4_lpm", "10.0.1.0/24", "teleport", &[]),
        spec("ipv4_lpm", "10.0.2.0/24", "drop", &[]),
    ];
    assert!(apply_entries(&mut fx.pipeline, &entries).is_err());
    let dump = Request::TableDump { table: "ipv4_lpm".into() };
    let Response::Entries { entries, .. } = fx.handle(dump) else {
        panic!("dump replies with entries");
    };
    assert_eq!(entries.len(), 1, "what came before the failure stays");
}

#[test]
fn removing_what_is_not_installed_is_refused() {
    let mut fx = context(true);
    let del = Request::TableDel { table: "ipv4_lpm".into(), key: "10.0.0.0/24".into() };
    assert!(message(fx.handle(del)).contains("10.0.0.0/24"));
}

#[test]
fn a_silent_connection_is_closed_in_the_end() {
    assert_eq!(after_silence(0, true), None, "a stop request closes at once");
    let mut idle = 0;
    let mut waits = 0;
    while let Some(next) = after_silence(idle, false) {
        idle = next;
        waits += 1;
        assert!(waits < 10_000);
    }
    assert!(waits > 1);
}

#[test]
fn a_full_drain_leaves_room_in_a_control_frame() {
    let mut fx = context(true);
    let queue = fx.node.punt.insert(PuntQueue::new(1460));
    for _ in 0..100 {
        assert!(queue.push(&[0xff; 1460], 1, 42));
    }
    let Response::Punted { frames, remaining } = fx.handle(Request::PuntDrain { max: 1000 }) else {
        panic!("drain replies with frames");
    };
    assert_eq!((frames.len(), remaining), (64, 36));
    let text: usize = frames.iter().map(|f| f.frame_b64.len()).sum();
    assert_eq!(text, 64 * 1948);
    assert!(2 * text < up4::ctl::codec::MAX_FRAME);
}
