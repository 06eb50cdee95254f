use up4::ctl::codec::{frame, unframe, CodecError, LEN_PREFIX, MAX_FRAME};
use up4::ctl::command::{request, Command, Drain};
use up4::ctl::protocol::{EntryBatch, EntrySpec, Params, PuntedFrame, Request, Response};
use up4::ctl::report::report;
use up4::named::NamedTexts;

fn named(pairs: &[(&str, &str)]) -> NamedTexts {
    let mut out = NamedTexts::new();
    for (name, text) in pairs {
        out.insert((*name).to_owned(), (*text).to_owned());
    }
    out
}

#[test]
fn params_take_the_shape_the_operator_used() {
    assert_eq!(
        Params::from_args(&["port=1".into()]),
        Params::Named(named(&[("port", "1")]))
    );
    assert_eq!(
        Params::from_args(&["1".into(), "aa:bb:cc:dd:ee:01".into()]),
        Params::Positional(vec!["1".into(), "aa:bb:cc:dd:ee:01".into()])
    );
    assert!(Params::from_args(&[]).is_empty());
}

#[test]
fn one_unnamed_parameter_makes_them_all_positional() {
    let mixed = Params::from_args(&["port=1".into(), "2".into()]);
    assert_eq!(mixed, Params::Positional(vec!["port=1".into(), "2".into()]));
    assert_eq!(mixed.len(), 2);
}

fn entry(table: &str) -> EntrySpec {
    EntrySpec {
        table: table.into(),
        key: "k".into(),
        action: "a".into(),
        params: Params::default(),
    }
}

#[test]
fn both_spellings_of_a_batch_hold_the_same_entries() {
    let wrapped = EntryBatch::Wrapped { entries: vec![entry("t")] };
    let bare = EntryBatch::Bare(vec![entry("t")]);
    assert_eq!(wrapped.into_entries(), bare.into_entries());
    assert!(entry("t").params.is_empty());
}

#[test]
fn an_oversized_message_is_refused_before_it_is_sent() {
    let key = "x".repeat(MAX_FRAME);
    let body = format!(r#"{{"cmd":"table-del","table":"t","key":"{key}"}}"#);
    let err = frame(body.as_bytes()).expect_err("refused");
    assert!(matches!(err, CodecError::TooLong { .. }), "{err:?}");
    assert!(err.message().contains(&MAX_FRAME.to_string()), "{}", err.message());
}

#[test]
fn a_frame_whose_prefix_disagrees_with_its_body_is_rejected() {
    let err = unframe(&[0, 0, 0, 99, 1, 2, 3]).expect_err("rejected");
    assert!(matches!(err, CodecError::Mismatch { .. }), "{err:?}");
    assert!(err.message().contains("declares 99 B, 3 B arrived"), "{}", err.message());
    assert!(unframe(&[0, 0]).is_err());
}

#[test]
fn a_closed_peer_reads_as_end_of_stream() {
    assert_eq!(unframe(&[]), Ok(None));
}

#[test]
fn a_message_round_trips() {
    let sent = frame(b"\"ping\"").expect("fits");
    assert_eq!(&sent[..LEN_PREFIX], &[0, 0, 0, 6]);
    assert_eq!(unframe(&sent), Ok(Some(&b"\"ping\""[..])));
    assert_eq!(unframe(&frame(b"").expect("fits")), Ok(Some(&b""[..])));
}

#[test]
fn commands_become_requests() {
    assert_eq!(request(Command::Ping), Request::Ping);
    assert_eq!(request(Command::Punt { max: 8 }), Request::PuntDrain { max: 8 });
    assert_eq!(
        request(Command::Add {
            table: "t".into(),
            key: "k".into(),
            action: "a".into(),
            params: vec!["port=1".into()],
        }),
        Request::TableAdd {
            entries: vec![EntrySpec {
                table: "t".into(),
                key: "k".into(),
                action: "a".into(),
                params: Params::Named(named(&[("port", "1")])),
            }]
        }
    );
    assert_eq!(
        request(Command::SetDefault { table: "t".into(), action: "a".into(), params: Vec::new() }),
        Request::TableSetDefault {
            table: "t".into(),
            action: "a".into(),
            params: Params::from_args(&[]),
        }
    );
}

fn punted(n: u16, remaining: usize) -> Response {
    Response::Punted {
        frames: vec![PuntedFrame { ingress_vport: n, rx_ts_us: 2, frame_b64: "AAA=".into() }],
        remaining,
    }
}

#[test]
fn draining_everything_asks_until_the_queue_is_empty() {
    let mut drain = Drain::new(true);
    assert!(drain.step(punted(1, 2)).is_none());
    assert!(drain.step(punted(2, 1)).is_none());
    match drain.step(punted(3, 0)) {
        Some(Response::Punted { frames, remaining }) => {
            let from: Vec<u16> = frames.iter().map(|f| f.ingress_vport).collect();
            assert_eq!(from, vec![1, 2, 3]);
            assert_eq!(remaining, 0);
        }
        other => panic!("{other:?}"),
    }
    let mut once = Drain::new(false);
    assert!(once.step(punted(1, 2)).is_some());
}

#[test]
fn replies_are_reported_as_text() {
    let pong = report(&Response::Pong);
    assert!(pong.ok);
    assert!(pong.out.contains("pong"), "{pong:?}");
    let refused = report(&Response::error("no such table".into()));
    assert!(!refused.ok);
    assert!(refused.err.contains("no such table"), "{refused:?}");
    assert!(refused.out.is_empty());
    let applied = report(&Response::Applied { count: 3 });
    assert!(applied.out.contains('3'), "{applied:?}");
    let frames = report(&punted(1, 4));
    assert!(frames.out.contains("AAA="), "{frames:?}");
}
