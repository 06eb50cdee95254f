use up4::engine::{Engine, Pipeline, PipelineParams, Verdict};
use up4::frame::FrameCtx;
use up4::headers::ETH_HDR_LEN;
use up4::ops::TableOps;
use up4::programs::l2fwd::{table_schemas, L2Engine, L2Fwd};
use up4::shim::{KeyKind, TableError, TypedKey};
use up4::value::{MacAddr, TypedVal, ValKind};

fn mac(s: &str) -> MacAddr {
    MacAddr::parse(s).expect("literal")
}

fn frame_to(dst: &str) -> Vec<u8> {
    let mut f = vec![0u8; ETH_HDR_LEN + 46];
    f[0..6].copy_from_slice(&mac(dst).octets());
    f[6..12].copy_from_slice(&mac("aa:00:00:00:00:ff").octets());
    f
}

fn run(p: &L2Fwd, engine: &mut L2Engine, frame: &mut [u8], ingress: u16) -> Verdict {
    let mut buf = vec![0u8; 64 + frame.len()];
    buf[64..].copy_from_slice(frame);
    let mut ctx = FrameCtx::new(&mut buf, 64, frame.len(), ingress, 0).expect("fits");
    let v = engine.process(p, &mut ctx);
    frame.copy_from_slice(ctx.frame());
    v
}

fn loaded() -> (L2Fwd, L2Engine) {
    let p = L2Fwd::new(&PipelineParams::new(vec![0, 1]));
    let e = p.engine();
    (p, e)
}

#[test]
fn a_miss_broadcasts() {
    let (p, mut e) = loaded();
    assert_eq!(
        run(&p, &mut e, &mut frame_to("aa:bb:cc:dd:ee:01"), 0),
        Verdict::Broadcast
    );
}

#[test]
fn a_hit_forwards_to_the_installed_port() {
    let (mut p, mut e) = loaded();
    p.table_add(
        "mac_dst",
        TypedKey::parse(table_schemas()[0].key, "aa:bb:cc:dd:ee:01").expect("valid"),
        "forward",
        &[TypedVal::U16(1)],
    )
    .expect("install");
    assert_eq!(
        run(&p, &mut e, &mut frame_to("aa:bb:cc:dd:ee:01"), 0),
        Verdict::Forward(1)
    );
    assert_eq!(
        run(&p, &mut e, &mut frame_to("aa:bb:cc:dd:ee:02"), 0),
        Verdict::Broadcast,
        "other addresses still miss"
    );
}

#[test]
fn a_truncated_frame_is_dropped_by_the_parser() {
    let (p, mut e) = loaded();
    let mut short = vec![0u8; ETH_HDR_LEN - 1];
    assert_eq!(run(&p, &mut e, &mut short, 0), Verdict::Drop);
}

#[test]
fn the_pipeline_never_modifies_the_frame() {
    let (mut p, mut e) = loaded();
    p.table_add(
        "mac_dst",
        TypedKey::parse(table_schemas()[0].key, "aa:bb:cc:dd:ee:01").expect("valid"),
        "forward",
        &[TypedVal::U16(1)],
    )
    .expect("install");
    let mut f = frame_to("aa:bb:cc:dd:ee:01");
    let before = f.clone();
    run(&p, &mut e, &mut f, 0);
    assert_eq!(f, before);
}

#[test]
fn control_plane_round_trip() {
    let (mut p, _e) = loaded();
    let key = TypedKey::parse(table_schemas()[0].key, "aa:bb:cc:dd:ee:01").expect("valid");
    assert_eq!(p.table_dump("mac_dst").expect("known table"), vec![]);
    assert_eq!(
        p.table_default("mac_dst").expect("known table").action,
        "broadcast"
    );

    p.table_add("mac_dst", key, "forward", &[TypedVal::U16(3)])
        .expect("install");
    let dump = p.table_dump("mac_dst").expect("known table");
    assert_eq!(dump.len(), 1);
    assert_eq!(dump[0].key, "aa:bb:cc:dd:ee:01");
    assert_eq!(dump[0].action, "forward");
    assert_eq!(dump[0].params.get("port").map(String::as_str), Some("3"));

    p.table_set_default("mac_dst", "drop", &[])
        .expect("set default");
    assert_eq!(
        p.table_default("mac_dst").expect("known table").action,
        "drop"
    );

    p.table_remove("mac_dst", key).expect("remove");
    assert_eq!(
        p.table_remove("mac_dst", key),
        Err(TableError::NotFound {
            table: "mac_dst",
            key: "aa:bb:cc:dd:ee:01".into()
        })
    );
    assert_eq!(p.table_clear("mac_dst"), Ok(0));
}

#[test]
fn control_plane_refuses_a_key_of_the_wrong_shape() {
    let (mut p, _e) = loaded();
    let wrong = TypedKey::parse(KeyKind::Exact(ValKind::U16), "1").expect("valid");
    assert!(matches!(
        p.table_add("mac_dst", wrong, "broadcast", &[]),
        Err(TableError::KeyKindMismatch {
            table: "mac_dst",
            ..
        })
    ));
    assert!(matches!(
        p.table_dump("nope"),
        Err(TableError::UnknownTable { .. })
    ));
}

#[test]
fn a_control_plane_change_is_visible_to_a_running_engine() {
    let (mut p, mut e) = loaded();
    let key = TypedKey::parse(table_schemas()[0].key, "aa:bb:cc:dd:ee:01").expect("valid");
    assert_eq!(
        run(&p, &mut e, &mut frame_to("aa:bb:cc:dd:ee:01"), 0),
        Verdict::Broadcast
    );
    p.table_add("mac_dst", key, "forward", &[TypedVal::U16(2)])
        .expect("install");
    assert_eq!(
        run(&p, &mut e, &mut frame_to("aa:bb:cc:dd:ee:01"), 0),
        Verdict::Forward(2)
    );
    p.table_remove("mac_dst", key).expect("remove");
    assert_eq!(
        run(&p, &mut e, &mut frame_to("aa:bb:cc:dd:ee:01"), 0),
        Verdict::Broadcast
    );
}
