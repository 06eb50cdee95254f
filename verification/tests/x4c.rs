use up4::value::{MacAddr, TypedVal, ValKind};
use up4::x4c::{action_param, exact_key, lpm_key, refuse_reason};

#[test]
fn exact_keys_are_little_endian() {
    assert_eq!(exact_key(TypedVal::U16(0x0102)), vec![0x02, 0x01]);
    assert_eq!(
        exact_key(TypedVal::U32(0x0102_0304)),
        vec![0x04, 0x03, 0x02, 0x01]
    );
    assert_eq!(
        exact_key(TypedVal::Mac(MacAddr::new([1, 2, 3, 4, 5, 6]))),
        vec![6, 5, 4, 3, 2, 1]
    );
    assert_eq!(
        exact_key(TypedVal::U8(0xab)),
        vec![0xab],
        "one byte has no order"
    );
}

#[test]
fn lpm_keys_are_wire_order() {
    let addr = TypedVal::parse(ValKind::Ipv4, "10.0.0.1").expect("literal");
    assert_eq!(lpm_key(addr), vec![10, 0, 0, 1]);
    assert_eq!(
        exact_key(addr),
        vec![1, 0, 0, 10],
        "the same value, the other way"
    );
}

#[test]
fn action_parameters_follow_the_exact_key_rule() {
    assert_eq!(action_param(TypedVal::U16(1)), vec![1, 0]);
}

#[test]
fn refuses_traffic_manager_and_meter_intrinsics() {
    assert_eq!(
        refuse_reason("if (standard_metadata.enq_qdepth > 4) { drop(); }"),
        Some("no traffic manager in up4 v1")
    );
    assert_eq!(
        refuse_reason("meter(m, idx, res);"),
        Some("no meters in up4 v1")
    );
}

#[test]
fn accepts_a_program_that_only_mentions_them_in_comments() {
    assert_eq!(refuse_reason("// no queue_depth here\naction a() {}"), None);
    assert_eq!(
        refuse_reason("/* meter\n is out of scope */\naction a() {}"),
        None
    );
    assert_eq!(refuse_reason("action a() {} // unterminated"), None);
}


#[test]
fn a_comment_cannot_hide_a_denied_identifier() {
    assert_eq!(refuse_reason("/*/ meter */ x"), None);
    assert_eq!(refuse_reason("a /* b */ meter"), Some("no meters in up4 v1"));
    assert_eq!(refuse_reason("// x\nmeter"), Some("no meters in up4 v1"));
    assert_eq!(
        refuse_reason("meter deq_timedelta"),
        Some("no traffic manager in up4 v1")
    );
    assert_eq!(refuse_reason("/* unterminated meter"), None);
    assert_eq!(refuse_reason(""), None);
}
