use up4::net::Ipv4Addr;
use up4::value::{parse_int, MacAddr, TypedVal, ValKind, ValueError};

#[test]
fn mac_round_trips_through_text() {
    let m: MacAddr = MacAddr::parse("aa:bb:cc:dd:ee:01").expect("valid");
    assert_eq!(m.octets(), [0xaa, 0xbb, 0xcc, 0xdd, 0xee, 0x01]);
    assert_eq!(m.to_text(), "aa:bb:cc:dd:ee:01");
    assert_eq!(MacAddr::parse("aa-bb-cc-dd-ee-01").expect("dashes"), m);
    assert!(!m.is_group());
    assert!(MacAddr::broadcast().is_group());
}

#[test]
fn mac_rejects_wrong_arity_and_digits() {
    for bad in [
        "aa:bb:cc:dd:ee",
        "aa:bb:cc:dd:ee:01:02",
        "zz:bb:cc:dd:ee:01",
        "",
    ] {
        assert!(MacAddr::parse(bad).is_err(), "{bad:?} must not parse");
    }
}

#[test]
fn integers_accept_decimal_and_hex_and_reject_overflow() {
    assert_eq!(TypedVal::parse(ValKind::U16, "31"), Ok(TypedVal::U16(31)));
    assert_eq!(TypedVal::parse(ValKind::U16, "0x1f"), Ok(TypedVal::U16(31)));
    assert_eq!(
        TypedVal::parse(ValKind::U8, "256"),
        Err(ValueError::Malformed {
            kind: ValKind::U8,
            text: "256".into()
        })
    );
}

#[test]
fn kind_mismatch_is_reported_not_coerced() {
    assert_eq!(
        TypedVal::U8(1).require(ValKind::U16),
        Err(ValueError::Mismatched {
            expected: ValKind::U16,
            got: ValKind::U8
        })
    );
}

#[test]
fn a_leading_plus_is_a_number_and_a_minus_is_not() {
    assert_eq!(parse_int("+7"), Some(7));
    assert_eq!(parse_int("0X+1f"), Some(31));
    assert_eq!(parse_int("-7"), None);
    assert_eq!(parse_int("+"), None);
    assert_eq!(parse_int(""), None);
    assert_eq!(parse_int("0x"), None);
    assert_eq!(parse_int("18446744073709551615"), Some(u64::MAX));
    assert_eq!(parse_int("18446744073709551616"), None);
    assert_eq!(parse_int("0000000000000000000000000000012"), Some(12));
}

#[test]
fn dotted_quads_are_read_strictly() {
    assert_eq!(Ipv4Addr::parse("10.0.0.1"), Some(Ipv4Addr::new(10, 0, 0, 1)));
    assert_eq!(Ipv4Addr::parse("255.255.255.255"), Some(Ipv4Addr { bits: u32::MAX }));
    for bad in ["10.0.0", "10.0.0.1.2", "256.0.0.1", "01.0.0.1", "1.2.3.", "+1.2.3.4", "a.b.c.d"] {
        assert_eq!(Ipv4Addr::parse(bad), None, "{bad:?}");
    }
}

#[test]
fn values_read_back_from_what_they_are_shown_as() {
    let values = [
        TypedVal::U8(255),
        TypedVal::U16(0),
        TypedVal::U32(4_294_967_295),
        TypedVal::Mac(MacAddr::new([0, 1, 0x0a, 0xff, 0x10, 0x9c])),
        TypedVal::Ipv4(Ipv4Addr::new(192, 168, 0, 254)),
    ];
    for v in values {
        assert_eq!(TypedVal::parse(v.kind(), &v.to_text()), Ok(v));
    }
    assert_eq!(values[3].to_text(), "00:01:0a:ff:10:9c");
    assert_eq!(values[4].to_text(), "192.168.0.254");
}

#[test]
fn value_errors_say_what_to_type() {
    assert_eq!(
        ValueError::Malformed { kind: ValKind::U8, text: "a\"b".to_owned() }.message(),
        "\"a\\\"b\" is not a valid u8 (e.g. 64 or 0x40)"
    );
    assert_eq!(
        ValueError::Mismatched { expected: ValKind::Ipv4, got: ValKind::Mac }.message(),
        "expected ipv4 (10.0.0.1), got Mac"
    );
}

#[test]
fn accessors_answer_for_their_own_kind_only() {
    let mac = MacAddr::new([2, 0, 0, 0, 0, 1]);
    let ip = Ipv4Addr::new(10, 0, 0, 1);
    let values = [
        TypedVal::U8(1),
        TypedVal::U16(2),
        TypedVal::U32(3),
        TypedVal::Mac(mac),
        TypedVal::Ipv4(ip),
    ];
    assert_eq!(values.map(TypedVal::as_u16), [None, Some(2), None, None, None]);
    assert_eq!(
        values.map(TypedVal::as_mac),
        [None, None, None, Some(mac), None]
    );
    assert_eq!(
        values.map(TypedVal::as_ipv4),
        [None, None, None, None, Some(ip)]
    );
}
