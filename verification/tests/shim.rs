use up4::net::Ipv4Addr;
use up4::ops::{NoTables, TableOps};
use up4::shim::{
    ActionSchema, KeyKind, ParamSchema, TableError, TableSchema, TypedKey,
};
use up4::value::{MacAddr, TypedVal, ValKind, ValueError};

fn t() -> TableSchema {
    TableSchema {
    name: "ipv4_lpm",
    key_field: "dst_addr",
    key: KeyKind::Lpm(ValKind::Ipv4),
    actions: &[
        ActionSchema {
            name: "forward",
            params: &[
                ParamSchema {
                    name: "port",
                    kind: ValKind::U16,
                },
                ParamSchema {
                    name: "dmac",
                    kind: ValKind::Mac,
                },
            ],
        },
        ActionSchema {
            name: "drop",
            params: &[],
        },
    ],
    }
}

#[test]
fn lpm_keys_parse_with_and_without_a_prefix_length() {
    let with = TypedKey::parse(t().key, "10.0.0.0/24").expect("valid");
    assert_eq!(with.to_text(), "10.0.0.0/24");
    let bare = TypedKey::parse(t().key, "10.0.0.1").expect("valid");
    assert_eq!(
        bare.to_text(),
        "10.0.0.1/32",
        "a bare address is a host route"
    );
}

#[test]
fn lpm_keys_reject_impossible_prefix_lengths_and_bad_values() {
    assert!(TypedKey::parse(t().key, "10.0.0.0/33").is_err());
    assert!(TypedKey::parse(t().key, "10.0.0.0/x").is_err());
    assert!(TypedKey::parse(t().key, "not-an-address/24").is_err());
}

#[test]
fn exact_keys_carry_their_value_kind() {
    let k = TypedKey::parse(KeyKind::Exact(ValKind::Mac), "aa:bb:cc:dd:ee:01").expect("valid");
    assert_eq!(k.kind(), KeyKind::Exact(ValKind::Mac));
    assert_eq!(k.to_text(), "aa:bb:cc:dd:ee:01");
}

#[test]
fn action_signatures_are_enforced() {
    let mac = TypedVal::parse(ValKind::Mac, "aa:bb:cc:dd:ee:01").expect("valid");
    assert!(t().check("forward", &[TypedVal::U16(1), mac]).is_ok());
    assert_eq!(
        t().check("forward", &[TypedVal::U16(1)]),
        Err(TableError::Arity {
            table: "ipv4_lpm",
            action: "forward",
            want: 2,
            got: 1
        })
    );
    assert_eq!(
        t().check("forward", &[mac, TypedVal::U16(1)]),
        Err(TableError::Value(ValueError::Mismatched {
            expected: ValKind::U16,
            got: ValKind::Mac
        }))
    );
    assert!(matches!(
        t().check("nope", &[]),
        Err(TableError::UnknownAction { .. })
    ));
}

#[test]
fn a_pipeline_without_tables_says_so() {
    let n = NoTables("null");
    assert_eq!(
        n.table_dump("anything"),
        Err(TableError::NoTables { pipeline: "null" })
    );
    assert_eq!(n.schemas().len(), 0);
    assert!(n.schema("x").is_err());
}

#[test]
fn a_schema_is_described_whole() {
    let d = t().describe();
    assert_eq!(d.name, "ipv4_lpm");
    assert_eq!(d.key_field, "dst_addr");
    assert_eq!(d.key, KeyKind::Lpm(ValKind::Ipv4));
    assert_eq!(d.actions.len(), 2);
    assert_eq!(d.actions[0].params[1].name, "dmac");
    assert_eq!(d.actions[0].params[1].kind, ValKind::Mac);
    assert!(d.actions[1].params.is_empty());
    assert_eq!(d.key.syntax(), "ipv4 (10.0.0.1)/prefix_len");
}

#[test]
fn refusals_read_like_sentences() {
    let said = |e: TableError| e.message();
    assert_eq!(
        said(TableError::UnknownTable {
            name: "x".to_owned(),
            known: vec!["a".to_owned(), "b".to_owned()]
        }),
        "no table \"x\" (have: a, b)"
    );
    assert_eq!(
        said(t().check("nope", &[]).unwrap_err()),
        "table ipv4_lpm has no action \"nope\" (have: forward, drop)"
    );
    assert_eq!(
        said(t().check("forward", &[]).unwrap_err()),
        "ipv4_lpm.forward takes 2 parameter(s), got 0"
    );
    assert_eq!(
        said(TableError::KeyKindMismatch {
            table: "ipv4_lpm",
            want: KeyKind::Lpm(ValKind::Ipv4),
            got: KeyKind::Exact(ValKind::U8)
        }),
        "table ipv4_lpm expects a ipv4 (10.0.0.1)/prefix_len key, got u8 (e.g. 64 or 0x40)"
    );
    assert_eq!(
        said(TableError::NotFound { table: "mac_dst", key: "k".to_owned() }),
        "table mac_dst has no entry k"
    );
    assert_eq!(
        said(TableError::NoTables { pipeline: "null" }),
        "engine null has no tables"
    );
    assert_eq!(
        said(TableError::Value(ValueError::Mismatched {
            expected: ValKind::U16,
            got: ValKind::U8
        })),
        "expected u16 (e.g. 1 or 0x1f), got U8"
    );
}

#[test]
fn keys_read_back_from_what_they_are_shown_as() {
    let mac = MacAddr::new([2, 0, 0, 0, 0x0a, 0xff]);
    for key in [
        TypedKey::Exact(TypedVal::U16(80)),
        TypedKey::Exact(TypedVal::Mac(mac)),
        TypedKey::Lpm {
            value: TypedVal::Ipv4(Ipv4Addr::new(10, 0, 0, 5)),
            prefix_len: 24,
        },
        TypedKey::Lpm {
            value: TypedVal::Mac(mac),
            prefix_len: 48,
        },
        TypedKey::Lpm {
            value: TypedVal::U8(7),
            prefix_len: 0,
        },
    ] {
        assert_eq!(TypedKey::parse(key.kind(), &key.to_text()), Ok(key));
    }
}

#[test]
fn a_value_error_is_a_table_error() {
    let e = TypedVal::parse(ValKind::U8, "256").expect_err("too large");
    let text = e.message();
    let t = TableError::from(e);
    assert!(matches!(t, TableError::Value(_)));
    assert_eq!(t.message(), text);
}
