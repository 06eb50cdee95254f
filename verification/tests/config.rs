//! One test per validation rule, and the case of several violations at once.
use toml::{Table, Value};
use up4::config::error::{ConfigError, ConfigErrors};
use up4::config::raw::{
    default_fabric, default_metrics_interval_s, default_threads, RawAddr, RawConfig, RawNode,
    RawPunt, RawVport,
};
use up4::config::{Config, Fabric, Threads, VportId};
use up4::net::{Ipv4Addr, SocketAddr};
use up4::wire::{INNER_MTU_V4, INNER_MTU_V6, PUNT_VPORT};

const REGISTRY: &[&str] = &["l2fwd", "l3fwd"];

fn addr(text: &str) -> Option<SocketAddr> {
    let (host, port) = text.rsplit_once(':')?;
    let ip = Ipv4Addr::parse(host)?;
    Some(SocketAddr::V4 { ip: ip.bits, port: port.parse().ok()? })
}

fn raw_addr(text: &str) -> RawAddr {
    RawAddr { text: text.to_owned(), addr: addr(text), shown: text.to_owned() }
}

fn known(table: &Table, fields: &[&str]) -> Result<(), String> {
    match table.keys().find(|k| !fields.contains(&k.as_str())) {
        Some(k) => Err(format!("unknown field `{k}`")),
        None => Ok(()),
    }
}

fn text(table: &Table, field: &str) -> Result<String, String> {
    match table.get(field) {
        Some(Value::String(s)) => Ok(s.clone()),
        _ => Err(format!("missing field `{field}`")),
    }
}

fn number(table: &Table, field: &str, default: Option<i64>) -> Result<i64, String> {
    match (table.get(field), default) {
        (Some(Value::Integer(n)), _) => Ok(*n),
        (None, Some(n)) => Ok(n),
        _ => Err(format!("missing field `{field}`")),
    }
}

fn read(src: &str) -> Result<RawConfig, String> {
    let file: Table = src.parse::<Table>().map_err(|e| e.to_string())?;
    known(&file, &["node", "vport", "punt"])?;
    let node = file.get("node").and_then(Value::as_table).ok_or("missing field `node`")?;
    known(
        node,
        &[
            "id",
            "bind",
            "fabric",
            "pipeline",
            "threads",
            "pin_cores",
            "ctl_socket",
            "metrics_interval_s",
        ],
    )?;
    let mut vport = Vec::new();
    for v in file.get("vport").and_then(Value::as_array).unwrap_or(&Vec::new()) {
        let v = v.as_table().ok_or("vport is a table")?;
        vport.push(RawVport {
            id: number(v, "id", None)?,
            peer: raw_addr(&text(v, "peer")?),
        });
    }
    let punt = match file.get("punt").and_then(Value::as_table) {
        Some(p) => Some(RawPunt { vport: number(p, "vport", None)? }),
        None => None,
    };
    Ok(RawConfig {
        node: RawNode {
            id: text(node, "id")?,
            bind: raw_addr(&text(node, "bind")?),
            fabric: text(node, "fabric").unwrap_or_else(|_| default_fabric()),
            pipeline: text(node, "pipeline")?,
            threads: number(node, "threads", Some(default_threads() as i64))? as u32,
            pin_cores: node.get("pin_cores").and_then(Value::as_array).map(|cores| {
                cores.iter().filter_map(Value::as_integer).collect()
            }),
            ctl_socket: text(node, "ctl_socket")?,
            metrics_interval_s: number(
                node,
                "metrics_interval_s",
                Some(default_metrics_interval_s() as i64),
            )? as u64,
        },
        vport,
        punt,
    })
}

fn from_toml(src: &str) -> Result<Config, ConfigErrors> {
    Config::from_parsed(read(src), REGISTRY)
}

fn cfg(extra_node: &str, vports: &str) -> Result<Config, ConfigErrors> {
    let src = format!(
        r#"
[node]
id = "a"
bind = "10.0.0.11:7400"
pipeline = "l2fwd"
ctl_socket = "/tmp/up4-a.sock"
{extra_node}
{vports}
"#
    );
    from_toml(&src)
}

fn one_vport() -> &'static str {
    "[[vport]]\nid = 0\npeer = \"10.0.0.12:7400\"\n"
}

fn errors(r: Result<Config, ConfigErrors>) -> Vec<ConfigError> {
    match r {
        Ok(_) => panic!("expected the configuration to be rejected"),
        Err(e) => e.iter().into_iter().cloned().collect(),
    }
}

#[test]
fn minimal_config_has_documented_defaults() {
    let c = cfg("", one_vport()).expect("valid");
    assert_eq!(c.node.fabric, Fabric::V4);
    assert_eq!(c.node.threads, Threads::new(1).expect("1 is in range"));
    assert_eq!(c.node.metrics_interval, Some(5));
    assert!(c.node.pin_cores.is_empty());
    assert!(c.punt.is_none());
    assert_eq!(c.inner_mtu(), INNER_MTU_V4);
}

#[test]
fn full_config_round_trips_into_the_domain_model() {
    let c = cfg(
        r#"fabric = "ipv6"
threads = 2
pin_cores = [2, 3]
metrics_interval_s = 0
"#,
        "[[vport]]\nid = 0\npeer = \"10.0.0.12:7400\"\n\
         [[vport]]\nid = 7\npeer = \"10.0.0.13:7400\"\n\
         [punt]\nvport = 65535\n",
    )
    .expect("valid");
    assert_eq!(c.node.fabric, Fabric::V6);
    assert_eq!(c.inner_mtu(), INNER_MTU_V6);
    assert_eq!(c.node.threads.get(), 2);
    assert_eq!(&*c.node.pin_cores, &[2, 3]);
    assert_eq!(c.node.metrics_interval, None, "0 disables snapshots");
    assert_eq!(c.vports.len(), 2);
    assert!(c.punt.is_some());

    let idx = c.vports.idx_of_id(7).expect("vport 7 exists");
    assert_eq!(c.vports.get(idx).peer, addr("10.0.0.13:7400").expect("literal"));
    assert_eq!(
        c.vports.idx_of_peer(&addr("10.0.0.12:7400").expect("literal")),
        c.vports.idx_of_id(0)
    );
    assert_eq!(c.vports.idx_of_id(1), None, "unconfigured id has no slot");
    assert_eq!(c.vports.idx_of_id(65535), None, "punt id is never a vport");
}

#[test]
fn rejects_bad_scalars_and_lists_all_of_them() {
    let src = r#"
[node]
id = ""
bind = "nope"
fabric = "ipv5"
pipeline = "missing"
threads = 99
ctl_socket = ""

[[vport]]
id = 65535
peer = "also-nope"
"#;
    let found = errors(from_toml(src));
    assert!(found.contains(&ConfigError::EmptyNodeId), "{found:?}");
    assert!(found.contains(&ConfigError::Bind { value: "nope".into() }), "{found:?}");
    assert!(found.contains(&ConfigError::Fabric { value: "ipv5".into() }), "{found:?}");
    assert!(found.contains(&ConfigError::Threads { value: 99 }), "{found:?}");
    assert!(found.contains(&ConfigError::EmptyCtlSocket), "{found:?}");
    assert!(found.contains(&ConfigError::VportId { value: 65535 }), "{found:?}");
    assert!(
        found.contains(&ConfigError::Peer { vport: 65535, value: "also-nope".into() }),
        "{found:?}"
    );
    assert!(
        found
            .iter()
            .any(|e| matches!(e, ConfigError::UnknownPipeline { value, .. } if value == "missing")),
        "{found:?}"
    );
    assert_eq!(
        found.len(),
        8,
        "every violation is reported, not just the first: {found:?}"
    );
}

#[test]
fn rejects_duplicate_vport_id() {
    let found = errors(cfg(
        "",
        "[[vport]]\nid = 3\npeer = \"10.0.0.12:7400\"\n\
         [[vport]]\nid = 3\npeer = \"10.0.0.13:7400\"\n",
    ));
    assert_eq!(found, vec![ConfigError::DuplicateVportId { value: 3 }]);
}

#[test]
fn rejects_duplicate_peer_tuple() {
    let found = errors(cfg(
        "",
        "[[vport]]\nid = 0\npeer = \"10.0.0.12:7400\"\n\
         [[vport]]\nid = 1\npeer = \"10.0.0.12:7400\"\n",
    ));
    assert_eq!(
        found,
        vec![ConfigError::DuplicatePeer {
            value: "10.0.0.12:7400".into(),
            first: 0,
            second: 1
        }]
    );
}

#[test]
fn rejects_peer_pointing_at_self() {
    let found = errors(cfg("", "[[vport]]\nid = 0\npeer = \"10.0.0.11:7400\"\n"));
    assert_eq!(
        found,
        vec![ConfigError::PeerIsSelf { vport: 0, value: "10.0.0.11:7400".into() }]
    );
}

#[test]
fn rejects_topology_with_no_vports() {
    assert_eq!(errors(cfg("", "")), vec![ConfigError::NoVports]);
}

#[test]
fn rejects_punt_vport_other_than_the_reserved_id() {
    let found = errors(cfg("", &format!("{}[punt]\nvport = 4\n", one_vport())));
    assert_eq!(found, vec![ConfigError::PuntVport { value: 4, reserved: PUNT_VPORT }]);
}

#[test]
fn rejects_pin_cores_that_do_not_match_thread_count() {
    let found = errors(cfg("threads = 2\npin_cores = [1]\n", one_vport()));
    assert_eq!(found, vec![ConfigError::PinCoresArity { given: 1, threads: 2 }]);
}

#[test]
fn rejects_negative_core_id() {
    let found = errors(cfg("pin_cores = [-1]\n", one_vport()));
    assert_eq!(found, vec![ConfigError::NegativeCore { value: -1 }]);
}

#[test]
fn rejects_unknown_field_rather_than_ignoring_it() {
    let found = errors(cfg("thread = 2\n", one_vport()));
    assert!(
        matches!(found.as_slice(), [ConfigError::Toml(m)] if m.contains("thread")),
        "{found:?}"
    );
}

#[test]
fn rejects_malformed_toml_without_pretending_to_check_more() {
    let found = errors(from_toml("[node"));
    assert!(matches!(found.as_slice(), [ConfigError::Toml(_)]), "{found:?}");
}

#[test]
fn error_display_lists_every_violation() {
    let e = match cfg("threads = 0\n", "") {
        Ok(_) => panic!("invalid"),
        Err(e) => e,
    };
    let text = e.message();
    assert!(text.contains("2 configuration error(s)"), "{text}");
    assert!(text.contains("node.threads 0"), "{text}");
    assert!(text.contains("[[vport]]"), "{text}");
    assert_eq!(e.len(), 2);
    assert!(!e.is_empty());
}

#[test]
fn refined_types_have_no_illegal_inhabitants() {
    assert_eq!(VportId::new(PUNT_VPORT), None);
    assert!(VportId::new(65534).is_some());
    assert_eq!(Threads::new(0), None);
    assert_eq!(Threads::new(17), None);
    assert!(Threads::new(16).is_some());
    assert_eq!(Fabric::from_config_str("IPv4"), None, "spelling is exact");
}

#[test]
fn vports_are_listed_in_configuration_order() {
    let c = cfg(
        "",
        "[[vport]]\nid = 7\npeer = \"10.0.0.13:7400\"\n\
         [[vport]]\nid = 0\npeer = \"10.0.0.12:7400\"\n",
    )
    .expect("valid");
    let listed: Vec<(usize, u16)> =
        c.vports.iter().into_iter().map(|(i, v)| (i.get(), v.id.get())).collect();
    assert_eq!(listed, vec![(0, 7), (1, 0)]);
    assert!(!c.vports.is_empty());
    assert_eq!(Fabric::V6.as_str(), "ipv6");
    assert_eq!(Threads::default().get(), 1);
    assert_eq!(VportId::new(3).expect("legal").get(), 3);
}

#[test]
fn a_single_error_is_worded_for_the_operator() {
    let e = ConfigErrors::single(ConfigError::NegativeCore { value: -1 });
    assert!(e.message().contains("1 configuration error(s)"), "{}", e.message());
    assert!(ConfigError::NegativeCore { value: -1 }.message().contains("-1"));
    let unknown = ConfigError::UnknownPipeline {
        value: "l4fwd".into(),
        known: vec!["l2fwd".into(), "l3fwd".into()],
    };
    assert!(unknown.message().contains("l2fwd, l3fwd"), "{}", unknown.message());
}
