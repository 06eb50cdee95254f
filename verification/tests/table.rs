use up4::lpm::{Ipv4Prefix, LpmTable};
use up4::net::Ipv4Addr;
use up4::table::{Cached, ExactTable, Shared};

#[test]
fn exact_table_falls_through_to_the_default_action() {
    let mut t: ExactTable<u8, &str> = ExactTable::new("miss");
    assert_eq!(*t.apply(&1), "miss");
    assert!(!t.insert(1, "hit"));
    assert!(t.insert(1, "hit again"));
    assert_eq!(*t.apply(&1), "hit again");
    assert!(t.remove(&1));
    assert!(!t.remove(&1));
    assert_eq!(*t.apply(&1), "miss");
}

#[test]
fn prefixes_are_canonical_and_bounded() {
    let p = Ipv4Prefix::new(Ipv4Addr::new(10, 1, 2, 3), 24).expect("len <= 32");
    assert_eq!(p.to_text(), "10.1.2.0/24");
    assert_eq!(
        p,
        Ipv4Prefix::new(Ipv4Addr::new(10, 1, 2, 0), 24).expect("len <= 32")
    );
    assert_eq!(Ipv4Prefix::new(Ipv4Addr::new(0, 0, 0, 0), 33), None);
    let d = Ipv4Prefix::new(Ipv4Addr::new(1, 2, 3, 4), 0).expect("len <= 32");
    assert!(d.is_default_route());
    assert_eq!(d.to_text(), "0.0.0.0/0");
}

fn prefix(s: &str, len: u8) -> Ipv4Prefix {
    Ipv4Prefix::new(Ipv4Addr::parse(s).expect("literal"), len).expect("len <= 32")
}

#[test]
fn lpm_prefers_the_longest_match_whatever_the_insertion_order() {
    let mut t: LpmTable<&str> = LpmTable::new("default");
    t.insert(prefix("10.0.0.0", 8), "/8");
    t.insert(prefix("10.0.0.0", 24), "/24");
    t.insert(prefix("0.0.0.0", 0), "/0");
    t.insert(prefix("10.0.0.7", 32), "/32");

    assert_eq!(*t.apply(Ipv4Addr::parse("10.0.0.7").expect("literal")), "/32");
    assert_eq!(*t.apply(Ipv4Addr::parse("10.0.0.8").expect("literal")), "/24");
    assert_eq!(*t.apply(Ipv4Addr::parse("10.0.1.1").expect("literal")), "/8");
    assert_eq!(*t.apply(Ipv4Addr::parse("11.0.0.1").expect("literal")), "/0");
}

#[test]
fn lpm_removal_drops_empty_length_groups_and_restores_shorter_matches() {
    let mut t: LpmTable<&str> = LpmTable::new("default");
    t.insert(prefix("10.0.0.0", 8), "/8");
    t.insert(prefix("10.0.0.0", 24), "/24");
    assert!(t.remove(prefix("10.0.0.0", 24)));
    assert!(!t.remove(prefix("10.0.0.0", 24)));
    assert_eq!(*t.apply(Ipv4Addr::parse("10.0.0.1").expect("literal")), "/8");
    assert_eq!(t.len(), 1);
    assert_eq!(t.clear(), 1);
    assert_eq!(*t.apply(Ipv4Addr::parse("10.0.0.1").expect("literal")), "default");
}

#[test]
fn lpm_scales_to_a_thousand_routes() {
    let mut t: LpmTable<u32> = LpmTable::new(u32::MAX);
    for i in 0..1000u32 {
        let addr = Ipv4Addr { bits: 0x0a00_0000 | (i << 8) };
        t.insert(Ipv4Prefix::new(addr, 24).expect("len <= 32"), i);
    }
    assert_eq!(t.len(), 1000);
    assert_eq!(*t.apply(Ipv4Addr { bits: 0x0a00_0000 | (999 << 8) | 5 }), 999);
    assert_eq!(*t.apply(Ipv4Addr { bits: 0x0b00_0000 }), u32::MAX);
    assert_eq!(t.iter().len(), 1000);
}

#[test]
fn readers_observe_updates_and_nothing_in_between() {
    let mut shared = Shared::new(ExactTable::<u8, &str>::new("miss"));
    let mut cached = Cached::new(&shared);
    assert_eq!(*cached.get(&shared).apply(&1), "miss");

    shared.update(|t| {
        let mut next = t.clone();
        next.insert(1, "hit");
        (next, ())
    });
    assert_eq!(*cached.get(&shared).apply(&1), "hit");
    assert_eq!(shared.version(), 1);
}


#[test]
fn entries_are_listed_in_key_order() {
    let mut t: ExactTable<u32, u8> = ExactTable::new(0);
    for k in [7u32, 1, 300, 2] {
        t.insert(k, k as u8);
    }
    assert_eq!(t.iter(), vec![(1, 1), (2, 2), (7, 7), (300, 44)]);
    assert_eq!(t.len(), 4);
    assert!(!t.is_empty());
    assert_eq!(t.get(&9), None);
    assert_eq!(t.clear(), 4);
    assert!(t.is_empty());
}

#[test]
fn routes_are_listed_longest_first_then_by_address() {
    let mut t: LpmTable<u8> = LpmTable::new(0);
    t.insert(prefix("10.0.1.0", 24), 1);
    t.insert(prefix("0.0.0.0", 0), 2);
    t.insert(prefix("10.0.0.0", 24), 3);
    t.insert(prefix("10.0.0.1", 32), 4);
    let order: Vec<String> = t.iter().iter().map(|(p, _)| p.to_text()).collect();
    assert_eq!(order, ["10.0.0.1/32", "10.0.0.0/24", "10.0.1.0/24", "0.0.0.0/0"]);
    let copy = t.clone();
    t.clear();
    assert!(t.is_empty());
    assert_eq!(copy.len(), 4);
}
