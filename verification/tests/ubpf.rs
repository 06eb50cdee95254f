use up4::catalog::{Backend, Program, Selection};
use up4::engine::{Engine, Pipeline, PipelineParams, Verdict};
use up4::frame::{FrameCtx, MIN_HEADROOM};
use up4::net::Ipv4Addr;
use up4::ops::TableOps;
use up4::registry::build_selection;
use up4::shim::{TableError, TypedKey};
use up4::ubpf::abi::{abi_of, as_number, key_bytes, value_bytes};
use up4::ubpf::elf::{
    link_by_name, load, ElfError, MapRef, RawSection, Symbol, INSN_LEN, SHT_REL, STT_OBJECT,
};
use up4::ubpf::meta;
use up4::ubpf::pipeline::{conclude, LoadError, UbpfPipeline};
use up4::ubpf::table::{mask, Layout, Match, Table};
use up4::ubpf::vm::{
    adjust_head, key_width, map_lookup, mbuff, prologue, readable, refusal, Answer, Outcome, Vm,
    VmError, ARENA, MAP_LOOKUP, MAP_UPDATE, NO_PORT, TRUNCATE_PACKET,
};
use up4::value::{MacAddr, TypedVal};

const DMAC: [u8; 6] = [0xaa, 0xbb, 0xcc, 0xdd, 0xee, 0xff];

fn put(out: &mut Vec<u8>, at: usize, bytes: &[u8]) {
    if out.len() < at + bytes.len() {
        out.resize(at + bytes.len(), 0);
    }
    out[at..at + bytes.len()].copy_from_slice(bytes);
}

/// A BPF object with the two maps of `table`, each referred to once.
fn object(table: &str) -> Vec<u8> {
    let mut text = Vec::new();
    for _ in 0..2 {
        text.extend_from_slice(&[0x18, 0x01, 0, 0, 0xff, 0xff, 0xff, 0xff]); // lddw r1
        text.extend_from_slice(&[0, 0, 0, 0, 0xff, 0xff, 0xff, 0xff]);
    }
    text.extend_from_slice(&[0xb7, 0, 0, 0, 0, 0, 0, 0]); // mov r0, 0
    text.extend_from_slice(&[0x95, 0, 0, 0, 0, 0, 0, 0]); // exit

    let entry = format!("pipe_{table}");
    let default = format!("pipe_{table}_defaultAction");
    let mut strtab = vec![0u8];
    let entry_at = strtab.len() as u32;
    strtab.extend_from_slice(entry.as_bytes());
    strtab.push(0);
    let default_at = strtab.len() as u32;
    strtab.extend_from_slice(default.as_bytes());
    strtab.push(0);

    // The second symbol comes first by address.
    let mut symtab = vec![0u8; 24];
    for (name, value) in [(default_at, 32u64), (entry_at, 0u64)] {
        let at = symtab.len();
        put(&mut symtab, at, &name.to_le_bytes());
        put(&mut symtab, at + 4, &[0x11, 0, 3, 0]);
        put(&mut symtab, at + 8, &value.to_le_bytes());
        put(&mut symtab, at + 16, &32u64.to_le_bytes());
    }

    let mut rel = Vec::new();
    for (offset, sym) in [(0u64, 2u64), (16, 1)] {
        rel.extend_from_slice(&offset.to_le_bytes());
        rel.extend_from_slice(&(sym << 32 | 1).to_le_bytes());
    }

    let names = b"\0.text\0.symtab\0.strtab\0.rel.text\0.shstrtab\0";
    let mut obj = vec![0u8; 64];
    let mut place = |obj: &mut Vec<u8>, bytes: &[u8]| -> (u64, u64) {
        let at = obj.len() as u64;
        obj.extend_from_slice(bytes);
        (at, bytes.len() as u64)
    };
    let text_at = place(&mut obj, &text);
    let sym_at = place(&mut obj, &symtab);
    let str_at = place(&mut obj, &strtab);
    let rel_at = place(&mut obj, &rel);
    let names_at = place(&mut obj, names);
    let shoff = obj.len() as u64;
    let sections = [
        (0u32, 0u32, (0u64, 0u64), 0u32, 0u64),
        (1, 1, text_at, 0, 0),
        (7, 2, sym_at, 3, 24),
        (15, 3, str_at, 0, 0),
        (23, 9, rel_at, 2, 16),
        (33, 3, names_at, 0, 0),
    ];
    for (name, kind, (offset, size), link, entsize) in sections {
        let at = obj.len();
        put(&mut obj, at, &name.to_le_bytes());
        put(&mut obj, at + 4, &kind.to_le_bytes());
        put(&mut obj, at + 24, &offset.to_le_bytes());
        put(&mut obj, at + 32, &size.to_le_bytes());
        put(&mut obj, at + 40, &link.to_le_bytes());
        put(&mut obj, at + 56, &entsize.to_le_bytes());
    }
    put(&mut obj, 0, &[0x7f, 0x45, 0x4c, 0x46, 2, 1, 1]);
    put(&mut obj, 18, &247u16.to_le_bytes());
    put(&mut obj, 40, &shoff.to_le_bytes());
    put(&mut obj, 60, &6u16.to_le_bytes());
    put(&mut obj, 62, &5u16.to_le_bytes());
    obj
}

fn l2fwd_object() -> Vec<u8> {
    object("mac_dst")
}

fn l3fwd_object() -> Vec<u8> {
    object("ipv4_lpm")
}

#[test]
fn both_committed_objects_load() {
    for (name, obj) in [("l2fwd", l2fwd_object()), ("l3fwd", l3fwd_object())] {
        let p = load(&obj).unwrap_or_else(|e| panic!("{name}: {}", e.message()));
        assert!(!p.text.is_empty(), "{name} has no code");
        assert_eq!(p.text.len() % INSN_LEN, 0, "{name}: ragged .text");
        assert!(!p.maps.is_empty(), "{name} declares no maps");
    }
}

#[test]
fn each_table_gets_an_entry_map_and_a_default_action_map() {
    let p = load(&l2fwd_object()).expect("load");
    let entries: Vec<_> = p.maps.iter().filter(|m| !m.is_default).collect();
    let defaults: Vec<_> = p.maps.iter().filter(|m| m.is_default).collect();
    assert_eq!(entries.len(), 1, "{:?}", p.maps);
    assert_eq!(entries[0].table, "mac_dst");
    assert_eq!(defaults.len(), 1);
    assert_eq!(defaults[0].table, "mac_dst");
}

#[test]
fn l3fwds_table_is_the_route_table() {
    let p = load(&l3fwd_object()).expect("load");
    assert!(p.maps.iter().all(|m| m.table == "ipv4_lpm"), "{:?}", p.maps);
}

#[test]
fn relocations_are_replaced_by_map_indices() {
    // The load-bearing claim: after loading, the program refers to maps by
    // a small index, not by an address. Every index must name a real map,
    // or the helper would be handed something it cannot interpret.
    let p = load(&l2fwd_object()).expect("load");
    let mut seen = Vec::new();
    for insn in p.text.chunks_exact(INSN_LEN) {
        // `lddw` opcode.
        if insn[0] == 0x18 {
            let imm = u32::from_le_bytes(insn[4..8].try_into().expect("4 bytes"));
            seen.push(imm);
        }
    }
    assert!(!seen.is_empty(), "no lddw found; did the ABI change?");
    for imm in &seen {
        assert!(
            (*imm as usize) < p.maps.len() || *imm == 0,
            "immediate {imm} names no map (have {})",
            p.maps.len()
        );
    }
    assert_eq!(seen, vec![0, 1], "by address, not by the order of the symbols");
    assert!(!p.maps[0].is_default);
    assert!(p.maps[1].is_default);
    assert_eq!(&p.text[12..16], &[0, 0, 0, 0], "the high half is zero");
}

#[test]
fn a_map_symbol_is_split_into_its_table_and_role() {
    let m = MapRef::new("pipe_mac_dst".to_owned());
    assert_eq!(m.table, "mac_dst");
    assert!(!m.is_default);
    let d = MapRef::new("pipe_ipv4_lpm_defaultAction".to_owned());
    assert_eq!(d.table, "ipv4_lpm");
    assert!(d.is_default);
}

#[test]
fn rejections_name_the_claim_that_failed() {
    assert_eq!(load(b"not an elf at all").unwrap_err(), ElfError::NotElf);
    let mut truncated = l2fwd_object();
    truncated[18] = 0xff; // e_machine
    truncated[19] = 0x00;
    assert!(matches!(load(&truncated).unwrap_err(), ElfError::NotBpf { .. }));
    let mut not64 = l2fwd_object();
    not64[4] = 1;
    assert_eq!(load(&not64).unwrap_err(), ElfError::NotElf64Le);
}

#[test]
fn damaged_objects_are_named_too() {
    let whole = l2fwd_object();
    let cut = &whole[..whole.len() - 10];
    assert!(matches!(load(cut).unwrap_err(), ElfError::Truncated { .. }));

    let text_name = whole.windows(6).position(|w| w == b".text\0").expect("named");
    let mut nameless = whole.clone();
    nameless[text_name + 1] = b'X';
    assert_eq!(load(&nameless).unwrap_err(), ElfError::NoText);

    let rel = whole
        .windows(8)
        .position(|w| w == (2u64 << 32 | 1).to_le_bytes())
        .expect("relocation");
    let mut kind = whole.clone();
    kind[rel] = 9;
    assert_eq!(load(&kind).unwrap_err(), ElfError::UnknownRelocation { kind: 9 });
    let mut symbol = whole.clone();
    symbol[rel + 4] = 77;
    assert_eq!(load(&symbol).unwrap_err(), ElfError::UnresolvedSymbol { name: "77".into() });
    let mut range = whole.clone();
    range[rel - 8] = 0xf0;
    assert_eq!(load(&range).unwrap_err(), ElfError::RelocationOutOfRange { offset: 0xf0 });
    assert_eq!(
        ElfError::RelocationOutOfRange { offset: 0xf0 }.message(),
        "relocation at 0xf0 lies outside .text"
    );
}

#[test]
fn a_symbol_name_that_is_not_text_is_still_shown() {
    let mut obj = l2fwd_object();
    let at = obj.windows(8).position(|w| w == b"pipe_mac").expect("named");
    obj[at + 5] = 0xff;
    let p = load(&obj).expect("loads");
    assert_eq!(p.maps[0].table, "\u{fffd}ac_dst");
}

/// A 4-byte action, then the parameters, rounded to the struct's alignment.
#[test]
fn layouts_match_the_generated_header() {
    let l = Layout::scalar(8, 2);
    assert_eq!(l.key, 8);
    assert_eq!(l.value, 8, "4-byte action + 2-byte port, aligned to 4");
    assert_eq!(l.params_at, 4);
    let shipped = abi_of(Program::L2Fwd).layout;
    assert_eq!(shipped, l, "a single uint64 key and a uint16 port");
}

#[test]
fn a_value_image_places_the_action_then_its_parameters() {
    let l = Layout::scalar(8, 2);
    let v = l.value(0, &7u16.to_le_bytes());
    assert_eq!(v, vec![0, 0, 0, 0, 7, 0, 0, 0]);
    let broadcast = l.value(1, &[]);
    assert_eq!(broadcast, vec![1, 0, 0, 0, 0, 0, 0, 0]);
}

#[test]
fn an_entry_map_returns_nothing_on_a_miss() {
    // The signal the generated code needs: NULL sends it to the default
    // map. A table that always answered would make that path unreachable.
    let l = Layout::scalar(8, 2);
    let t = Table::new(Match::Exact, l, None);
    assert_eq!(t.lookup(&[1; 8]), None);
}

#[test]
fn an_exact_table_answers_the_default_on_a_miss() {
    let l = Layout::scalar(8, 2);
    let mut t = Table::new(Match::Exact, l, Some(l.value(1, &[])));
    assert_eq!(t.lookup(&[9; 8]).expect("default")[0], 1, "miss takes the default");
    t.insert(&[9; 8], 0, l.value(0, &3u16.to_le_bytes()));
    assert_eq!(t.lookup(&[9; 8]).expect("hit")[0], 0);
    assert_eq!(&t.lookup(&[9; 8]).expect("hit")[4..6], &3u16.to_le_bytes());
    assert!(t.remove(&[9; 8], 0));
    assert_eq!(
        t.lookup(&[9; 8]).expect("default")[0],
        1,
        "removal restores the default"
    );
}

#[test]
fn masking_keeps_the_leading_bits_of_a_little_endian_key() {
    // 10.1.2.3 as a little-endian u32 image.
    let key = 0x0a01_0203u32.to_le_bytes().to_vec();
    assert_eq!(mask(&key, 32), key);
    assert_eq!(mask(&key, 24), 0x0a01_0200u32.to_le_bytes().to_vec());
    assert_eq!(mask(&key, 8), 0x0a00_0000u32.to_le_bytes().to_vec());
    assert_eq!(mask(&key, 0), vec![0, 0, 0, 0]);
}

#[test]
fn masking_can_cut_within_a_byte() {
    let key = 0xffff_ffffu32.to_le_bytes().to_vec();
    assert_eq!(mask(&key, 13), 0xfff8_0000u32.to_le_bytes().to_vec());
    assert_eq!(mask(&key, 200), key);
}

#[test]
fn lpm_prefers_the_longest_match() {
    let l = Layout::scalar(4, 2);
    let mut t = Table::new(Match::Lpm, l, Some(l.value(2, &[])));
    let broad = 0x0a00_0000u32.to_le_bytes();
    let narrow = 0x0a01_0000u32.to_le_bytes();
    t.insert(&broad, 8, l.value(0, &1u16.to_le_bytes()));
    t.insert(&narrow, 16, l.value(0, &2u16.to_le_bytes()));

    let key = 0x0a01_0203u32.to_le_bytes();
    assert_eq!(&t.lookup(&key).expect("hit")[4..6], &2u16.to_le_bytes(), "/16 wins");

    let other = 0x0a02_0203u32.to_le_bytes();
    assert_eq!(
        &t.lookup(&other).expect("hit")[4..6],
        &1u16.to_le_bytes(),
        "/8 covers it"
    );

    let miss = 0x0b01_0203u32.to_le_bytes();
    assert_eq!(
        t.lookup(&miss).expect("default")[0],
        2,
        "outside every prefix: default"
    );
}

#[test]
fn clearing_reports_what_it_removed() {
    let l = Layout::scalar(8, 2);
    let mut t = Table::new(Match::Exact, l, Some(l.value(1, &[])));
    for i in 0..5u8 {
        t.insert(&[i; 8], 0, l.value(0, &[0, 0]));
    }
    assert_eq!(t.len(), 5);
    assert_eq!(t.clear(), 5);
    assert!(t.is_empty());
}

#[test]
fn entries_are_listed_by_prefix_and_image() {
    let l = Layout::scalar(4, 2);
    let mut t = Table::new(Match::Lpm, l, None);
    for (addr, len) in [(0x0a01_0000u32, 16), (0x0a00_0000, 8), (0x0a02_0000, 16)] {
        t.insert(&addr.to_le_bytes(), len, l.value(0, &[]));
    }
    t.set_default(l.value(2, &[]));
    let listed: Vec<(u8, Vec<u8>)> = t.iter().iter().map(|e| (e.prefix, e.key.clone())).collect();
    assert_eq!(
        listed,
        vec![
            (8, vec![0, 0, 0, 10]),
            (16, vec![0, 0, 1, 10]),
            (16, vec![0, 0, 2, 10]),
        ]
    );
    let copy = t.clone();
    assert!(t.remove(&0x0a00_0000u32.to_le_bytes(), 8));
    assert!(!t.remove(&0x0a00_0000u32.to_le_bytes(), 8));
    assert_eq!((t.len(), copy.len()), (2, 3));
    assert_eq!(t.layout(), l);
}

#[test]
fn the_prologue_is_two_loads_from_the_mbuff() {
    let p = prologue();
    assert_eq!(p[0], 0x79, "ldxdw");
    assert_eq!(p[1], 0x12, "dst r2, src r1");
    assert_eq!(i16::from_le_bytes([p[2], p[3]]), 8, "&std_meta at +8");
    assert_eq!(p[8], 0x79);
    assert_eq!(p[9], 0x11, "dst r1, src r1");
    assert_eq!(i16::from_le_bytes([p[10], p[11]]), 0, "ctx at +0");
}

#[test]
fn the_arena_holds_every_value_a_shipped_layout_produces() {
    for l in [Layout::scalar(8, 2), Layout::scalar(4, 8)] {
        assert!(l.value <= ARENA, "{l:?} does not fit the arena");
    }
    for program in Program::all() {
        assert!(abi_of(program).layout.value <= ARENA);
    }
}

#[test]
fn the_buffer_holds_the_token_and_the_metadata_address() {
    let mut want = 1u64.to_le_bytes().to_vec();
    want.extend_from_slice(&0x1122_3344_5566_7788u64.to_le_bytes());
    assert_eq!(mbuff(0x1122_3344_5566_7788), want);
}

#[test]
fn the_machine_checks_the_bytecode() {
    let p = load(&l2fwd_object()).expect("load");
    let vm = Vm::new(&p, 64).expect("sound bytecode");
    assert_eq!(&vm.text()[..16], &prologue());
    assert_eq!(&vm.text()[16..], &p.text[..]);
    assert_eq!(vm.packet(), &[0u8; 64][..]);

    let mut ragged = load(&l2fwd_object()).expect("load");
    ragged.text.pop();
    match Vm::new(&ragged, 64) {
        Err(VmError::Rejected(e)) => assert!(e.contains("multiple of 8"), "{e}"),
        other => panic!("{other:?}"),
    }
    match Vm::prepared(&p, 64, Err("no exit".into())) {
        Err(e) => assert_eq!(e.message(), "bytecode rejected: no exit"),
        Ok(_) => panic!("a fault was found"),
    }
}

#[test]
fn a_frame_larger_than_the_buffer_is_refused_not_truncated() {
    let p = load(&l2fwd_object()).expect("load");
    let mut vm = Vm::new(&p, 64).expect("prepare");
    let e = vm.start(&[0u8; 128], 0).expect_err("too long");
    assert_eq!(e, VmError::FrameTooLong { got: 128, cap: 64 });
    assert_eq!(e.message(), "frame of 128 exceeds 64");
}

#[test]
fn an_execution_starts_with_its_frame_and_ends_with_its_decision() {
    let p = load(&l2fwd_object()).expect("load");
    let mut vm = Vm::new(&p, 8).expect("prepare");
    vm.start(&[1, 2, 3], 5).expect("fits");
    assert_eq!(vm.packet(), &[1, 2, 3, 0, 0, 0, 0, 0]);
    let mut m = vm.meta().to_vec();
    assert_eq!(m.len(), meta::SIZE);
    assert_eq!(m[meta::INPUT_PORT], 5);
    assert_eq!(m[meta::PACKET_LENGTH], 3);
    assert_eq!(&m[meta::OUTPUT_PORT..meta::OUTPUT_PORT + 4], &NO_PORT.to_le_bytes());

    m[meta::OUTPUT_PORT..meta::OUTPUT_PORT + 4].copy_from_slice(&7u32.to_le_bytes());
    let after = [9u8; 8];
    let out = vm.finish(&after, &m, Ok(1), None).expect("decided");
    assert_eq!(out, Outcome { pass: true, output_port: 7, len: 3 });
    assert_eq!(vm.packet(), &after);

    assert_eq!(
        vm.finish(&after, &m, Ok(1), Some("ubpf_hash")),
        Err(VmError::Refused("ubpf_hash"))
    );
    assert_eq!(
        vm.finish(&after, &m, Err("fault".into()), None),
        Err(VmError::Rejected("fault".into()))
    );
}

#[test]
fn helpers_the_host_does_not_have_are_refused_by_name() {
    assert_eq!(refusal(MAP_UPDATE), Some("ubpf_map_update from the data plane"));
    assert_eq!(refusal(TRUNCATE_PACKET), Some("ubpf_truncate_packet"));
    assert_eq!(refusal(MAP_LOOKUP), None);
    assert_eq!(adjust_head(0), None);
    assert!(adjust_head(1).is_some());
    assert!(readable(1, 8));
    assert!(!readable(0, 8));
    assert!(!readable(1, 0));
    assert!(!readable(1, ARENA + 1));
}

#[test]
fn lookups_are_answered_from_the_tables() {
    let l = Layout::scalar(8, 2);
    let mut t = Table::new(Match::Exact, l, None);
    t.insert(&[9; 8], 0, l.value(0, &3u16.to_le_bytes()));
    let tables = [t];
    assert_eq!(key_width(&tables, 0), Some(8));
    assert_eq!(key_width(&tables, 1), None);
    assert_eq!(map_lookup(&tables, 0, &[9; 8]), Answer::Value(vec![0, 0, 0, 0, 3, 0, 0, 0]));
    assert_eq!(map_lookup(&tables, 0, &[8; 8]), Answer::Nothing);
    assert!(matches!(map_lookup(&tables, 0, &[9; 4]), Answer::Refused(_)));
    assert!(matches!(map_lookup(&tables, 7, &[9; 8]), Answer::Refused(_)));
}

fn mac(m: [u8; 6]) -> TypedKey {
    TypedKey::Exact(TypedVal::Mac(MacAddr::new(m)))
}

#[test]
fn a_mac_key_is_the_wire_bytes_read_as_a_big_endian_number() {
    let correct = 0x0000_aabb_ccdd_eeffu64.to_le_bytes();
    let reversed = 0xffee_ddcc_bbaa_0000u64.to_le_bytes();
    let raw = [DMAC[0], DMAC[1], DMAC[2], DMAC[3], DMAC[4], DMAC[5], 0, 0];

    let v = TypedVal::Mac(MacAddr::new(DMAC));
    assert_eq!(as_number(v), 0x0000_aabb_ccdd_eeff);
    assert_eq!(key_bytes(abi_of(Program::L2Fwd), v), correct);

    let mut p = UbpfPipeline::l2fwd(&l2fwd_object()).expect("load");
    p.table_add("mac_dst", mac(DMAC), "forward", &[TypedVal::U16(9)]).expect("install");
    let tables = p.published().load();
    let hits = |key: &[u8]| map_lookup(&tables, 0, key) == Answer::Value(vec![0, 0, 0, 0, 9, 0, 0, 0]);
    assert!(hits(&correct), "the settled encoding must hit");
    assert!(!hits(&reversed), "byte-reversed must not hit");
    assert!(!hits(&raw), "raw wire bytes must not hit");
}

#[test]
fn the_control_plane_refuses_what_the_schema_refuses() {
    let mut p = UbpfPipeline::l2fwd(&l2fwd_object()).expect("load");
    assert!(matches!(
        p.table_add("nope", TypedKey::Exact(TypedVal::U16(1)), "forward", &[]),
        Err(TableError::UnknownTable { .. })
    ));
    assert!(matches!(
        p.table_add(
            "mac_dst",
            TypedKey::Exact(TypedVal::U16(1)),
            "forward",
            &[TypedVal::U16(1)]
        ),
        Err(TableError::KeyKindMismatch { .. })
    ));
    assert!(matches!(
        p.table_add("mac_dst", mac(DMAC), "teleport", &[]),
        Err(TableError::UnknownAction { .. })
    ));
}

#[test]
fn dump_and_clear_report_what_is_installed() {
    let mut p = UbpfPipeline::l2fwd(&l2fwd_object()).expect("load");
    for i in 0..3u8 {
        p.table_add("mac_dst", mac([0x02, 0, 0, 0, 0, i]), "forward", &[TypedVal::U16(1)])
            .expect("install");
    }
    let d = p.table_dump("mac_dst").expect("dump");
    assert_eq!(d.len(), 3);
    assert!(d.iter().all(|e| e.action == "forward"));
    assert_eq!(d[0].key, "02:00:00:00:00:00");
    assert_eq!(p.table_clear("mac_dst").expect("clear"), 3);
    assert!(p.table_dump("mac_dst").expect("dump").is_empty());
}

#[test]
fn the_default_action_lives_in_a_map_and_can_be_replaced() {
    let mut p = UbpfPipeline::l2fwd(&l2fwd_object()).expect("load");
    assert_eq!(p.name(), "l2fwd/ubpf");
    assert_eq!(p.table_default("mac_dst").expect("default").action, "broadcast");
    assert_eq!(
        map_lookup(&p.published().load(), 1, &[0; 4]),
        Answer::Value(vec![1, 0, 0, 0, 0, 0, 0, 0])
    );
    p.table_set_default("mac_dst", "forward", &[TypedVal::U16(4)]).expect("set default");
    let d = p.table_default("mac_dst").expect("default");
    assert_eq!((d.key.as_str(), d.action.as_str()), ("*", "forward"));
    assert_eq!(d.params.get("port").map(String::as_str), Some("4"));
    assert_eq!(
        map_lookup(&p.published().load(), 1, &[0; 4]),
        Answer::Value(vec![0, 0, 0, 0, 4, 0, 0, 0])
    );
}

fn route(a: u8, b: u8, len: u8) -> TypedKey {
    TypedKey::Lpm { value: TypedVal::Ipv4(Ipv4Addr::new(a, b, 3, 4)), prefix_len: len }
}

fn route_key(addr: Ipv4Addr) -> Vec<u8> {
    key_bytes(abi_of(Program::L3Fwd), TypedVal::Ipv4(addr))
}

#[test]
fn routes_reach_the_machine_by_longest_prefix() {
    let mut p = UbpfPipeline::l3fwd(&l3fwd_object()).expect("load");
    let dmac = TypedVal::Mac(MacAddr::new(DMAC));
    p.table_add("ipv4_lpm", route(10, 0, 8), "forward", &[TypedVal::U16(1), dmac]).expect("add");
    p.table_add("ipv4_lpm", route(10, 1, 16), "punt", &[]).expect("add");
    let tables = p.published().load();
    let mut forward = vec![0u8; 24];
    forward[8] = 1;
    forward[16..24].copy_from_slice(&0x0000_aabb_ccdd_eeffu64.to_le_bytes());
    assert_eq!(
        map_lookup(&tables, 0, &route_key(Ipv4Addr::new(10, 9, 9, 9))),
        Answer::Value(forward.clone())
    );
    assert_eq!(
        value_bytes(abi_of(Program::L3Fwd), 0, &[TypedVal::U16(1), dmac]),
        forward
    );
    match map_lookup(&tables, 0, &route_key(Ipv4Addr::new(10, 1, 2, 3))) {
        Answer::Value(v) => assert_eq!(v[0], 1, "punt"),
        other => panic!("{other:?}"),
    }
    assert_eq!(map_lookup(&tables, 0, &route_key(Ipv4Addr::new(11, 0, 0, 1))), Answer::Nothing);

    let d = p.table_dump("ipv4_lpm").expect("dump");
    assert_eq!(d[0].key, "10.0.0.0/8", "shortest prefix first, without host bits");
    assert_eq!(d[1].key, "10.1.0.0/16");
    assert_eq!(d[0].params.get("dmac").map(String::as_str), Some("aa:bb:cc:dd:ee:ff"));
    assert!(p.table_remove("ipv4_lpm", route(10, 0, 8)).is_ok());
    assert_eq!(
        p.table_remove("ipv4_lpm", route(10, 7, 8)),
        Err(TableError::NotFound { table: "ipv4_lpm", key: "10.0.0.0/8".to_owned() }),
    );
    assert_eq!(p.table_dump("ipv4_lpm").expect("dump").len(), 1);
    assert!(p.table_add("ipv4_lpm", route(10, 0, 33), "punt", &[]).is_err());
}

#[test]
fn a_published_snapshot_does_not_change_under_a_reader() {
    let mut p = UbpfPipeline::l2fwd(&l2fwd_object()).expect("load");
    let before = p.published().load();
    let version = p.published().version();
    p.table_add("mac_dst", mac(DMAC), "drop", &[]).expect("install");
    let key = 0x0000_aabb_ccdd_eeffu64.to_le_bytes();
    assert_eq!(map_lookup(&before, 0, &key), Answer::Nothing);
    assert_ne!(p.published().version(), version);
    assert!(matches!(map_lookup(&p.published().load(), 0, &key), Answer::Value(_)));
}

#[test]
fn an_object_must_have_the_maps_of_its_program() {
    assert!(matches!(UbpfPipeline::l2fwd(b"junk"), Err(LoadError::Object(ElfError::NotElf))));
    match UbpfPipeline::l2fwd(&l3fwd_object()) {
        Err(LoadError::NoShape { table }) => assert_eq!(table, "ipv4_lpm"),
        other => panic!("{other:?}"),
    }
    let p = UbpfPipeline::l3fwd(&l3fwd_object()).expect("load");
    assert_eq!(p.program().maps.len(), 2);

    // Without its entry map's symbol type the object still loads, but has no
    // place for entries.
    let mut obj = l3fwd_object();
    let rel = obj.windows(8).position(|w| w == (2u64 << 32 | 1).to_le_bytes()).expect("rel");
    obj[rel + 4] = 1;
    let info: Vec<usize> = obj
        .windows(4)
        .enumerate()
        .filter(|(_, w)| *w == [0x11, 0, 3, 0])
        .map(|(i, _)| i)
        .collect();
    obj[info[1]] = 0x12;
    assert!(matches!(UbpfPipeline::l3fwd(&obj), Err(LoadError::NoEntryMap)));
    let mut obj = l3fwd_object();
    let rel = obj.windows(8).position(|w| w == (1u64 << 32 | 1).to_le_bytes()).expect("rel");
    obj[rel + 4] = 2;
    obj[info[0]] = 0x12;
    assert!(matches!(UbpfPipeline::l3fwd(&obj), Err(LoadError::NoDefaultMap)));
}

fn verdict(out: Result<Outcome, VmError>) -> (Verdict, Vec<u8>) {
    let mut buf = vec![0u8; MIN_HEADROOM + 8];
    let mut ctx = FrameCtx::new(&mut buf, MIN_HEADROOM, 4, 0, 0).expect("window fits");
    let v = conclude(&out, &[7; 16], &mut ctx);
    let frame = ctx.frame().to_vec();
    (v, frame)
}

#[test]
fn the_output_port_decides() {
    let out = |pass, output_port| Ok(Outcome { pass, output_port, len: 4 });
    assert_eq!(verdict(out(true, 3)), (Verdict::Forward(3), vec![7; 4]));
    assert_eq!(verdict(out(true, 65535)), (Verdict::Punt, vec![0; 4]));
    assert_eq!(verdict(out(true, 65534)), (Verdict::Broadcast, vec![0; 4]));
    assert_eq!(verdict(out(false, 3)), (Verdict::Drop, vec![0; 4]));
    assert_eq!(verdict(out(true, NO_PORT)), (Verdict::Drop, vec![0; 4]));
    assert_eq!(verdict(Err(VmError::Refused("ubpf_hash"))), (Verdict::Drop, vec![0; 4]));
}

/// Interchangeability is a claim about the *control plane* too: the same call
/// must be accepted by every backend of a program.
#[test]
fn every_backend_of_a_program_exposes_the_same_tables() {
    let params = PipelineParams::new(vec![0, 1]);
    for program in Program::all() {
        let native = build_selection(
            Selection::P4 { program, backend: Backend::Native },
            &params,
        )
        .expect("native");
        let ubpf = match program {
            Program::L2Fwd => UbpfPipeline::l2fwd(&l2fwd_object()),
            Program::L3Fwd => UbpfPipeline::l3fwd(&l3fwd_object()),
        }
        .expect("load");
        let a: Vec<&str> = native.schemas().iter().map(|s| s.name).collect();
        let b: Vec<&str> = ubpf.schemas().iter().map(|s| s.name).collect();
        assert_eq!(a, b, "{}: backends disagree about their tables", program.name());
    }
}

#[test]
fn both_backends_take_and_refuse_the_same_writes() {
    let mut compiled = UbpfPipeline::l2fwd(&l2fwd_object()).expect("load");
    let mut native = build_selection(
        Selection::P4 { program: Program::L2Fwd, backend: Backend::Native },
        &PipelineParams::new(vec![0, 1]),
    )
    .expect("built in");
    let port = [TypedVal::U16(1)];
    for (table, key, action, params) in [
        ("mac_dst", mac(DMAC), "forward", &port[..]),
        ("mac_dst", mac(DMAC), "forward", &[][..]),
        ("mac_dst", mac(DMAC), "teleport", &[][..]),
        ("mac_dst", TypedKey::Exact(TypedVal::U16(1)), "forward", &port[..]),
        ("nope", mac(DMAC), "forward", &port[..]),
    ] {
        assert_eq!(
            compiled.table_add(table, key, action, params),
            native.table_add(table, key, action, params),
        );
        assert_eq!(
            compiled.table_set_default(table, action, params),
            native.table_set_default(table, action, params),
        );
    }
    assert_eq!(compiled.table_remove("mac_dst", mac(DMAC)), Ok(()));
    assert_eq!(native.table_remove("mac_dst", mac(DMAC)), Ok(()));
    let again = compiled.table_remove("mac_dst", mac(DMAC));
    assert!(matches!(again, Err(TableError::NotFound { .. })));
    assert_eq!(again, native.table_remove("mac_dst", mac(DMAC)));
    assert_eq!(compiled.table_clear("mac_dst"), Ok(0));
    assert_eq!(native.table_clear("mac_dst"), Ok(0));
}

#[test]
fn every_selection_builds_and_names_itself() {
    let params = PipelineParams::new(vec![0, 1]);
    for program in Program::all() {
        let sel = Selection::P4 { program, backend: Backend::Native };
        let p = build_selection(sel, &params).expect("built in");
        assert_eq!(p.name(), sel.name(), "pipeline reports its selection");
        assert_eq!(p.engine().name(), sel.name(), "engine agrees");

        let sel = Selection::P4 { program, backend: Backend::Ubpf };
        let p = match program {
            Program::L2Fwd => UbpfPipeline::l2fwd(&l2fwd_object()),
            Program::L3Fwd => UbpfPipeline::l3fwd(&l3fwd_object()),
        }
        .expect("load");
        assert_eq!(p.name(), sel.name(), "pipeline reports its selection");
    }
}

fn section(kind: u32, offset: u64, size: u64) -> RawSection {
    RawSection { name: 0, kind, offset, size, link: 0, entsize: 0 }
}

fn symbol(name: &str, value: u64) -> Symbol {
    Symbol { name: name.to_owned(), kind: STT_OBJECT, value }
}

#[test]
fn names_decide_what_is_linked() {
    // Sixteen bytes of code, and a relocation of its first instruction against
    // symbol 0.
    let mut obj = vec![0x18, 1, 0, 0, 9, 9, 9, 9, 0, 0, 0, 0, 9, 9, 9, 9];
    obj.extend_from_slice(&0u64.to_le_bytes());
    obj.extend_from_slice(&1u64.to_le_bytes());
    let raws = [section(1, 0, 16), section(SHT_REL, 16, 16)];
    let names = [".text".to_owned(), ".rel.text".to_owned()];
    let symbols = || Ok(vec![symbol("pipe_t", 8), symbol("pipe_t_defaultAction", 0)]);

    let p = link_by_name(&obj, &raws, &names, symbols()).expect("links");
    assert_eq!(p.text, [0x18, 1, 0, 0, 1, 0, 0, 0, 0, 0, 0, 0, 0, 0, 0, 0]);
    let maps: Vec<(&str, bool)> =
        p.maps.iter().map(|m| (m.table.as_str(), m.is_default)).collect();
    assert_eq!(maps, [("t", true), ("t", false)]);

    let other = [".text".to_owned(), ".rel.data".to_owned()];
    let p = link_by_name(&obj, &raws, &other, symbols()).expect("links");
    assert_eq!(p.text, obj[..16], "other relocations are not its own");

    let none = ["text".to_owned(), ".rel.text".to_owned()];
    assert_eq!(link_by_name(&obj, &raws, &none, symbols()).err(), Some(ElfError::NoText));
    let unread = Err(ElfError::Truncated { what: "st_name" });
    assert_eq!(
        link_by_name(&obj, &raws, &names, unread).err(),
        Some(ElfError::Truncated { what: "st_name" }),
    );
    assert_eq!(
        link_by_name(&obj, &raws, &names, Ok(vec![symbol("", 0)])).err(),
        Some(ElfError::UnresolvedSymbol { name: String::new() }),
    );
}
