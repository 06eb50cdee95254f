//! `l3fwd`: an IPv4 router.
//!
//! ```text
//! parser          extract ethernet                         -> Ethernet::parse
//!                 select(ethertype) 0x0800: extract ipv4   -> Ipv4::parse
//! control ingress if (ipv4.ttl == 0) drop                  -> the TTL guard
//!                 ipv4_lpm.apply()
//! table ipv4_lpm  key     = { hdr.ipv4.dst : lpm }         -> LpmTable<_>
//!                 actions = { forward; punt; drop }
//!                 default_action = drop                    -> LpmTable default
//! action forward(port, dmac)  ipv4.ttl = ipv4.ttl - 1
//!                             ethernet.dst = dmac
//! deparser        emit ethernet, ipv4                      -> in place
//! ```
//!
//! Because `forward` rewrites the IPv4 header, the inner checksums are
//! zero-filled on that path and only that path: a frame that is dropped or
//! punted leaves the switch untouched, and a frame that is forwarded carries
//! no checksum that pretends to describe its new TTL.
//!
//! The source MAC is deliberately not rewritten: vports have no MAC addresses
//! of their own.
use crate::engine::{Engine, Pipeline, PipelineParams, Verdict};
use crate::frame::FrameCtx;
use crate::headers::{
    inner_ipv4, without_checksums, zero_inner_checksums, Ethernet, Ipv4, ETHERTYPE_IPV4,
    ETH_HDR_LEN,
};
use crate::lpm::{
    law_longest_match_wins, law_masks_select_leading_bits, law_miss_takes_default,
    law_prefixes_are_canonical, lists_routes, longest_match, mask_bits, Ipv4Prefix, LpmTable,
};
use crate::net::Ipv4Addr;
use crate::ops::{
    describe_call, described, entry_models, is_dump, schema_models, Call, Style, SurfaceModel,
    TableModel, TableOps,
};
use crate::programs::{lpm_ipv4, param_mac, param_u16, prefix_key};
use crate::shim::{
    ActionModel, ActionSchema, EntryDesc, KeyKind, ParamModel, ParamSchema, SchemaModel,
    TableError, TableErrorModel, TableSchema, TypedKey,
};
use crate::table::{law_views_follow_updates, Cached, Shared};
use crate::text::same;
use crate::value::{MacAddr, TypedVal, ValKind};
use vstd::prelude::*;

verus! {

/// Registered name.
pub const NAME: &'static str = "l3fwd";

/// The table's control-plane contract.
pub open spec fn schema_model() -> SchemaModel {
    SchemaModel {
        name: "ipv4_lpm"@,
        key_field: "ipv4.dst"@,
        key: KeyKind::Lpm(ValKind::Ipv4),
        actions: seq![
            ActionModel {
                name: "forward"@,
                params: seq![
                    ParamModel { name: "port"@, kind: ValKind::U16 },
                    ParamModel { name: "dmac"@, kind: ValKind::Mac },
                ],
            },
            ActionModel { name: "punt"@, params: Seq::empty() },
            ActionModel { name: "drop"@, params: Seq::empty() },
        ],
    }
}

/// The table's control-plane contract.
pub fn table_schemas() -> (r: &'static [TableSchema])
    ensures
        r@.len() == 1,
        r@[0]@ == schema_model(),
{
    let r: &'static [TableSchema] = &[
        TableSchema {
            name: "ipv4_lpm",
            key_field: "ipv4.dst",
            key: KeyKind::Lpm(ValKind::Ipv4),
            actions: &[
                ActionSchema {
                    name: "forward",
                    params: &[
                        ParamSchema { name: "port", kind: ValKind::U16 },
                        ParamSchema { name: "dmac", kind: ValKind::Mac },
                    ],
                },
                ActionSchema { name: "punt", params: &[] },
                ActionSchema { name: "drop", params: &[] },
            ],
        },
    ];
    proof {
        let m = schema_model();
        assert(r@[0]@.actions[0].params =~= m.actions[0].params);
        assert(r@[0]@.actions[1].params =~= m.actions[1].params);
        assert(r@[0]@.actions[2].params =~= m.actions[2].params);
        assert(r@[0]@.actions =~= m.actions);
    }
    r
}

/// The actions `ipv4_lpm` may run, closed.
#[derive(Clone, Copy, Debug, PartialEq, Eq, Structural)]
pub enum Action {
    /// Route the frame.
    Forward {
        /// The vport to send it to.
        port: u16,
        /// The next hop's address.
        dmac: MacAddr,
    },
    /// Deliver to the control channel.
    Punt,
    /// Discard.
    Drop,
}

/// The names of the actions differ.
proof fn lemma_names()
    ensures
        "forward"@ != "punt"@,
        "forward"@ != "drop"@,
        "punt"@ != "drop"@,
{
    reveal_strlit("forward");
    reveal_strlit("punt");
    reveal_strlit("drop");
    assert("forward"@[0] == 'f');
    assert("punt"@[0] == 'p');
    assert("drop"@[0] == 'd');
}

impl Action {
    /// The call that the control plane sees.
    pub open spec fn call(self) -> Call {
        match self {
            Action::Forward { port, dmac } => Call {
                action: 0,
                params: seq![TypedVal::U16(port), TypedVal::Mac(dmac)],
            },
            Action::Punt => Call { action: 1, params: Seq::empty() },
            Action::Drop => Call { action: 2, params: Seq::empty() },
        }
    }

    /// Build the action a control-plane call names, after the schema has
    /// checked its arity and parameter kinds.
    fn from_call(schema: &TableSchema, action: &str, params: &[TypedVal]) -> (r: Result<
        Self,
        TableError,
    >)
        requires
            schema@ == schema_model(),
        ensures
            r matches Ok(a) ==> schema_model().checked(action@, params@) is Ok && a.call() == (
            Call { action: schema_model().checked(action@, params@)->Ok_0, params: params@ }),
            r matches Err(e) ==> schema_model().checked(action@, params@) == Err::<
                int,
                TableErrorModel,
            >(e@),
    {
        let sig: &'static ActionSchema = match schema.check(action, params) {
            Ok(sig) => sig,
            Err(e) => {
                return Err(e);
            },
        };
        proof {
            lemma_names();
            reveal_with_fuel(SchemaModel::action_from, 4);
            reveal_with_fuel(SchemaModel::mismatch_from, 3);
        }
        if same(sig.name, "forward") {
            let port: u16 = match param_u16(schema, sig.name, params, 0) {
                Ok(port) => port,
                Err(e) => {
                    return Err(e);
                },
            };
            let dmac: MacAddr = match param_mac(schema, sig.name, params, 1) {
                Ok(dmac) => dmac,
                Err(e) => {
                    return Err(e);
                },
            };
            assert(params@ =~= seq![TypedVal::U16(port), TypedVal::Mac(dmac)]);
            Ok(Action::Forward { port, dmac })
        } else if same(sig.name, "punt") {
            assert(params@ =~= Seq::empty());
            Ok(Action::Punt)
        } else {
            assert(params@ =~= Seq::empty());
            Ok(Action::Drop)
        }
    }

    fn describe(self, key: String) -> (r: EntryDesc)
        ensures
            r@ == described(schema_model(), key@, self.call()),
    {
        let schema: &'static TableSchema = &table_schemas()[0];
        assert(schema@.actions.len() == 3);
        match self {
            Action::Forward { port, dmac } => {
                let sig: &ActionSchema = &schema.actions[0];
                assert(sig@ == schema@.actions[0]);
                let values: [TypedVal; 2] = [TypedVal::U16(port), TypedVal::Mac(dmac)];
                assert(values@ =~= self.call().params);
                describe_call(sig, key, values.as_slice())
            },
            Action::Punt => {
                let sig: &ActionSchema = &schema.actions[1];
                assert(sig@ == schema@.actions[1]);
                let values: Vec<TypedVal> = Vec::new();
                assert(values@ =~= self.call().params);
                describe_call(sig, key, values.as_slice())
            },
            Action::Drop => {
                let sig: &ActionSchema = &schema.actions[2];
                assert(sig@ == schema@.actions[2]);
                let values: Vec<TypedVal> = Vec::new();
                assert(values@ =~= self.call().params);
                describe_call(sig, key, values.as_slice())
            },
        }
    }
}

/// The routing table.
pub type Routes = LpmTable<Action>;

/// The loaded `l3fwd` program.
#[derive(Debug)]
pub struct L3Fwd {
    ipv4_lpm: Shared<Routes>,
}

/// The key under which the control plane sees the route of `len` bits at
/// `base`.
pub open spec fn route_key(len: u8, base: u32) -> TypedKey {
    TypedKey::Lpm { value: TypedVal::Ipv4(Ipv4Addr { bits: base }), prefix_len: len }
}

spec fn calls(routes: Map<(u8, u32), Action>) -> Map<TypedKey, Call> {
    Map::new(
        |k: TypedKey|
            k matches TypedKey::Lpm { value: TypedVal::Ipv4(a), prefix_len } && routes.contains_key(
                (prefix_len, a.bits),
            ),
        |k: TypedKey| routes[(k->prefix_len, k.spec_value()->Ipv4_0.bits)].call(),
    )
}

spec fn model_of(routes: Routes) -> TableModel {
    TableModel {
        style: Style::Typed,
        schema: schema_model(),
        entries: calls(routes@),
        default: routes.default().call(),
    }
}

/// The call of the longest route of at most `len` bits that covers `addr`.
pub open spec fn routed(
    entries: Map<TypedKey, Call>,
    default: Call,
    addr: u32,
    len: int,
) -> Call
    decreases len + 1,
{
    if len < 0 {
        default
    } else if entries.contains_key(route_key(len as u8, addr & mask_bits(len as u8))) {
        entries[route_key(len as u8, addr & mask_bits(len as u8))]
    } else {
        routed(entries, default, addr, len - 1)
    }
}

proof fn lemma_routed(routes: Routes, addr: u32, len: int)
    requires
        len <= 32,
    ensures
        routed(calls(routes@), routes.default().call(), addr, len) == longest_match(
            routes@,
            routes.default(),
            addr,
            len,
        ).call(),
    decreases len + 1,
{
    if len >= 0 {
        lemma_routed(routes, addr, len - 1);
    }
}

/// A frame as a router sends it on: one hop less to live, addressed to the
/// next hop, without the checksums that no longer hold.
pub open spec fn forwarded(frame: Seq<u8>, ttl: u8, dmac: MacAddr) -> Seq<u8> {
    without_checksums(Ethernet::with_dst(frame.update(ETH_HDR_LEN + 8, (ttl - 1) as u8), dmac))
}

/// What the program does with a frame.
pub open spec fn routed_frame(table: TableModel, frame: Seq<u8>) -> (Verdict, Seq<u8>) {
    match inner_ipv4(frame) {
        Some(ip) if ip.ttl > 0 => {
            let call = routed(table.entries, table.default, ip.dst.bits, 32);
            if call.action == 0 {
                match (call.params[0], call.params[1]) {
                    (TypedVal::U16(port), TypedVal::Mac(dmac)) => (
                        Verdict::Forward(port),
                        forwarded(frame, ip.ttl, dmac),
                    ),
                    _ => (Verdict::Drop, frame),
                }
            } else if call.action == 1 {
                (Verdict::Punt, frame)
            } else {
                (Verdict::Drop, frame)
            }
        },
        _ => (Verdict::Drop, frame),
    }
}

/// The table of a program that was just loaded: no routes, so every frame is
/// dropped.
pub open spec fn initial() -> TableModel {
    TableModel::fresh(Style::Typed, schema_model(), Action::Drop.call())
}

impl L3Fwd {
    closed spec fn routes(&self) -> Routes {
        self.ipv4_lpm.value()
    }

    /// Load the program. With no routes installed every frame is dropped, and
    /// the engine-drop counter says so.
    #[must_use]
    pub fn new(_params: &PipelineParams) -> (r: Self)
        ensures
            r.inv(),
            r.surface() == (SurfaceModel { owner: NAME@, table: Some(initial()) }),
            r.generation() == 0,
    {
        let r = L3Fwd { ipv4_lpm: Shared::new(LpmTable::new(Action::Drop)) };
        assert(calls(r.routes()@) =~= Map::empty());
        r
    }

    fn own_schema(&self, table: &str) -> (r: Result<&'static TableSchema, TableError>)
        requires
            self.inv(),
        ensures
            r matches Ok(s) ==> s@ == schema_model() && table@ == s@.name,
            r matches Err(e) ==> self.surface().table(table@) == Err::<
                TableModel,
                TableErrorModel,
            >(e@),
    {
        self.schema(table)
    }
}

impl TableOps for L3Fwd {
    closed spec fn inv(&self) -> bool {
        self.routes().wf()
    }

    closed spec fn surface(&self) -> SurfaceModel {
        SurfaceModel { owner: NAME@, table: Some(model_of(self.routes())) }
    }

    closed spec fn generation(&self) -> u64 {
        self.ipv4_lpm.spec_version()
    }

    open spec fn same_program(&self, before: &Self) -> bool {
        true
    }

    closed spec fn continues(&self, before: &Self) -> bool {
        self.ipv4_lpm.continues(&before.ipv4_lpm)
    }

    proof fn lemma_continues(a: &Self, b: &Self, c: &Self) {
    }

    fn schemas(&self) -> (r: &'static [TableSchema]) {
        let r: &'static [TableSchema] = table_schemas();
        assert(schema_models(r@) =~= self.surface().schemas());
        r
    }

    fn table_add(&mut self, table: &str, key: TypedKey, action: &str, params: &[TypedVal]) -> (r:
        Result<(), TableError>) {
        let schema: &'static TableSchema = match self.own_schema(table) {
            Ok(s) => s,
            Err(e) => {
                return Err(e);
            },
        };
        let prefix: Ipv4Prefix = match lpm_ipv4(schema, key) {
            Ok(p) => p,
            Err(e) => {
                return Err(e);
            },
        };
        let action: Action = match Action::from_call(schema, action, params) {
            Ok(a) => a,
            Err(e) => {
                return Err(e);
            },
        };
        let ghost before = self.routes();
        let mut next: Routes = (*self.ipv4_lpm.load()).clone();
        next.insert(prefix, action);
        self.ipv4_lpm.publish(next);
        assert(calls(self.routes()@) =~= calls(before@).insert(prefix_key(prefix), action.call()));
        Ok(())
    }

    fn table_remove(&mut self, table: &str, key: TypedKey) -> (r: Result<(), TableError>) {
        let schema: &'static TableSchema = match self.own_schema(table) {
            Ok(s) => s,
            Err(e) => {
                return Err(e);
            },
        };
        let prefix: Ipv4Prefix = match lpm_ipv4(schema, key) {
            Ok(p) => p,
            Err(e) => {
                return Err(e);
            },
        };
        let ghost before = self.routes();
        let mut next: Routes = (*self.ipv4_lpm.load()).clone();
        let removed: bool = next.remove(prefix);
        self.ipv4_lpm.publish(next);
        assert(calls(self.routes()@) =~= calls(before@).remove(prefix_key(prefix)));
        if removed {
            Ok(())
        } else {
            assert(calls(before@) =~= calls(before@).remove(prefix_key(prefix)));
            Err(TableError::NotFound { table: schema.name, key: prefix.to_text() })
        }
    }

    fn table_dump(&self, table: &str) -> (r: Result<Vec<EntryDesc>, TableError>) {
        match self.own_schema(table) {
            Ok(_) => {},
            Err(e) => {
                return Err(e);
            },
        }
        let routes = self.ipv4_lpm.load();
        let list: Vec<(Ipv4Prefix, Action)> = routes.iter();
        let mut entries: Vec<EntryDesc> = Vec::new();
        let ghost m = model_of(self.routes());
        let ghost keys: Seq<TypedKey> = Seq::new(list@.len(), |i: int| prefix_key(list@[i].0));
        let mut i: usize = 0;
        while i < list.len()
            invariant
                i <= list@.len(),
                entries@.len() == i,
                lists_routes(list@, self.routes()@),
                m == model_of(self.routes()),
                keys == Seq::new(list@.len(), |i: int| prefix_key(list@[i].0)),
                forall|j: int|
                    0 <= j < i ==> (#[trigger] entries@[j])@ == described(
                        m.schema,
                        keys[j].spec_text(),
                        m.entries[keys[j]],
                    ),
            decreases list.len() - i,
        {
            let (prefix, action) = list[i];
            assert(self.routes()@.contains_key(list@[i as int].0.key()));
            entries.push(action.describe(prefix.to_text()));
            i += 1;
        }
        proof {
            assert forall|k: TypedKey| #[trigger] m.entries.contains_key(k) implies keys.contains(
                k,
            ) by {
                let key = (k->prefix_len, k.spec_value()->Ipv4_0.bits);
                assert(self.routes()@.contains_key(key));
                let i = choose|i: int| 0 <= i < list@.len() && (#[trigger] list@[i]).0.key() == key;
                assert(keys[i] == k);
            }
            assert forall|i: int, j: int| 0 <= i < j < keys.len() implies crate::ops::dumped_before(
                m.style,
                #[trigger] keys[i],
                #[trigger] keys[j],
            ) by {
                assert(crate::lpm::listed_before(list@[i].0.key(), list@[j].0.key()));
            }
            assert forall|i: int| 0 <= i < keys.len() implies m.entries.contains_key(
                #[trigger] keys[i],
            ) by {
                assert(self.routes()@.contains_key(list@[i].0.key()));
            }
            assert(is_dump(m, entry_models(entries@), keys));
        }
        Ok(entries)
    }

    fn table_default(&self, table: &str) -> (r: Result<EntryDesc, TableError>) {
        match self.own_schema(table) {
            Ok(_) => {},
            Err(e) => {
                return Err(e);
            },
        }
        let routes = self.ipv4_lpm.load();
        let default: Action = *routes.default_action();
        Ok(default.describe("*".to_owned()))
    }

    fn table_set_default(&mut self, table: &str, action: &str, params: &[TypedVal]) -> (r: Result<
        (),
        TableError,
    >) {
        let schema: &'static TableSchema = match self.own_schema(table) {
            Ok(s) => s,
            Err(e) => {
                return Err(e);
            },
        };
        let action: Action = match Action::from_call(schema, action, params) {
            Ok(a) => a,
            Err(e) => {
                return Err(e);
            },
        };
        let mut next: Routes = (*self.ipv4_lpm.load()).clone();
        next.set_default(action);
        self.ipv4_lpm.publish(next);
        Ok(())
    }

    fn table_clear(&mut self, table: &str) -> (r: Result<usize, TableError>) {
        match self.own_schema(table) {
            Ok(_) => {},
            Err(e) => {
                return Err(e);
            },
        }
        let ghost before = self.routes();
        let mut next: Routes = (*self.ipv4_lpm.load()).clone();
        let n: usize = next.clear();
        self.ipv4_lpm.publish(next);
        proof {
            let f = |p: (u8, u32)| route_key(p.0, p.1);
            assert(before@.dom().map(f) =~= calls(before@).dom()) by {
                assert forall|k: TypedKey| #[trigger] calls(before@).dom().contains(
                    k,
                ) implies before@.dom().map(f).contains(k) by {
                    assert(f((k->prefix_len, k.spec_value()->Ipv4_0.bits)) == k);
                }
            }
            vstd::set_lib::lemma_map_size(before@.dom(), calls(before@).dom(), f);
            assert(calls(self.routes()@) =~= Map::empty());
        }
        Ok(n)
    }
}

impl Pipeline for L3Fwd {
    type Engine = L3Engine;

    fn name(&self) -> (r: &'static str) {
        NAME
    }

    fn engine(&self) -> (r: L3Engine) {
        L3Engine { ipv4_lpm: Cached::new(&self.ipv4_lpm) }
    }

    proof fn lemma_engines_follow(before: &Self, after: &Self, engine: &L3Engine) {
        law_views_follow_updates(engine.ipv4_lpm, before.ipv4_lpm, after.ipv4_lpm);
    }
}

/// One shard's view of `l3fwd`.
#[derive(Debug)]
pub struct L3Engine {
    ipv4_lpm: Cached<Routes>,
}

impl Engine<L3Fwd> for L3Engine {
    closed spec fn follows(&self, program: &L3Fwd) -> bool {
        self.ipv4_lpm.follows(&program.ipv4_lpm)
    }

    open spec fn decision(program: &L3Fwd, ingress: u16, frame: Seq<u8>) -> (Verdict, Seq<u8>) {
        routed_frame(program.surface().table->0, frame)
    }

    fn process(&mut self, program: &L3Fwd, f: &mut FrameCtx<'_>) -> (v: Verdict) {
        let eth: Ethernet = match Ethernet::parse(f.frame()) {
            Some(eth) => eth,
            None => {
                return Verdict::Drop;
            },
        };
        if eth.ethertype != ETHERTYPE_IPV4 {
            return Verdict::Drop;
        }
        let ip: Ipv4 = match Ipv4::parse(f.frame(), ETH_HDR_LEN) {
            Some(ip) => ip,
            None => {
                return Verdict::Drop;
            },
        };
        if ip.ttl == 0 {
            return Verdict::Drop;
        }
        proof {
            lemma_routed(program.routes(), ip.dst.bits, 32);
        }
        let action: Action = *self.ipv4_lpm.get(&program.ipv4_lpm).apply(ip.dst);
        match action {
            Action::Forward { port, dmac } => {
                let frame: &mut [u8] = f.frame_mut();
                ip.set_ttl(frame, ip.ttl - 1);
                Ethernet::set_dst(frame, dmac);
                zero_inner_checksums(frame);
                Verdict::Forward(port)
            },
            Action::Punt => Verdict::Punt,
            Action::Drop => Verdict::Drop,
        }
    }

    open spec fn program_name(&self) -> Seq<char> {
        NAME@
    }

    fn name(&self) -> (r: &'static str) {
        NAME
    }
}

/// A frame that is not forwarded leaves the router untouched.
pub proof fn law_l3_only_forwarding_modifies(table: TableModel, frame: Seq<u8>)
    ensures
        !(routed_frame(table, frame).0 is Forward) ==> routed_frame(table, frame).1 == frame,
{
}

/// A frame that is not IPv4, or that has no hop left to live, is dropped
/// whatever the table holds.
pub proof fn law_l3_drops_what_it_cannot_route(table: TableModel, frame: Seq<u8>)
    requires
        inner_ipv4(frame) is None || inner_ipv4(frame)->0.ttl == 0,
    ensures
        routed_frame(table, frame) == (Verdict::Drop, frame),
{
}

/// Forwarding decrements the TTL, rewrites the destination address and clears
/// the checksums, and touches nothing else.
pub proof fn law_l3_forwarding_rewrites(frame: Seq<u8>, ip: Ipv4, dmac: MacAddr, i: int)
    requires
        inner_ipv4(frame) == Some(ip),
        ip.ttl > 0,
        0 <= i < frame.len(),
    ensures
        ({
            let out = forwarded(frame, ip.ttl, dmac);
            let checksum = ETH_HDR_LEN + 10 <= i < ETH_HDR_LEN + 12 || (
            crate::headers::l4_checksum_at(ip) is Some && crate::headers::l4_checksum_at(ip)->0 <= i
                < crate::headers::l4_checksum_at(ip)->0 + 2);
            &&& out.len() == frame.len()
            &&& 0 <= i < 6 ==> out[i] == dmac.spec_octets()[i]
            &&& i == ETH_HDR_LEN + 8 ==> out[i] == ip.ttl - 1
            &&& ETH_HDR_LEN + 10 <= i < ETH_HDR_LEN + 12 ==> out[i] == 0
            &&& i >= 6 && i != ETH_HDR_LEN + 8 && !checksum ==> out[i] == frame[i]
        }),
{
    let aged = frame.update(ETH_HDR_LEN + 8, (ip.ttl - 1) as u8);
    let sent = Ethernet::with_dst(aged, dmac);
    assert(inner_ipv4(sent) == Some(Ipv4 { ttl: (ip.ttl - 1) as u8, ..ip }));
}

/// The route of `len` bits at `base` covers `addr`: the two agree in their
/// `len` leading bits.
pub open spec fn covers(base: u32, len: u8, addr: u32) -> bool {
    len <= 32 && (addr as u64) >> ((32 - len) as u64) == (base as u64) >> ((32 - len) as u64)
}

/// `frame` is an Ethernet frame with a whole IPv4 header that has a hop left
/// to live and is addressed to `dst`.
pub open spec fn routable(frame: Seq<u8>, dst: u32) -> bool {
    &&& frame.len() >= 34
    &&& frame[12] == 0x08
    &&& frame[13] == 0x00
    &&& frame[14] / 16 == 4
    &&& frame[14] % 16 >= 5
    &&& 14 + (frame[14] % 16) * 4 <= frame.len()
    &&& frame[22] > 0
    &&& dst == frame[30] * 0x100_0000 + frame[31] * 0x1_0000 + frame[32] * 0x100 + frame[33]
}

/// `out` is `frame` sent on to `dmac`: the destination address is replaced,
/// the TTL is one less, the header checksum and that of TCP or UDP, where the
/// frame holds one, are zero, and every other byte is as it was.
pub open spec fn sent_on(frame: Seq<u8>, out: Seq<u8>, dmac: MacAddr) -> bool {
    let l4 = 14 + (frame[14] % 16) * 4;
    let tcp = frame[23] == 6 && l4 + 18 <= frame.len();
    let udp = frame[23] == 17 && l4 + 8 <= frame.len();
    &&& out.len() == frame.len()
    &&& out[0] * 0x100 + out[1] == dmac.hi
    &&& out[2] * 0x100_0000 + out[3] * 0x1_0000 + out[4] * 0x100 + out[5] == dmac.lo
    &&& out[22] == frame[22] - 1
    &&& out[24] == 0 && out[25] == 0
    &&& tcp ==> out[l4 + 16] == 0 && out[l4 + 17] == 0
    &&& udp ==> out[l4 + 6] == 0 && out[l4 + 7] == 0
    &&& forall|i: int|
        6 <= i < frame.len() && i != 22 && i != 24 && i != 25 && !(tcp && l4 + 16 <= i < l4 + 18)
            && !(udp && l4 + 6 <= i < l4 + 8) ==> (#[trigger] out[i]) == frame[i]
}

/// `decision` is what the action called `action` makes of `frame`.
pub open spec fn carries_out(
    decision: (Verdict, Seq<u8>),
    action: Seq<char>,
    params: Seq<TypedVal>,
    frame: Seq<u8>,
) -> bool {
    &&& action == "forward"@ || action == "punt"@ || action == "drop"@
    &&& action == "forward"@ ==> params[0] is U16 && params[1] is Mac && decision.0
        == Verdict::Forward(params[0]->U16_0) && sent_on(frame, decision.1, params[1]->Mac_0)
    &&& action == "punt"@ ==> decision == (Verdict::Punt, frame)
    &&& action == "drop"@ ==> decision == (Verdict::Drop, frame)
}

#[verifier::rlimit(40)]
proof fn lemma_sent_on(frame: Seq<u8>, ip: Ipv4, dmac: MacAddr)
    requires
        inner_ipv4(frame) == Some(ip),
        ip.ttl > 0,
    ensures
        sent_on(frame, forwarded(frame, ip.ttl, dmac), dmac),
{
    let out = forwarded(frame, ip.ttl, dmac);
    let aged = frame.update(ETH_HDR_LEN + 8, (ip.ttl - 1) as u8);
    let sent = Ethernet::with_dst(aged, dmac);
    assert(inner_ipv4(sent) == Some(Ipv4 { ttl: (ip.ttl - 1) as u8, ..ip }));
    crate::bytes::lemma_be32_round_trip(dmac.lo as int);
    crate::bytes::lemma_be16_round_trip(dmac.hi as int);
    assert(forall|i: int| 0 <= i < 6 ==> #[trigger] out[i] == dmac.spec_octets()[i]);
}

proof fn lemma_carries_out(table: TableModel, action: Action, frame: Seq<u8>, dst: u32)
    requires
        table.schema == schema_model(),
        routable(frame, dst),
        routed(table.entries, table.default, dst, 32) == action.call(),
    ensures
        0 <= action.call().action < table.schema.actions.len(),
        carries_out(
            routed_frame(table, frame),
            table.schema.actions[action.call().action].name,
            action.call().params,
            frame,
        ),
{
    lemma_names();
    let ip = inner_ipv4(frame)->0;
    assert(inner_ipv4(frame) is Some);
    assert(ip.dst.bits == dst);
    assert(table.schema.actions.len() == 3);
    if let Action::Forward { port, dmac } = action {
        lemma_sent_on(frame, ip, dmac);
    }
}

proof fn lemma_route_found(routes: Routes, dst: u32, base: u32, len: u8)
    requires
        routes.wf(),
        routes@.contains_key((len, base)),
        covers(base, len, dst),
        forall|l: u8, b: u32| #[trigger]
            routes@.contains_key((l, b)) && len < l ==> !covers(b, l, dst),
    ensures
        routed(calls(routes@), routes.default().call(), dst, 32) == routes@[(len, base)].call(),
{
    routes.lemma_routes_are_canonical(len, base);
    law_masks_select_leading_bits(dst, base, len);
    assert forall|l: int| len < l <= 32 implies !(#[trigger] routes@.contains_key(
        (l as u8, dst & mask_bits(l as u8)),
    )) by {
        law_prefixes_are_canonical(dst, l as u8);
        law_masks_select_leading_bits(dst, dst & mask_bits(l as u8), l as u8);
    }
    law_longest_match_wins(routes@, routes.default(), dst, len as int);
    lemma_routed(routes, dst, 32);
}

/// The longest route that covers the destination decides, whatever the
/// transport protocol: a frame with an IPv4 header that may still travel is
/// sent on, punted or dropped as that route's action says.
pub proof fn law_l3_longest_route_decides(
    program: &L3Fwd,
    ingress: u16,
    frame: Seq<u8>,
    dst: u32,
    base: u32,
    len: u8,
)
    requires
        program.inv(),
        routable(frame, dst),
        program.surface().table->0.entries.contains_key(
            TypedKey::Lpm { value: TypedVal::Ipv4(Ipv4Addr { bits: base }), prefix_len: len },
        ),
        covers(base, len, dst),
        forall|l: u8, b: u32| #[trigger]
            program.surface().table->0.entries.contains_key(
                TypedKey::Lpm { value: TypedVal::Ipv4(Ipv4Addr { bits: b }), prefix_len: l },
            ) && len < l ==> !covers(b, l, dst),
    ensures
        ({
            let table = program.surface().table->0;
            let call = table.entries[TypedKey::Lpm {
                value: TypedVal::Ipv4(Ipv4Addr { bits: base }),
                prefix_len: len,
            }];
            &&& 0 <= call.action < table.schema.actions.len()
            &&& carries_out(
                L3Engine::decision(program, ingress, frame),
                table.schema.actions[call.action].name,
                call.params,
                frame,
            )
        }),
{
    let routes = program.routes();
    let table = model_of(routes);
    assert(table.entries.contains_key(route_key(len, base)));
    assert forall|l: u8, b: u32| #[trigger]
        routes@.contains_key((l, b)) && len < l implies !covers(b, l, dst) by {
        assert(table.entries.contains_key(route_key(l, b)));
    }
    lemma_route_found(routes, dst, base, len);
    lemma_carries_out(table, routes@[(len, base)], frame, dst);
}

/// Where no route covers the destination, the default action decides.
pub proof fn law_l3_default_decides_misses(
    program: &L3Fwd,
    ingress: u16,
    frame: Seq<u8>,
    dst: u32,
)
    requires
        program.inv(),
        routable(frame, dst),
        forall|l: u8, b: u32| #[trigger]
            program.surface().table->0.entries.contains_key(
                TypedKey::Lpm { value: TypedVal::Ipv4(Ipv4Addr { bits: b }), prefix_len: l },
            ) ==> !covers(b, l, dst),
    ensures
        ({
            let table = program.surface().table->0;
            &&& 0 <= table.default.action < table.schema.actions.len()
            &&& carries_out(
                L3Engine::decision(program, ingress, frame),
                table.schema.actions[table.default.action].name,
                table.default.params,
                frame,
            )
        }),
{
    let routes = program.routes();
    let table = model_of(routes);
    assert forall|l: int| 0 <= l <= 32 implies !(#[trigger] routes@.contains_key(
        (l as u8, dst & mask_bits(l as u8)),
    )) by {
        law_prefixes_are_canonical(dst, l as u8);
        law_masks_select_leading_bits(dst, dst & mask_bits(l as u8), l as u8);
        if routes@.contains_key((l as u8, dst & mask_bits(l as u8))) {
            assert(table.entries.contains_key(route_key(l as u8, dst & mask_bits(l as u8))));
        }
    }
    law_miss_takes_default(routes@, routes.default(), dst);
    lemma_routed(routes, dst, 32);
    lemma_carries_out(table, routes.default(), frame, dst);
}

/// Whatever is not a whole IPv4 packet with a hop left to live is dropped,
/// untouched: a frame of another type, a truncated or malformed header, a TTL
/// of zero.
pub proof fn law_l3_drops_the_unroutable(program: &L3Fwd, ingress: u16, frame: Seq<u8>)
    requires
        forall|dst: u32| !(#[trigger] routable(frame, dst)),
    ensures
        L3Engine::decision(program, ingress, frame) == (Verdict::Drop, frame),
{
    if let Some(ip) = inner_ipv4(frame) {
        if ip.ttl > 0 {
            assert(routable(frame, ip.dst.bits));
        }
    }
}

/// An installed route takes the frames it covers, unless a longer one does:
/// once the route is written, with host bits or without, each such frame is
/// sent on, punted or dropped as the write says.
#[verifier::rlimit(40)]
pub proof fn law_l3_writes_decide_frames(
    before: &L3Fwd,
    after: &L3Fwd,
    net: u32,
    len: u8,
    action: Seq<char>,
    params: Seq<TypedVal>,
    ingress: u16,
    frame: Seq<u8>,
    dst: u32,
)
    requires
        before.inv(),
        after.inv(),
        routable(frame, dst),
        covers(net, len, dst),
        forall|l: u8, b: u32| #[trigger]
            before.surface().table->0.entries.contains_key(
                TypedKey::Lpm { value: TypedVal::Ipv4(Ipv4Addr { bits: b }), prefix_len: l },
            ) && len < l ==> !covers(b, l, dst),
        before.surface().added(
            "ipv4_lpm"@,
            TypedKey::Lpm { value: TypedVal::Ipv4(Ipv4Addr { bits: net }), prefix_len: len },
            action,
            params,
        ) is Ok,
        after.surface() == before.surface().after(
            before.surface().added(
                "ipv4_lpm"@,
                TypedKey::Lpm { value: TypedVal::Ipv4(Ipv4Addr { bits: net }), prefix_len: len },
                action,
                params,
            ),
        ),
    ensures
        carries_out(L3Engine::decision(after, ingress, frame), action, params, frame),
{
    let table = before.surface().table->0;
    let base = net & mask_bits(len);
    let now = after.surface().table->0;
    law_masks_select_leading_bits(dst, net, len);
    law_prefixes_are_canonical(net, len);
    law_masks_select_leading_bits(dst, base, len);
    let call = Call { action: table.schema.checked(action, params)->Ok_0, params };
    assert(now.entries == table.entries.insert(route_key(len, base), call));
    assert forall|l: u8, b: u32| #[trigger]
        now.entries.contains_key(
            TypedKey::Lpm { value: TypedVal::Ipv4(Ipv4Addr { bits: b }), prefix_len: l },
        ) && len < l implies !covers(b, l, dst) by {
        assert(route_key(l, b) != route_key(len, base));
        assert(table.entries.contains_key(route_key(l, b)));
    }
    law_l3_longest_route_decides(after, ingress, frame, dst, base, len);
    reveal_with_fuel(SchemaModel::action_from, 4);
    reveal_with_fuel(SchemaModel::mismatch_from, 3);
    assert(table.schema == schema_model());
    assert(now.schema.actions[call.action].name == action);
}

/// Each action can be written: forwarding with a port and an address, punting
/// and dropping without parameters, for every prefix of at most 32 bits.
pub proof fn law_l3_takes_every_route(
    before: &L3Fwd,
    net: u32,
    len: u8,
    port: u16,
    dmac: MacAddr,
)
    ensures
        ({
            let key = TypedKey::Lpm {
                value: TypedVal::Ipv4(Ipv4Addr { bits: net }),
                prefix_len: len,
            };
            let none = Seq::<TypedVal>::empty();
            let hop = seq![TypedVal::U16(port), TypedVal::Mac(dmac)];
            &&& before.surface().added("ipv4_lpm"@, key, "forward"@, hop) is Ok <==> len <= 32
            &&& before.surface().added("ipv4_lpm"@, key, "punt"@, none) is Ok <==> len <= 32
            &&& before.surface().added("ipv4_lpm"@, key, "drop"@, none) is Ok <==> len <= 32
            &&& before.surface().with_default("ipv4_lpm"@, "forward"@, hop) is Ok
            &&& before.surface().with_default("ipv4_lpm"@, "punt"@, none) is Ok
            &&& before.surface().with_default("ipv4_lpm"@, "drop"@, none) is Ok
        }),
{
    lemma_names();
    reveal_with_fuel(SchemaModel::action_from, 4);
    reveal_with_fuel(SchemaModel::mismatch_from, 3);
    let schema = schema_model();
    assert(schema.actions.len() == 3);
    assert(schema.checked("forward"@, seq![TypedVal::U16(port), TypedVal::Mac(dmac)]) is Ok);
    assert(schema.checked("punt"@, Seq::empty()) is Ok);
    assert(schema.checked("drop"@, Seq::empty()) is Ok);
}

/// A program that was just loaded drops every frame.
pub proof fn law_l3_starts_without_routes(program: &L3Fwd, ingress: u16, frame: Seq<u8>)
    requires
        program.surface().table == Some(initial()),
    ensures
        L3Engine::decision(program, ingress, frame) == (Verdict::Drop, frame),
{
    let routes = program.routes();
    assert(calls(routes@) == Map::<TypedKey, Call>::empty());
    if let Some(ip) = inner_ipv4(frame) {
        assert forall|l: int| 0 <= l <= 32 implies !(#[trigger] routes@.contains_key(
            (l as u8, ip.dst.bits & mask_bits(l as u8)),
        )) by {
            let key = route_key(l as u8, ip.dst.bits & mask_bits(l as u8));
            assert(!calls(routes@).contains_key(key));
        }
        law_miss_takes_default(routes@, routes.default(), ip.dst.bits);
        lemma_routed(routes, ip.dst.bits, 32);
    }
}

/// What the router publishes: one table, keyed by destination prefix, with
/// three actions, of which only forwarding takes parameters.
pub proof fn law_l3_publishes_its_table(program: &L3Fwd)
    ensures
        ({
            let s = program.surface();
            let t = s.schemas()[0];
            &&& s.owner == "l3fwd"@
            &&& s.schemas().len() == 1
            &&& t.name == "ipv4_lpm"@
            &&& t.key_field == "ipv4.dst"@
            &&& t.key == KeyKind::Lpm(ValKind::Ipv4)
            &&& t.actions.len() == 3
            &&& t.actions[0].name == "forward"@
            &&& t.actions[0].params.len() == 2
            &&& t.actions[0].params[0].name == "port"@
            &&& t.actions[0].params[0].kind == ValKind::U16
            &&& t.actions[0].params[1].name == "dmac"@
            &&& t.actions[0].params[1].kind == ValKind::Mac
            &&& t.actions[1].name == "punt"@
            &&& t.actions[1].params.len() == 0
            &&& t.actions[2].name == "drop"@
            &&& t.actions[2].params.len() == 0
        }),
{
}

/// Setting the default decides every frame that no route covers, and the frames
/// that one does cover fare as they did.
pub proof fn law_l3_default_writes_decide_misses(
    before: &L3Fwd,
    after: &L3Fwd,
    action: Seq<char>,
    params: Seq<TypedVal>,
    ingress: u16,
    frame: Seq<u8>,
    dst: u32,
)
    requires
        before.inv(),
        after.inv(),
        routable(frame, dst),
        forall|l: u8, b: u32| #[trigger]
            before.surface().table->0.entries.contains_key(
                TypedKey::Lpm { value: TypedVal::Ipv4(Ipv4Addr { bits: b }), prefix_len: l },
            ) ==> !covers(b, l, dst),
        before.surface().with_default("ipv4_lpm"@, action, params) is Ok,
        after.surface() == before.surface().after(
            before.surface().with_default("ipv4_lpm"@, action, params),
        ),
    ensures
        carries_out(L3Engine::decision(after, ingress, frame), action, params, frame),
{
    let now = after.surface().table->0;
    let table = before.surface().table->0;
    assert(now.entries == table.entries);
    law_l3_default_decides_misses(after, ingress, frame, dst);
    reveal_with_fuel(SchemaModel::action_from, 4);
    reveal_with_fuel(SchemaModel::mismatch_from, 3);
    assert(table.schema == schema_model());
    assert(now.schema.actions[now.default.action].name == action);
}

/// Removing a route hands its frames to the next longest one, or to the
/// default: a frame that no other route covers fares as the default says.
pub proof fn law_l3_removals_uncover(
    before: &L3Fwd,
    after: &L3Fwd,
    net: u32,
    len: u8,
    ingress: u16,
    frame: Seq<u8>,
    dst: u32,
)
    requires
        before.inv(),
        after.inv(),
        routable(frame, dst),
        len <= 32,
        before.surface().removed(
            "ipv4_lpm"@,
            TypedKey::Lpm { value: TypedVal::Ipv4(Ipv4Addr { bits: net }), prefix_len: len },
        ) is Ok,
        after.surface() == before.surface().after(
            before.surface().removed(
                "ipv4_lpm"@,
                TypedKey::Lpm { value: TypedVal::Ipv4(Ipv4Addr { bits: net }), prefix_len: len },
            ),
        ),
        forall|l: u8, b: u32| #[trigger]
            before.surface().table->0.entries.contains_key(
                TypedKey::Lpm { value: TypedVal::Ipv4(Ipv4Addr { bits: b }), prefix_len: l },
            ) && covers(b, l, dst) ==> l == len,
        covers(net, len, dst),
    ensures
        ({
            let table = before.surface().table->0;
            carries_out(
                L3Engine::decision(after, ingress, frame),
                table.schema.actions[table.default.action].name,
                table.default.params,
                frame,
            )
        }),
{
    let table = before.surface().table->0;
    let now = after.surface().table->0;
    let base = net & mask_bits(len);
    assert(now.entries == table.entries.remove(route_key(len, base)));
    assert forall|l: u8, b: u32| #[trigger]
        now.entries.contains_key(
            TypedKey::Lpm { value: TypedVal::Ipv4(Ipv4Addr { bits: b }), prefix_len: l },
        ) implies !covers(b, l, dst) by {
        assert(table.entries.contains_key(route_key(l, b)));
        if covers(b, l, dst) {
            assert(l == len);
            before.routes().lemma_routes_are_canonical(l, b);
            law_masks_select_leading_bits(dst, b, len);
            law_masks_select_leading_bits(dst, net, len);
            assert(b == base);
        }
    }
    law_l3_default_decides_misses(after, ingress, frame, dst);
}

} // verus!
