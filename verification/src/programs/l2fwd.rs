//! `l2fwd`: an L2 switch with a static forwarding database.
//!
//! ```text
//! parser        extract ethernet                      -> Ethernet::parse
//! table mac_dst key   = { hdr.ethernet.dst : exact }  -> ExactTable<MacAddr, _>
//!               actions = { forward; broadcast; drop }
//!               default_action = broadcast            -> ExactTable default
//! ```
//!
//! The program modifies no header, so nothing is deparsed and no checksum is
//! zeroed: there is nothing stale to hide.
use crate::engine::{Engine, Pipeline, PipelineParams, Verdict};
use crate::frame::FrameCtx;
use crate::headers::Ethernet;
use crate::ops::{
    describe_call, described, entry_models, is_dump, schema_models, Call, Style, SurfaceModel,
    TableModel, TableOps,
};
use crate::programs::{exact_mac, param_u16};
use crate::shim::{
    ActionModel, ActionSchema, EntryDesc, KeyKind, ParamModel, ParamSchema, SchemaModel,
    TableError, TableErrorModel, TableSchema, TypedKey,
};
use crate::table::{
    applied, law_views_follow_updates, lists, Cached, ExactTable, Shared, TableKey,
};
use crate::text::same;
use crate::value::{MacAddr, TypedVal, ValKind};
use vstd::prelude::*;

verus! {

/// Registered name.
pub const NAME: &'static str = "l2fwd";

/// The table's control-plane contract.
pub open spec fn schema_model() -> SchemaModel {
    SchemaModel {
        name: "mac_dst"@,
        key_field: "ethernet.dst"@,
        key: KeyKind::Exact(ValKind::Mac),
        actions: seq![
            ActionModel {
                name: "forward"@,
                params: seq![ParamModel { name: "port"@, kind: ValKind::U16 }],
            },
            ActionModel { name: "broadcast"@, params: Seq::empty() },
            ActionModel { name: "drop"@, params: Seq::empty() },
        ],
    }
}

/// The table's control-plane contract.
pub fn table_schemas() -> (r: &'static [TableSchema])
    ensures
        r@.len() == 1,
        r@[0]@ == schema_model(),
{
    let r: &'static [TableSchema] = &[
        TableSchema {
            name: "mac_dst",
            key_field: "ethernet.dst",
            key: KeyKind::Exact(ValKind::Mac),
            actions: &[
                ActionSchema {
                    name: "forward",
                    params: &[ParamSchema { name: "port", kind: ValKind::U16 }],
                },
                ActionSchema { name: "broadcast", params: &[] },
                ActionSchema { name: "drop", params: &[] },
            ],
        },
    ];
    proof {
        let m = schema_model();
        assert(r@[0]@.actions[0].params =~= m.actions[0].params);
        assert(r@[0]@.actions[1].params =~= m.actions[1].params);
        assert(r@[0]@.actions[2].params =~= m.actions[2].params);
        assert(r@[0]@.actions =~= m.actions);
    }
    r
}

/// The actions `mac_dst` may run, closed.
#[derive(Clone, Copy, Debug, PartialEq, Eq, Structural)]
pub enum Action {
    /// Send to this vport.
    Forward(u16),
    /// Send to every other vport.
    Broadcast,
    /// Discard.
    Drop,
}

/// The names of the actions differ.
proof fn lemma_names()
    ensures
        "forward"@ != "broadcast"@,
        "forward"@ != "drop"@,
        "broadcast"@ != "drop"@,
{
    reveal_strlit("forward");
    reveal_strlit("broadcast");
    reveal_strlit("drop");
    assert("forward"@[0] == 'f');
    assert("broadcast"@[0] == 'b');
    assert("drop"@[0] == 'd');
}

impl Action {
    /// The call that the control plane sees.
    pub open spec fn call(self) -> Call {
        match self {
            Action::Forward(port) => Call { action: 0, params: seq![TypedVal::U16(port)] },
            Action::Broadcast => Call { action: 1, params: Seq::empty() },
            Action::Drop => Call { action: 2, params: Seq::empty() },
        }
    }

    /// Build the action a control-plane call names, after the schema has
    /// checked its arity and parameter kinds.
    fn from_call(schema: &TableSchema, action: &str, params: &[TypedVal]) -> (r: Result<
        Self,
        TableError,
    >)
        requires
            schema@ == schema_model(),
        ensures
            r matches Ok(a) ==> schema_model().checked(action@, params@) is Ok && a.call() == (
            Call { action: schema_model().checked(action@, params@)->Ok_0, params: params@ }),
            r matches Err(e) ==> schema_model().checked(action@, params@) == Err::<
                int,
                TableErrorModel,
            >(e@),
    {
        let sig: &'static ActionSchema = match schema.check(action, params) {
            Ok(sig) => sig,
            Err(e) => {
                return Err(e);
            },
        };
        let ghost m = schema_model();
        proof {
            lemma_names();
            reveal_with_fuel(SchemaModel::action_from, 4);
            reveal_with_fuel(SchemaModel::mismatch_from, 2);
        }
        if same(sig.name, "forward") {
            match param_u16(schema, sig.name, params, 0) {
                Ok(port) => {
                    assert(params@ =~= seq![TypedVal::U16(port)]);
                    Ok(Action::Forward(port))
                },
                Err(e) => Err(e),
            }
        } else if same(sig.name, "broadcast") {
            assert(params@ =~= Seq::empty());
            Ok(Action::Broadcast)
        } else {
            assert(params@ =~= Seq::empty());
            Ok(Action::Drop)
        }
    }

    fn describe(self, key: String) -> (r: EntryDesc)
        ensures
            r@ == described(schema_model(), key@, self.call()),
    {
        let schema: &'static TableSchema = &table_schemas()[0];
        assert(schema@.actions.len() == 3);
        match self {
            Action::Forward(port) => {
                let sig: &ActionSchema = &schema.actions[0];
                assert(sig@ == schema@.actions[0]);
                let values: [TypedVal; 1] = [TypedVal::U16(port)];
                assert(values@ =~= self.call().params);
                describe_call(sig, key, values.as_slice())
            },
            Action::Broadcast => {
                let sig: &ActionSchema = &schema.actions[1];
                assert(sig@ == schema@.actions[1]);
                let values: Vec<TypedVal> = Vec::new();
                assert(values@ =~= self.call().params);
                describe_call(sig, key, values.as_slice())
            },
            Action::Drop => {
                let sig: &ActionSchema = &schema.actions[2];
                assert(sig@ == schema@.actions[2]);
                let values: Vec<TypedVal> = Vec::new();
                assert(values@ =~= self.call().params);
                describe_call(sig, key, values.as_slice())
            },
        }
    }

    fn verdict(self) -> (r: Verdict)
        ensures
            r == verdict_of(self.call()),
    {
        match self {
            Action::Forward(port) => Verdict::Forward(port),
            Action::Broadcast => Verdict::Broadcast,
            Action::Drop => Verdict::Drop,
        }
    }
}

/// The verdict of a call.
pub open spec fn verdict_of(call: Call) -> Verdict {
    if call.action == 0 {
        match call.params[0] {
            TypedVal::U16(port) => Verdict::Forward(port),
            _ => Verdict::Drop,
        }
    } else if call.action == 1 {
        Verdict::Broadcast
    } else {
        Verdict::Drop
    }
}

/// The forwarding database.
pub type Fdb = ExactTable<MacAddr, Action>;

/// The loaded `l2fwd` program.
#[derive(Debug)]
pub struct L2Fwd {
    mac_dst: Shared<Fdb>,
}

/// The key under which the control plane sees an address.
pub open spec fn mac_key(m: MacAddr) -> TypedKey {
    TypedKey::Exact(TypedVal::Mac(m))
}

spec fn calls(fdb: Map<MacAddr, Action>) -> Map<TypedKey, Call> {
    Map::new(
        |k: TypedKey| k matches TypedKey::Exact(TypedVal::Mac(m)) && fdb.contains_key(m),
        |k: TypedKey| fdb[k.spec_value()->Mac_0].call(),
    )
}

spec fn model_of(fdb: Fdb) -> TableModel {
    TableModel {
        style: Style::Typed,
        schema: schema_model(),
        entries: calls(fdb@),
        default: fdb.default().call(),
    }
}

/// What the program does with a frame: look its destination up, change
/// nothing.
pub open spec fn switched(table: TableModel, frame: Seq<u8>) -> (Verdict, Seq<u8>) {
    match Ethernet::parsed(frame) {
        None => (Verdict::Drop, frame),
        Some(eth) => (
            verdict_of(applied(table.entries, table.default, mac_key(eth.dst))),
            frame,
        ),
    }
}

/// The table of a program that was just loaded: empty, so every frame
/// broadcasts until the control plane says otherwise.
pub open spec fn initial() -> TableModel {
    TableModel::fresh(Style::Typed, schema_model(), Action::Broadcast.call())
}

impl L2Fwd {
    closed spec fn fdb(&self) -> Fdb {
        self.mac_dst.value()
    }

    /// Load the program. The forwarding database starts empty.
    #[must_use]
    pub fn new(_params: &PipelineParams) -> (r: Self)
        ensures
            r.inv(),
            r.surface() == (SurfaceModel { owner: NAME@, table: Some(initial()) }),
            r.generation() == 0,
    {
        let r = L2Fwd { mac_dst: Shared::new(ExactTable::new(Action::Broadcast)) };
        assert(calls(r.fdb()@) =~= Map::empty());
        r
    }

    fn own_schema(&self, table: &str) -> (r: Result<&'static TableSchema, TableError>)
        requires
            self.inv(),
        ensures
            r matches Ok(s) ==> s@ == schema_model() && table@ == s@.name,
            r matches Err(e) ==> self.surface().table(table@) == Err::<
                TableModel,
                TableErrorModel,
            >(e@),
    {
        self.schema(table)
    }
}

impl TableOps for L2Fwd {
    closed spec fn inv(&self) -> bool {
        self.fdb().wf()
    }

    closed spec fn surface(&self) -> SurfaceModel {
        SurfaceModel { owner: NAME@, table: Some(model_of(self.fdb())) }
    }

    closed spec fn generation(&self) -> u64 {
        self.mac_dst.spec_version()
    }

    open spec fn same_program(&self, before: &Self) -> bool {
        true
    }

    closed spec fn continues(&self, before: &Self) -> bool {
        self.mac_dst.continues(&before.mac_dst)
    }

    proof fn lemma_continues(a: &Self, b: &Self, c: &Self) {
    }

    fn schemas(&self) -> (r: &'static [TableSchema]) {
        let r: &'static [TableSchema] = table_schemas();
        assert(schema_models(r@) =~= self.surface().schemas());
        r
    }

    fn table_add(&mut self, table: &str, key: TypedKey, action: &str, params: &[TypedVal]) -> (r:
        Result<(), TableError>) {
        let schema: &'static TableSchema = match self.own_schema(table) {
            Ok(s) => s,
            Err(e) => {
                return Err(e);
            },
        };
        let mac: MacAddr = match exact_mac(schema, key) {
            Ok(m) => m,
            Err(e) => {
                return Err(e);
            },
        };
        let action: Action = match Action::from_call(schema, action, params) {
            Ok(a) => a,
            Err(e) => {
                return Err(e);
            },
        };
        let ghost before = self.fdb();
        let mut next: Fdb = (*self.mac_dst.load()).clone();
        next.insert(mac, action);
        self.mac_dst.publish(next);
        assert(calls(self.fdb()@) =~= calls(before@).insert(mac_key(mac), action.call()));
        Ok(())
    }

    fn table_remove(&mut self, table: &str, key: TypedKey) -> (r: Result<(), TableError>) {
        let schema: &'static TableSchema = match self.own_schema(table) {
            Ok(s) => s,
            Err(e) => {
                return Err(e);
            },
        };
        let mac: MacAddr = match exact_mac(schema, key) {
            Ok(m) => m,
            Err(e) => {
                return Err(e);
            },
        };
        let ghost before = self.fdb();
        let mut next: Fdb = (*self.mac_dst.load()).clone();
        let removed: bool = next.remove(&mac);
        self.mac_dst.publish(next);
        assert(calls(self.fdb()@) =~= calls(before@).remove(mac_key(mac)));
        if removed {
            Ok(())
        } else {
            assert(calls(before@) =~= calls(before@).remove(mac_key(mac)));
            Err(TableError::NotFound { table: schema.name, key: mac.to_text() })
        }
    }

    fn table_dump(&self, table: &str) -> (r: Result<Vec<EntryDesc>, TableError>) {
        match self.own_schema(table) {
            Ok(_) => {},
            Err(e) => {
                return Err(e);
            },
        }
        let fdb = self.mac_dst.load();
        let list: Vec<(MacAddr, Action)> = fdb.iter();
        let mut entries: Vec<EntryDesc> = Vec::new();
        let ghost m = model_of(self.fdb());
        let ghost keys: Seq<TypedKey> = Seq::new(list@.len(), |i: int| mac_key(list@[i].0));
        let mut i: usize = 0;
        while i < list.len()
            invariant
                i <= list@.len(),
                entries@.len() == i,
                lists(list@, self.fdb()@),
                m == model_of(self.fdb()),
                keys == Seq::new(list@.len(), |i: int| mac_key(list@[i].0)),
                forall|j: int|
                    0 <= j < i ==> (#[trigger] entries@[j])@ == described(
                        m.schema,
                        keys[j].spec_text(),
                        m.entries[keys[j]],
                    ),
            decreases list.len() - i,
        {
            let (mac, action) = list[i];
            assert(self.fdb()@.contains_key(list@[i as int].0));
            entries.push(action.describe(mac.to_text()));
            i += 1;
        }
        proof {
            assert forall|k: TypedKey| #[trigger] m.entries.contains_key(k) implies keys.contains(
                k,
            ) by {
                let mac = k.spec_value()->Mac_0;
                assert(self.fdb()@.contains_key(mac));
                let i = choose|i: int| 0 <= i < list@.len() && (#[trigger] list@[i]).0 == mac;
                assert(keys[i] == k);
            }
            assert forall|i: int, j: int| 0 <= i < j < keys.len() implies crate::ops::dumped_before(
                m.style,
                #[trigger] keys[i],
                #[trigger] keys[j],
            ) by {
                assert(list@[i].0.key_bits() < list@[j].0.key_bits());
            }
            assert forall|i: int| 0 <= i < keys.len() implies m.entries.contains_key(
                #[trigger] keys[i],
            ) by {
                assert(self.fdb()@.contains_key(list@[i].0));
            }
            assert(is_dump(m, entry_models(entries@), keys));
        }
        Ok(entries)
    }

    fn table_default(&self, table: &str) -> (r: Result<EntryDesc, TableError>) {
        match self.own_schema(table) {
            Ok(_) => {},
            Err(e) => {
                return Err(e);
            },
        }
        let fdb = self.mac_dst.load();
        let default: Action = *fdb.default_action();
        Ok(default.describe("*".to_owned()))
    }

    fn table_set_default(&mut self, table: &str, action: &str, params: &[TypedVal]) -> (r: Result<
        (),
        TableError,
    >) {
        let schema: &'static TableSchema = match self.own_schema(table) {
            Ok(s) => s,
            Err(e) => {
                return Err(e);
            },
        };
        let action: Action = match Action::from_call(schema, action, params) {
            Ok(a) => a,
            Err(e) => {
                return Err(e);
            },
        };
        let mut next: Fdb = (*self.mac_dst.load()).clone();
        next.set_default(action);
        self.mac_dst.publish(next);
        Ok(())
    }

    fn table_clear(&mut self, table: &str) -> (r: Result<usize, TableError>) {
        match self.own_schema(table) {
            Ok(_) => {},
            Err(e) => {
                return Err(e);
            },
        }
        let ghost before = self.fdb();
        let mut next: Fdb = (*self.mac_dst.load()).clone();
        let n: usize = next.clear();
        self.mac_dst.publish(next);
        proof {
            let f = |m: MacAddr| mac_key(m);
            assert(before@.dom().map(f) =~= calls(before@).dom()) by {
                assert forall|k: TypedKey| #[trigger] calls(before@).dom().contains(
                    k,
                ) implies before@.dom().map(f).contains(k) by {
                    assert(f(k.spec_value()->Mac_0) == k);
                }
            }
            vstd::set_lib::lemma_map_size(before@.dom(), calls(before@).dom(), f);
            assert(calls(self.fdb()@) =~= Map::empty());
        }
        Ok(n)
    }
}

impl Pipeline for L2Fwd {
    type Engine = L2Engine;

    fn name(&self) -> (r: &'static str) {
        NAME
    }

    fn engine(&self) -> (r: L2Engine) {
        L2Engine { mac_dst: Cached::new(&self.mac_dst) }
    }

    proof fn lemma_engines_follow(before: &Self, after: &Self, engine: &L2Engine) {
        law_views_follow_updates(engine.mac_dst, before.mac_dst, after.mac_dst);
    }
}

/// One shard's view of `l2fwd`.
#[derive(Debug)]
pub struct L2Engine {
    mac_dst: Cached<Fdb>,
}

impl Engine<L2Fwd> for L2Engine {
    closed spec fn follows(&self, program: &L2Fwd) -> bool {
        self.mac_dst.follows(&program.mac_dst)
    }

    open spec fn decision(program: &L2Fwd, ingress: u16, frame: Seq<u8>) -> (Verdict, Seq<u8>) {
        switched(program.surface().table->0, frame)
    }

    fn process(&mut self, program: &L2Fwd, f: &mut FrameCtx<'_>) -> (v: Verdict) {
        let eth: Ethernet = match Ethernet::parse(f.frame()) {
            Some(eth) => eth,
            None => {
                return Verdict::Drop;
            },
        };
        self.mac_dst.get(&program.mac_dst).apply(&eth.dst).verdict()
    }

    open spec fn program_name(&self) -> Seq<char> {
        NAME@
    }

    fn name(&self) -> (r: &'static str) {
        NAME
    }
}

/// The pipeline never modifies a frame, whatever its table holds.
pub proof fn law_l2_never_modifies(table: TableModel, frame: Seq<u8>)
    ensures
        switched(table, frame).1 == frame,
{
}

/// An installed entry decides every frame to its address from then on, and no
/// frame to another.
pub proof fn law_l2_entry_takes_effect(
    table: TableModel,
    mac: MacAddr,
    port: u16,
    frame: Seq<u8>,
    eth: Ethernet,
)
    requires
        table.schema == schema_model(),
        Ethernet::parsed(frame) == Some(eth),
    ensures
        ({
            let after = table.added(mac_key(mac), "forward"@, seq![TypedVal::U16(port)]);
            &&& after is Ok
            &&& eth.dst == mac ==> switched(after->Ok_0, frame).0 == Verdict::Forward(port)
            &&& eth.dst != mac ==> switched(after->Ok_0, frame) == switched(table, frame)
        }),
{
    lemma_names();
    reveal_with_fuel(SchemaModel::action_from, 2);
    reveal_with_fuel(SchemaModel::mismatch_from, 3);
}

/// The destination of a frame is its first six bytes, and nothing else of the
/// frame matters: the verdict is that of the entry for this address, or of the
/// default action where there is none, and it is the one that the action's
/// name says. The frame is not changed.
pub proof fn law_l2_verdict_is_that_of_the_action(
    program: &L2Fwd,
    ingress: u16,
    frame: Seq<u8>,
    mac: MacAddr,
)
    requires
        frame.len() >= 14,
        mac.hi == frame[0] * 0x100 + frame[1],
        mac.lo == frame[2] * 0x100_0000 + frame[3] * 0x1_0000 + frame[4] * 0x100 + frame[5],
    ensures
        ({
            let table = program.surface().table->0;
            let key = TypedKey::Exact(TypedVal::Mac(mac));
            let call = if table.entries.contains_key(key) {
                table.entries[key]
            } else {
                table.default
            };
            let action = table.schema.actions[call.action].name;
            let decision = L2Engine::decision(program, ingress, frame);
            &&& program.surface().table is Some
            &&& 0 <= call.action < table.schema.actions.len()
            &&& action == "forward"@ || action == "broadcast"@ || action == "drop"@
            &&& action == "forward"@ ==> call.params[0] is U16 && decision.0 == Verdict::Forward(
                call.params[0]->U16_0,
            )
            &&& action == "broadcast"@ ==> decision.0 == Verdict::Broadcast
            &&& action == "drop"@ ==> decision.0 == Verdict::Drop
            &&& decision.1 == frame
        }),
{
    lemma_names();
    let table = model_of(program.fdb());
    let key = mac_key(mac);
    assert(Ethernet::parsed(frame)->0.dst == mac);
    if table.entries.contains_key(key) {
        assert(table.entries[key] == program.fdb()@[mac].call());
    }
    assert(table.schema.actions.len() == 3);
}

/// A frame too short for an Ethernet header is dropped, untouched.
pub proof fn law_l2_drops_truncated_frames(program: &L2Fwd, ingress: u16, frame: Seq<u8>)
    requires
        frame.len() < 14,
    ensures
        L2Engine::decision(program, ingress, frame) == (Verdict::Drop, frame),
{
}

/// A write to the table decides the frames that it speaks of, and no others.
/// Once an entry for an address is installed, every frame to that address is
/// dropped, flooded or forwarded as the entry says, whatever was there before;
/// once it is removed, the default action decides again. Frames to any other
/// address fare as they did.
#[verifier::rlimit(40)]
pub proof fn law_l2_writes_decide_frames(
    before: &L2Fwd,
    after: &L2Fwd,
    mac: MacAddr,
    port: u16,
    ingress: u16,
    frame: Seq<u8>,
)
    requires
        frame.len() >= 14,
    ensures
        ({
            let old_table = before.surface();
            let key = TypedKey::Exact(TypedVal::Mac(mac));
            let none = Seq::<TypedVal>::empty();
            let forward = old_table.added("mac_dst"@, key, "forward"@, seq![TypedVal::U16(port)]);
            let broadcast = old_table.added("mac_dst"@, key, "broadcast"@, none);
            let discard = old_table.added("mac_dst"@, key, "drop"@, none);
            let removal = old_table.removed("mac_dst"@, key);
            let to_mac = mac.hi == frame[0] * 0x100 + frame[1] && mac.lo == frame[2] * 0x100_0000
                + frame[3] * 0x1_0000 + frame[4] * 0x100 + frame[5];
            let was = L2Engine::decision(before, ingress, frame);
            let is = L2Engine::decision(after, ingress, frame);
            let default = old_table.table->0.schema.actions[old_table.table->0.default.action].name;
            &&& forward is Ok && broadcast is Ok && discard is Ok
            &&& after.surface() == old_table.after(forward) ==> is == (if to_mac {
                (Verdict::Forward(port), frame)
            } else {
                was
            })
            &&& after.surface() == old_table.after(broadcast) ==> is == (if to_mac {
                (Verdict::Broadcast, frame)
            } else {
                was
            })
            &&& after.surface() == old_table.after(discard) ==> is == (if to_mac {
                (Verdict::Drop, frame)
            } else {
                was
            })
            &&& after.surface() == old_table.after(removal) && !to_mac ==> is == was
            &&& after.surface() == old_table.after(removal) && to_mac && default == "broadcast"@
                ==> is == (Verdict::Broadcast, frame)
            &&& after.surface() == old_table.after(removal) && to_mac && default == "drop"@ ==> is
                == (Verdict::Drop, frame)
        }),
{
    lemma_names();
    reveal_with_fuel(SchemaModel::action_from, 4);
    reveal_with_fuel(SchemaModel::mismatch_from, 3);
    let table = model_of(before.fdb());
    let key = mac_key(mac);
    let dst = Ethernet::parsed(frame)->0.dst;
    let none = Seq::<TypedVal>::empty();
    assert(table.schema.actions.len() == 3);
    assert(table.schema.checked("forward"@, seq![TypedVal::U16(port)]) is Ok);
    assert(table.schema.checked("broadcast"@, none) is Ok);
    assert(table.schema.checked("drop"@, none) is Ok);
    assert(dst != mac ==> mac_key(dst) != key);
}

/// Changing the default action changes what becomes of every frame without an
/// entry of its own, and of no other.
pub proof fn law_l2_default_decides_misses(
    before: &L2Fwd,
    after: &L2Fwd,
    mac: MacAddr,
    ingress: u16,
    frame: Seq<u8>,
)
    requires
        frame.len() >= 14,
        mac.hi == frame[0] * 0x100 + frame[1],
        mac.lo == frame[2] * 0x100_0000 + frame[3] * 0x1_0000 + frame[4] * 0x100 + frame[5],
    ensures
        ({
            let known = before.surface().table->0.entries.contains_key(
                TypedKey::Exact(TypedVal::Mac(mac)),
            );
            let none = Seq::<TypedVal>::empty();
            let broadcast = before.surface().with_default("mac_dst"@, "broadcast"@, none);
            let discard = before.surface().with_default("mac_dst"@, "drop"@, none);
            let was = L2Engine::decision(before, ingress, frame);
            let is = L2Engine::decision(after, ingress, frame);
            &&& broadcast is Ok && discard is Ok
            &&& after.surface() == before.surface().after(broadcast) ==> is == (if known {
                was
            } else {
                (Verdict::Broadcast, frame)
            })
            &&& after.surface() == before.surface().after(discard) ==> is == (if known {
                was
            } else {
                (Verdict::Drop, frame)
            })
        }),
{
    lemma_names();
    reveal_with_fuel(SchemaModel::action_from, 4);
    reveal_with_fuel(SchemaModel::mismatch_from, 3);
    let table = model_of(before.fdb());
    let none = Seq::<TypedVal>::empty();
    assert(table.schema.actions.len() == 3);
    assert(table.schema.checked("broadcast"@, none) is Ok);
    assert(table.schema.checked("drop"@, none) is Ok);
    assert(Ethernet::parsed(frame)->0.dst == mac);
}

/// A program that was just loaded floods every frame with an Ethernet header.
pub proof fn law_l2_starts_as_a_hub(program: &L2Fwd, ingress: u16, frame: Seq<u8>)
    requires
        program.surface().table == Some(initial()),
        frame.len() >= 14,
    ensures
        L2Engine::decision(program, ingress, frame) == (Verdict::Broadcast, frame),
{
}

/// What the switch publishes: one table, keyed by destination address, with
/// three actions, of which only forwarding takes a parameter.
pub proof fn law_l2_publishes_its_table(program: &L2Fwd)
    ensures
        ({
            let s = program.surface();
            let t = s.schemas()[0];
            &&& s.owner == "l2fwd"@
            &&& s.schemas().len() == 1
            &&& t.name == "mac_dst"@
            &&& t.key_field == "ethernet.dst"@
            &&& t.key == KeyKind::Exact(ValKind::Mac)
            &&& t.actions.len() == 3
            &&& t.actions[0].name == "forward"@
            &&& t.actions[0].params.len() == 1
            &&& t.actions[0].params[0].name == "port"@
            &&& t.actions[0].params[0].kind == ValKind::U16
            &&& t.actions[1].name == "broadcast"@
            &&& t.actions[1].params.len() == 0
            &&& t.actions[2].name == "drop"@
            &&& t.actions[2].params.len() == 0
        }),
{
}

} // verus!
