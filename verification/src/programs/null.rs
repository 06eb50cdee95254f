//! The null oracle, **for benchmarks only**.
//!
//! It is the one component allowed to decide an output port without a
//! program. Its purpose is to measure the harness: with parsing and table
//! lookup removed, a benchmark sees the cost of the I/O path alone.
//!
//! The map is static, built once from the topology: egress is the next vport
//! in configuration order, cyclically, which for a two-port topology is
//! exactly the other port.
use crate::engine::{Engine, Pipeline, PipelineParams, Verdict};
use crate::frame::FrameCtx;
use crate::ops::{NoTables, SurfaceModel, TableOps};
use crate::shim::{EntryDesc, TableError, TableSchema, TypedKey};
use crate::value::TypedVal;
use vstd::prelude::*;

verus! {

/// Registered name.
pub const NAME: &'static str = "null";

/// The loaded oracle.
#[derive(Debug)]
pub struct NullPipeline {
    /// Indexed by ingress vport id; `None` for ids the topology does not have.
    egress: Vec<Option<u16>>,
    tables: NoTables,
}

/// The cyclic successor of `ingress` among the first `n` vports, looked up
/// from the back; `None` for an id that is not there.
pub open spec fn successor(vports: Seq<u16>, ingress: u16, n: int) -> Option<u16>
    decreases n,
{
    if n <= 0 {
        None
    } else if vports[n - 1] == ingress {
        Some(vports[n % vports.len() as int])
    } else {
        successor(vports, ingress, n - 1)
    }
}

impl NullPipeline {
    /// Where frames from `ingress` go.
    pub closed spec fn egress_of(&self, ingress: u16) -> Option<u16> {
        if ingress < self.egress@.len() {
            self.egress@[ingress as int]
        } else {
            None
        }
    }

    /// Build the static map from the node's vports.
    #[must_use]
    pub fn new(params: &PipelineParams) -> (r: Self)
        ensures
            r.inv(),
            r.surface() == (SurfaceModel { owner: NAME@, table: None }),
            forall|ingress: u16|
                #![trigger r.egress_of(ingress)]
                r.egress_of(ingress) == successor(
                    params.vports@,
                    ingress,
                    params.vports@.len() as int,
                ),
    {
        let n: usize = params.vports.len();
        let mut width: usize = 0;
        let mut i: usize = 0;
        while i < n
            invariant
                i <= n,
                n == params.vports@.len(),
                width <= 0x1_0000,
                forall|j: int| 0 <= j < i ==> (#[trigger] params.vports@[j]) < width,
            decreases n - i,
        {
            let id: usize = params.vports[i] as usize;
            if width <= id {
                width = id + 1;
            }
            i += 1;
        }
        let mut egress: Vec<Option<u16>> = Vec::new();
        let mut k: usize = 0;
        while k < width
            invariant
                k <= width,
                egress@.len() == k,
                forall|j: int| 0 <= j < k ==> (#[trigger] egress@[j]) == None::<u16>,
            decreases width - k,
        {
            egress.push(None);
            k += 1;
        }
        let mut i: usize = 0;
        while i < n
            invariant
                i <= n,
                n == params.vports@.len(),
                egress@.len() == width,
                forall|j: int| 0 <= j < n ==> (#[trigger] params.vports@[j]) < width,
                forall|p: int|
                    0 <= p < width && p < 0x1_0000 ==> (#[trigger] egress@[p]) == successor(
                        params.vports@,
                        p as u16,
                        i as int,
                    ),
            decreases n - i,
        {
            let next: u16 = params.vports[(i + 1) % n];
            let id: usize = params.vports[i] as usize;
            egress[id] = Some(next);
            i += 1;
        }
        let r = NullPipeline { egress, tables: NoTables(NAME) };
        proof {
            assert forall|ingress: u16| #![trigger r.egress_of(ingress)] r.egress_of(ingress)
                == successor(params.vports@, ingress, n as int) by {
                if ingress >= width {
                    lemma_absent(params.vports@, ingress, n as int);
                }
            }
        }
        r
    }
}

proof fn lemma_absent(vports: Seq<u16>, ingress: u16, n: int)
    requires
        n <= vports.len(),
        forall|j: int| 0 <= j < n ==> (#[trigger] vports[j]) != ingress,
    ensures
        successor(vports, ingress, n) is None,
    decreases n,
{
    if n > 0 {
        assert(vports[n - 1] != ingress);
        lemma_absent(vports, ingress, n - 1);
    }
}

impl TableOps for NullPipeline {
    closed spec fn inv(&self) -> bool {
        self.tables.0@ == NAME@
    }

    closed spec fn surface(&self) -> SurfaceModel {
        self.tables.surface()
    }

    open spec fn generation(&self) -> u64 {
        0
    }

    open spec fn same_program(&self, before: &Self) -> bool {
        forall|ingress: u16| #[trigger]
            self.egress_of(ingress) == before.egress_of(ingress)
    }

    open spec fn continues(&self, before: &Self) -> bool {
        self.same_program(before)
    }

    proof fn lemma_continues(a: &Self, b: &Self, c: &Self) {
        if b.same_program(a) && c.same_program(b) {
            assert forall|ingress: u16| #[trigger] c.egress_of(ingress) == a.egress_of(
                ingress,
            ) by {
                assert(b.egress_of(ingress) == a.egress_of(ingress));
            }
        }
    }

    fn schemas(&self) -> (r: &'static [TableSchema]) {
        self.tables.schemas()
    }

    fn table_add(&mut self, table: &str, key: TypedKey, action: &str, params: &[TypedVal]) -> (r:
        Result<(), TableError>) {
        self.tables.table_add(table, key, action, params)
    }

    fn table_remove(&mut self, table: &str, key: TypedKey) -> (r: Result<(), TableError>) {
        self.tables.table_remove(table, key)
    }

    fn table_dump(&self, table: &str) -> (r: Result<Vec<EntryDesc>, TableError>) {
        self.tables.table_dump(table)
    }

    fn table_default(&self, table: &str) -> (r: Result<EntryDesc, TableError>) {
        self.tables.table_default(table)
    }

    fn table_set_default(&mut self, table: &str, action: &str, params: &[TypedVal]) -> (r: Result<
        (),
        TableError,
    >) {
        self.tables.table_set_default(table, action, params)
    }

    fn table_clear(&mut self, table: &str) -> (r: Result<usize, TableError>) {
        self.tables.table_clear(table)
    }
}

impl Pipeline for NullPipeline {
    type Engine = NullEngine;

    fn name(&self) -> (r: &'static str) {
        self.tables.0
    }

    fn engine(&self) -> (r: NullEngine) {
        NullEngine { }
    }

    proof fn lemma_engines_follow(before: &Self, after: &Self, engine: &NullEngine) {
    }
}

/// One shard's view of the oracle, which needs no state of its own.
#[derive(Debug)]
pub struct NullEngine {}

impl Engine<NullPipeline> for NullEngine {
    open spec fn follows(&self, program: &NullPipeline) -> bool {
        true
    }

    open spec fn decision(program: &NullPipeline, ingress: u16, frame: Seq<u8>) -> (
        Verdict,
        Seq<u8>,
    ) {
        match program.egress_of(ingress) {
            Some(port) => (Verdict::Forward(port), frame),
            None => (Verdict::Drop, frame),
        }
    }

    fn process(&mut self, program: &NullPipeline, f: &mut FrameCtx<'_>) -> (v: Verdict) {
        let at: usize = f.ingress_vport as usize;
        if at < program.egress.len() {
            match program.egress[at] {
                Some(port) => Verdict::Forward(port),
                None => Verdict::Drop,
            }
        } else {
            Verdict::Drop
        }
    }

    open spec fn program_name(&self) -> Seq<char> {
        NAME@
    }

    fn name(&self) -> (r: &'static str) {
        NAME
    }
}

/// Two ports echo to each other.
pub proof fn law_two_ports_echo(a: u16, b: u16)
    requires
        a != b,
    ensures
        successor(seq![a, b], a, 2) == Some(b),
        successor(seq![a, b], b, 2) == Some(a),
{
    reveal_with_fuel(successor, 3);
    let v = seq![a, b];
    assert(v.len() == 2);
    assert(2int % 2int == 0);
    assert(v[2int % v.len() as int] == a);
}

/// Frames go round: what comes in on a vport leaves on the one that follows it
/// in the configuration, and from the last on the first.
pub proof fn law_frames_go_to_the_next_vport(vports: Seq<u16>, i: int)
    requires
        0 <= i < vports.len(),
        forall|i: int, j: int|
            0 <= i < j < vports.len() ==> (#[trigger] vports[i]) != (#[trigger] vports[j]),
    ensures
        successor(vports, vports[i], vports.len() as int) == Some(
            vports[if i + 1 < vports.len() {
                i + 1
            } else {
                0
            }],
        ),
{
    lemma_found(vports, i, vports.len() as int);
    let n = vports.len() as int;
    if i + 1 < n {
        vstd::arithmetic::div_mod::lemma_small_mod((i + 1) as nat, n as nat);
    } else {
        vstd::arithmetic::div_mod::lemma_mod_self_0(n);
    }
}

proof fn lemma_found(vports: Seq<u16>, i: int, n: int)
    requires
        0 <= i < n <= vports.len(),
        forall|i: int, j: int|
            0 <= i < j < vports.len() ==> (#[trigger] vports[i]) != (#[trigger] vports[j]),
    ensures
        successor(vports, vports[i], n) == Some(vports[(i + 1) % vports.len() as int]),
    decreases n,
{
    if n - 1 != i {
        assert(vports[i] != vports[n - 1]);
        lemma_found(vports, i, n - 1);
    }
}

/// A frame from a vport that is not configured is dropped, untouched; any other
/// leaves unchanged.
pub proof fn law_strangers_are_dropped(program: &NullPipeline, ingress: u16, frame: Seq<u8>)
    ensures
        ({
            let decision = NullEngine::decision(program, ingress, frame);
            &&& decision.1 == frame
            &&& program.egress_of(ingress) is None ==> decision.0 == Verdict::Drop
            &&& program.egress_of(ingress) is Some ==> decision.0 == Verdict::Forward(
                program.egress_of(ingress)->0,
            )
        }),
{
}

/// An id that no vport has leads nowhere.
pub proof fn law_unconfigured_ids_lead_nowhere(vports: Seq<u16>, ingress: u16)
    requires
        forall|j: int| 0 <= j < vports.len() ==> (#[trigger] vports[j]) != ingress,
    ensures
        successor(vports, ingress, vports.len() as int) is None,
{
    lemma_absent(vports, ingress, vports.len() as int);
}

} // verus!
