//! The pipelines compiled into the switch, by name.
use crate::catalog::{Backend, Program, Selection};
use crate::engine::{Engine, Pipeline, PipelineParams, Verdict};
use crate::frame::FrameCtx;
use crate::ops::{SurfaceModel, TableOps};
use crate::programs::l2fwd::{self, L2Engine, L2Fwd};
use crate::programs::l3fwd::{self, L3Engine, L3Fwd};
use crate::programs::null::{successor, NullEngine, NullPipeline};
use crate::shim::{EntryDesc, TableError, TableSchema, TypedKey};
use crate::text::same;
use crate::value::TypedVal;
use vstd::prelude::*;

verus! {

/// A pipeline compiled into the switch.
#[derive(Clone, Copy, Debug)]
pub struct PipelineSpec {
    /// Name used in the configuration and in `info`.
    pub name: &'static str,
    /// One line for `--help` and `info`.
    pub summary: &'static str,
    /// What is built under that name.
    pub program: Program,
}

/// Every pipeline compiled into the switch.
///
/// The configuration is validated against [`names`], so an unknown pipeline is
/// a startup error with the alternatives listed, never a runtime surprise.
#[must_use]
pub fn registry() -> (r: &'static [PipelineSpec])
    ensures
        r@.len() == 2,
        r@[0].name@ == "l2fwd"@,
        r@[0].summary@
            == "learned-free L2 switch: exact match on destination MAC, broadcast on miss"@,
        r@[0].program == Program::L2Fwd,
        r@[1].name@ == "l3fwd"@,
        r@[1].summary@
            == "IPv4 router: longest-prefix match, TTL decrement, checksum zero-fill"@,
        r@[1].program == Program::L3Fwd,
{
    &[
        PipelineSpec {
            name: "l2fwd",
            summary: "learned-free L2 switch: exact match on destination MAC, broadcast on miss",
            program: Program::L2Fwd,
        },
        PipelineSpec {
            name: "l3fwd",
            summary: "IPv4 router: longest-prefix match, TTL decrement, checksum zero-fill",
            program: Program::L3Fwd,
        },
    ]
}

/// The registered pipeline names.
pub open spec fn registered() -> Seq<Seq<char>> {
    seq!["l2fwd"@, "l3fwd"@]
}

/// The registered pipeline names, for configuration validation.
#[must_use]
pub fn names() -> (r: Vec<&'static str>)
    ensures
        r@.len() == registered().len(),
        forall|i: int| 0 <= i < r@.len() ==> (#[trigger] r@[i])@ == registered()[i],
{
    let all: &'static [PipelineSpec] = registry();
    let mut out: Vec<&'static str> = Vec::new();
    out.push(all[0].name);
    out.push(all[1].name);
    out
}

/// Registered names are unique.
pub proof fn law_registered_names_are_unique()
    ensures
        registered().no_duplicates(),
{
    reveal_strlit("l2fwd");
    reveal_strlit("l3fwd");
    assert("l2fwd"@[1] == '2' && "l3fwd"@[1] == '3');
}

/// The program behind a loaded pipeline.
#[derive(Debug)]
pub enum Native {
    /// See [`crate::programs::l2fwd`].
    L2(L2Fwd),
    /// See [`crate::programs::l3fwd`].
    L3(L3Fwd),
    /// See [`crate::programs::null`].
    Null(NullPipeline),
}

/// A pipeline loaded by name.
#[derive(Debug)]
pub struct Loaded {
    name: &'static str,
    program: Native,
}

impl Loaded {
    /// The program that was loaded.
    pub closed spec fn spec_program(&self) -> Native {
        self.program
    }

    /// The surface of the program itself.
    pub closed spec fn inner_surface(&self) -> SurfaceModel {
        match self.program {
            Native::L2(p) => p.surface(),
            Native::L3(p) => p.surface(),
            Native::Null(p) => p.surface(),
        }
    }
}

impl TableOps for Loaded {
    closed spec fn inv(&self) -> bool {
        match self.program {
            Native::L2(p) => p.inv() && p.surface().table is Some,
            Native::L3(p) => p.inv() && p.surface().table is Some,
            Native::Null(p) => p.inv() && p.surface().owner == self.name@,
        }
    }

    closed spec fn surface(&self) -> SurfaceModel {
        SurfaceModel { owner: self.name@, table: self.inner_surface().table }
    }

    open spec fn generation(&self) -> u64 {
        match self.spec_program() {
            Native::L2(p) => p.generation(),
            Native::L3(p) => p.generation(),
            Native::Null(p) => p.generation(),
        }
    }

    open spec fn same_program(&self, before: &Self) -> bool {
        match (self.spec_program(), before.spec_program()) {
            (Native::L2(p), Native::L2(q)) => p.same_program(&q),
            (Native::L3(p), Native::L3(q)) => p.same_program(&q),
            (Native::Null(p), Native::Null(q)) => p.same_program(&q),
            _ => false,
        }
    }

    open spec fn continues(&self, before: &Self) -> bool {
        match (self.spec_program(), before.spec_program()) {
            (Native::L2(p), Native::L2(q)) => p.continues(&q),
            (Native::L3(p), Native::L3(q)) => p.continues(&q),
            (Native::Null(p), Native::Null(q)) => p.continues(&q),
            _ => false,
        }
    }

    proof fn lemma_continues(a: &Self, b: &Self, c: &Self) {
        match (a.spec_program(), b.spec_program(), c.spec_program()) {
            (Native::L2(x), Native::L2(y), Native::L2(z)) => L2Fwd::lemma_continues(&x, &y, &z),
            (Native::L3(x), Native::L3(y), Native::L3(z)) => L3Fwd::lemma_continues(&x, &y, &z),
            (Native::Null(x), Native::Null(y), Native::Null(z)) => NullPipeline::lemma_continues(
                &x,
                &y,
                &z,
            ),
            _ => {},
        }
        match (a.spec_program(), b.spec_program()) {
            (Native::L2(x), Native::L2(y)) => L2Fwd::lemma_continues(&x, &y, &y),
            (Native::L3(x), Native::L3(y)) => L3Fwd::lemma_continues(&x, &y, &y),
            (Native::Null(x), Native::Null(y)) => NullPipeline::lemma_continues(&x, &y, &y),
            (Native::L2(x), _) => L2Fwd::lemma_continues(&x, &x, &x),
            (Native::L3(x), _) => L3Fwd::lemma_continues(&x, &x, &x),
            (Native::Null(x), _) => NullPipeline::lemma_continues(&x, &x, &x),
        }
    }

    fn schemas(&self) -> (r: &'static [TableSchema]) {
        match &self.program {
            Native::L2(p) => p.schemas(),
            Native::L3(p) => p.schemas(),
            Native::Null(p) => p.schemas(),
        }
    }

    fn table_add(&mut self, table: &str, key: TypedKey, action: &str, params: &[TypedVal]) -> (r:
        Result<(), TableError>) {
        match &mut self.program {
            Native::L2(p) => p.table_add(table, key, action, params),
            Native::L3(p) => p.table_add(table, key, action, params),
            Native::Null(p) => p.table_add(table, key, action, params),
        }
    }

    fn table_remove(&mut self, table: &str, key: TypedKey) -> (r: Result<(), TableError>) {
        match &mut self.program {
            Native::L2(p) => p.table_remove(table, key),
            Native::L3(p) => p.table_remove(table, key),
            Native::Null(p) => p.table_remove(table, key),
        }
    }

    fn table_dump(&self, table: &str) -> (r: Result<Vec<EntryDesc>, TableError>) {
        match &self.program {
            Native::L2(p) => p.table_dump(table),
            Native::L3(p) => p.table_dump(table),
            Native::Null(p) => p.table_dump(table),
        }
    }

    fn table_default(&self, table: &str) -> (r: Result<EntryDesc, TableError>) {
        match &self.program {
            Native::L2(p) => p.table_default(table),
            Native::L3(p) => p.table_default(table),
            Native::Null(p) => p.table_default(table),
        }
    }

    fn table_set_default(&mut self, table: &str, action: &str, params: &[TypedVal]) -> (r: Result<
        (),
        TableError,
    >) {
        match &mut self.program {
            Native::L2(p) => p.table_set_default(table, action, params),
            Native::L3(p) => p.table_set_default(table, action, params),
            Native::Null(p) => p.table_set_default(table, action, params),
        }
    }

    fn table_clear(&mut self, table: &str) -> (r: Result<usize, TableError>) {
        match &mut self.program {
            Native::L2(p) => p.table_clear(table),
            Native::L3(p) => p.table_clear(table),
            Native::Null(p) => p.table_clear(table),
        }
    }
}

/// The engine of the program behind a loaded pipeline.
#[derive(Debug)]
pub enum NativeEngine {
    /// See [`crate::programs::l2fwd`].
    L2(L2Engine),
    /// See [`crate::programs::l3fwd`].
    L3(L3Engine),
    /// See [`crate::programs::null`].
    Null(NullEngine),
}

/// The engine of a loaded pipeline.
#[derive(Debug)]
pub struct LoadedEngine {
    name: &'static str,
    engine: NativeEngine,
}

impl LoadedEngine {
    /// The engine of the program itself.
    pub closed spec fn spec_engine(&self) -> NativeEngine {
        self.engine
    }
}

impl Engine<Loaded> for LoadedEngine {
    open spec fn follows(&self, program: &Loaded) -> bool {
        match (self.spec_engine(), program.spec_program()) {
            (NativeEngine::L2(e), Native::L2(p)) => e.follows(&p),
            (NativeEngine::L3(e), Native::L3(p)) => e.follows(&p),
            (NativeEngine::Null(e), Native::Null(p)) => e.follows(&p),
            _ => false,
        }
    }

    open spec fn decision(program: &Loaded, ingress: u16, frame: Seq<u8>) -> (Verdict, Seq<u8>) {
        match program.spec_program() {
            Native::L2(p) => L2Engine::decision(&p, ingress, frame),
            Native::L3(p) => L3Engine::decision(&p, ingress, frame),
            Native::Null(p) => NullEngine::decision(&p, ingress, frame),
        }
    }

    fn process(&mut self, program: &Loaded, f: &mut FrameCtx<'_>) -> (v: Verdict) {
        match &mut self.engine {
            NativeEngine::L2(e) => match &program.program {
                Native::L2(p) => e.process(p, f),
                _ => Verdict::Drop,
            },
            NativeEngine::L3(e) => match &program.program {
                Native::L3(p) => e.process(p, f),
                _ => Verdict::Drop,
            },
            NativeEngine::Null(e) => match &program.program {
                Native::Null(p) => e.process(p, f),
                _ => Verdict::Drop,
            },
        }
    }

    closed spec fn program_name(&self) -> Seq<char> {
        self.name@
    }

    fn name(&self) -> (r: &'static str) {
        self.name
    }
}

impl Pipeline for Loaded {
    type Engine = LoadedEngine;

    fn name(&self) -> (r: &'static str) {
        self.name
    }

    fn engine(&self) -> (r: LoadedEngine) {
        let engine: NativeEngine = match &self.program {
            Native::L2(p) => NativeEngine::L2(p.engine()),
            Native::L3(p) => NativeEngine::L3(p.engine()),
            Native::Null(p) => NativeEngine::Null(p.engine()),
        };
        LoadedEngine { name: self.name, engine }
    }

    proof fn lemma_engines_follow(before: &Self, after: &Self, engine: &LoadedEngine) {
        match (before.spec_program(), after.spec_program(), engine.spec_engine()) {
            (Native::L2(p), Native::L2(q), NativeEngine::L2(e)) => L2Fwd::lemma_engines_follow(
                &p,
                &q,
                &e,
            ),
            (Native::L3(p), Native::L3(q), NativeEngine::L3(e)) => L3Fwd::lemma_engines_follow(
                &p,
                &q,
                &e,
            ),
            _ => {},
        }
    }
}

/// A loaded pipeline is its program under another name: the control plane sees
/// the program's own table.
pub proof fn law_loading_keeps_the_table(p: Loaded)
    ensures
        p.inv() ==> match p.spec_program() {
            Native::L2(q) => q.inv() && p.surface().table == q.surface().table,
            Native::L3(q) => q.inv() && p.surface().table == q.surface().table,
            Native::Null(q) => q.inv() && p.surface() == q.surface(),
        },
{
}

/// The surface of a program that was just loaded under `name`.
pub open spec fn fresh_surface(program: Program, name: Seq<char>) -> SurfaceModel {
    SurfaceModel {
        owner: name,
        table: Some(
            match program {
                Program::L2Fwd => l2fwd::initial(),
                Program::L3Fwd => l3fwd::initial(),
            },
        ),
    }
}

/// Load a program under a name of its own.
fn load(name: &'static str, program: Program, params: &PipelineParams) -> (r: Loaded)
    ensures
        r.inv(),
        r.surface() == fresh_surface(program, name@),
        r.generation() == 0,
        program == Program::L2Fwd <==> r.spec_program() is L2,
        program == Program::L3Fwd <==> r.spec_program() is L3,
{
    match program {
        Program::L2Fwd => Loaded { name, program: Native::L2(L2Fwd::new(params)) },
        Program::L3Fwd => Loaded { name, program: Native::L3(L3Fwd::new(params)) },
    }
}

/// Load a pipeline by name.
#[must_use]
pub fn build(name: &str, params: &PipelineParams) -> (r: Option<Loaded>)
    ensures
        r is Some <==> registered().contains(name@),
        r matches Some(p) ==> p.inv() && p.generation() == 0 && (name@ == "l2fwd"@ ==> p.surface() == fresh_surface(
            Program::L2Fwd,
            name@,
        ) && p.spec_program() is L2) && (name@ == "l3fwd"@ ==> p.surface() == fresh_surface(
            Program::L3Fwd,
            name@,
        ) && p.spec_program() is L3),
{
    let all: &'static [PipelineSpec] = registry();
    proof {
        law_registered_names_are_unique();
        assert(registered()[0] == "l2fwd"@ && registered()[1] == "l3fwd"@);
        assert("l2fwd"@ != "l3fwd"@);
    }
    if same(all[0].name, name) {
        return Some(load(all[0].name, all[0].program, params));
    }
    if same(all[1].name, name) {
        return Some(load(all[1].name, all[1].program, params));
    }
    None
}

/// Whether `program` is the oracle on a ring of `vports`.
pub open spec fn rings(program: Native, vports: Seq<u16>) -> bool {
    program matches Native::Null(n) && forall|ingress: u16| #[trigger]
        n.egress_of(ingress) == successor(vports, ingress, vports.len() as int)
}

/// Load a selection under its own name, where this build executes it itself:
/// each program on the native backend, and the oracle. The compiled backends
/// are loaded by whoever holds their code.
#[must_use]
pub fn build_selection(selection: Selection, params: &PipelineParams) -> (r: Option<Loaded>)
    ensures
        match selection {
            Selection::P4 { program, backend: Backend::Native } => r matches Some(p) && p.inv()
                && p.generation() == 0 && p.surface() == fresh_surface(
                program,
                selection.spec_name(),
            ) && (program == Program::L2Fwd <==> p.spec_program() is L2),
            Selection::P4 { program: _, backend: _ } => r is None,
            Selection::Oracle => r matches Some(p) && p.inv() && p.surface() == (SurfaceModel {
                owner: selection.spec_name(),
                table: None,
            }) && rings(p.spec_program(), params.vports@),
        },
{
    match selection {
        Selection::P4 { program, backend } => match backend {
            Backend::Native => Some(load(selection.name(), program, params)),
            Backend::X4c => None,
            Backend::Ubpf => None,
        },
        Selection::Oracle => Some(
            Loaded { name: selection.name(), program: Native::Null(NullPipeline::new(params)) },
        ),
    }
}

/// A loaded pipeline decides as the program it was loaded from: the same
/// verdict and the same bytes for every frame from every vport.
pub proof fn law_loading_keeps_the_decisions(p: &Loaded, ingress: u16, frame: Seq<u8>)
    ensures
        match p.spec_program() {
            Native::L2(q) => LoadedEngine::decision(p, ingress, frame) == L2Engine::decision(
                &q,
                ingress,
                frame,
            ),
            Native::L3(q) => LoadedEngine::decision(p, ingress, frame) == L3Engine::decision(
                &q,
                ingress,
                frame,
            ),
            Native::Null(q) => LoadedEngine::decision(p, ingress, frame) == NullEngine::decision(
                &q,
                ingress,
                frame,
            ),
        },
{
}

/// What a pipeline does before anyone configures it: the switch floods every
/// frame that has an Ethernet header, and the router drops every frame.
pub proof fn law_fresh_pipelines_flood_or_drop(
    p: &Loaded,
    name: Seq<char>,
    ingress: u16,
    frame: Seq<u8>,
)
    requires
        p.inv(),
    ensures
        p.spec_program() is L2 && p.surface() == fresh_surface(Program::L2Fwd, name) && frame.len()
            >= 14 ==> LoadedEngine::decision(p, ingress, frame) == (Verdict::Broadcast, frame),
        p.spec_program() is L3 && p.surface() == fresh_surface(Program::L3Fwd, name)
            ==> LoadedEngine::decision(p, ingress, frame) == (Verdict::Drop, frame),
{
    match p.spec_program() {
        Native::L2(q) => if p.surface() == fresh_surface(Program::L2Fwd, name) && frame.len()
            >= 14 {
            l2fwd::law_l2_starts_as_a_hub(&q, ingress, frame);
        },
        Native::L3(q) => if p.surface() == fresh_surface(Program::L3Fwd, name) {
            l3fwd::law_l3_starts_without_routes(&q, ingress, frame);
        },
        Native::Null(_) => {},
    }
}

/// The oracle on a ring sends every frame from a vport on to the next one, as
/// it came.
pub proof fn law_the_oracle_goes_round(
    p: &Loaded,
    vports: Seq<u16>,
    i: int,
    frame: Seq<u8>,
)
    requires
        rings(p.spec_program(), vports),
        0 <= i < vports.len(),
        forall|a: int, b: int|
            0 <= a < b < vports.len() ==> (#[trigger] vports[a]) != (#[trigger] vports[b]),
    ensures
        LoadedEngine::decision(p, vports[i], frame) == (
            Verdict::Forward(
                vports[if i + 1 < vports.len() {
                    i + 1
                } else {
                    0
                }],
            ),
            frame,
        ),
{
    crate::programs::null::law_frames_go_to_the_next_vport(vports, i);
}

} // verus!
