//! What this build can load, as an algebra rather than a list of names.
//!
//! There is one set of programs and there are three independent ways to
//! execute them. Those are separate axes, so they are separate types: a
//! [`Selection`] is a [`Program`] paired with a [`Backend`], and because both
//! are closed there is no way to name a combination that does not exist.
//!
//! The one thing that is not a program on a backend is the benchmark oracle:
//! it parses nothing and has no source, so pairing it with a backend would be
//! meaningless. It is a separate variant rather than a third program.
//!
//! Each backend also carries [`BackendFacts`] describing what it actually is:
//! where its code came from, whether it allocates per frame, how it executes.
use crate::engine::Verdict;
use crate::envelope::{Admission, Envelope, Scrub};
use crate::text::same;
use vstd::prelude::*;

verus! {

/// Whether the benchmark oracle can be selected in this build.
pub const ORACLE: bool = false;

/// A program the switch ships.
///
/// Closed on purpose: every backend implements every program.
#[derive(Clone, Copy, Debug, PartialEq, Eq, Hash, Structural)]
pub enum Program {
    /// Learning-free L2 switch: exact match on destination MAC, flood on miss.
    L2Fwd,
    /// IPv4 router: longest-prefix match, TTL decrement, checksum zero-fill.
    L3Fwd,
}

impl Program {
    /// Every shipped program.
    #[must_use]
    pub fn all() -> (r: [Program; 2])
        ensures
            r@ == seq![Program::L2Fwd, Program::L3Fwd],
    {
        let r: [Program; 2] = [Program::L2Fwd, Program::L3Fwd];
        assert(r@ =~= seq![Program::L2Fwd, Program::L3Fwd]);
        r
    }

    /// The name used in the configuration and on the wire.
    pub open spec fn spec_name(self) -> Seq<char> {
        match self {
            Program::L2Fwd => "l2fwd"@,
            Program::L3Fwd => "l3fwd"@,
        }
    }

    /// The name used in the configuration and on the wire.
    #[must_use]
    pub fn name(self) -> (r: &'static str)
        ensures
            r@ == self.spec_name(),
    {
        match self {
            Program::L2Fwd => "l2fwd",
            Program::L3Fwd => "l3fwd",
        }
    }

    /// What the switch does around this program.
    pub open spec fn spec_envelope(self) -> Envelope {
        match self {
            Program::L2Fwd => Envelope::spec_identity(),
            Program::L3Fwd => Envelope {
                admission: Admission::CoherentIpv4,
                scrub: Scrub::InnerChecksums,
            },
        }
    }

    /// What the switch does around this program: the check every arriving
    /// frame must pass, and the fix-up every departing frame gets (see
    /// [`crate::envelope`]).
    ///
    /// A property of the *program*, not of a backend: every backend running a
    /// program applies the same envelope.
    #[must_use]
    pub fn envelope(self) -> (r: Envelope)
        ensures
            r == self.spec_envelope(),
    {
        match self {
            Program::L2Fwd => Envelope::identity(),
            Program::L3Fwd => Envelope {
                admission: Admission::CoherentIpv4,
                scrub: Scrub::InnerChecksums,
            },
        }
    }

    /// One line for `--help` and `info`.
    #[must_use]
    pub fn summary(self) -> (r: &'static str)
        ensures
            r@ == (match self {
                Program::L2Fwd =>
                    "L2 switch: exact match on destination MAC, broadcast on miss"@,
                Program::L3Fwd =>
                    "IPv4 router: longest-prefix match, TTL decrement, checksum zero-fill"@,
            }),
    {
        match self {
            Program::L2Fwd => "L2 switch: exact match on destination MAC, broadcast on miss",
            Program::L3Fwd =>
                "IPv4 router: longest-prefix match, TTL decrement, checksum zero-fill",
        }
    }

    /// The source of record for this program under `arch`.
    ///
    /// Two architectures, because the two program compilers target different
    /// ones. The forwarding logic is the same program in both.
    #[must_use]
    pub fn source(self, arch: Arch) -> (r: &'static str)
        ensures
            r@ == (match (self, arch) {
                (Program::L2Fwd, Arch::SoftNpu) => "p4/programs/l2fwd/l2fwd.softnpu.p4"@,
                (Program::L2Fwd, Arch::Ubpf) => "p4/programs/l2fwd/l2fwd.ubpf.p4"@,
                (Program::L3Fwd, Arch::SoftNpu) => "p4/programs/l3fwd/l3fwd.softnpu.p4"@,
                (Program::L3Fwd, Arch::Ubpf) => "p4/programs/l3fwd/l3fwd.ubpf.p4"@,
            }),
    {
        match (self, arch) {
            (Program::L2Fwd, Arch::SoftNpu) => "p4/programs/l2fwd/l2fwd.softnpu.p4",
            (Program::L2Fwd, Arch::Ubpf) => "p4/programs/l2fwd/l2fwd.ubpf.p4",
            (Program::L3Fwd, Arch::SoftNpu) => "p4/programs/l3fwd/l3fwd.softnpu.p4",
            (Program::L3Fwd, Arch::Ubpf) => "p4/programs/l3fwd/l3fwd.ubpf.p4",
        }
    }

    /// The program called `s`.
    pub open spec fn named(s: Seq<char>) -> Option<Program> {
        if s == Program::L2Fwd.spec_name() {
            Some(Program::L2Fwd)
        } else if s == Program::L3Fwd.spec_name() {
            Some(Program::L3Fwd)
        } else {
            None
        }
    }

    /// Parse a program name.
    #[must_use]
    pub fn parse(s: &str) -> (r: Option<Program>)
        ensures
            r == Program::named(s@),
    {
        if same(s, Program::L2Fwd.name()) {
            Some(Program::L2Fwd)
        } else if same(s, Program::L3Fwd.name()) {
            Some(Program::L3Fwd)
        } else {
            None
        }
    }
}

/// An architecture model. Which one a source targets is a property of the
/// compiler that will read it, not of the forwarding logic it expresses.
#[derive(Clone, Copy, Debug, PartialEq, Eq, Hash, Structural)]
pub enum Arch {
    /// The SoftNPU model, the one `x4c` compiles.
    SoftNpu,
    /// `ubpf_model.p4`, the one `p4c --target ubpf` compiles.
    Ubpf,
}

/// How a program's semantics get executed.
#[derive(Clone, Copy, Debug, PartialEq, Eq, Hash, Structural)]
pub enum Backend {
    /// Written against the switch's own header and table primitives.
    Native,
    /// Generated from the source by `x4c`.
    X4c,
    /// uBPF bytecode generated from the source by `p4c --target ubpf`,
    /// executed in process.
    Ubpf,
}

impl Backend {
    /// Every shipped backend.
    #[must_use]
    pub fn all() -> (r: [Backend; 3])
        ensures
            r@ == seq![Backend::Native, Backend::X4c, Backend::Ubpf],
    {
        let r: [Backend; 3] = [Backend::Native, Backend::X4c, Backend::Ubpf];
        assert(r@ =~= seq![Backend::Native, Backend::X4c, Backend::Ubpf]);
        r
    }

    /// The name used in the configuration and on the wire.
    pub open spec fn spec_name(self) -> Seq<char> {
        match self {
            Backend::Native => "native"@,
            Backend::X4c => "x4c"@,
            Backend::Ubpf => "ubpf"@,
        }
    }

    /// The name used in the configuration and on the wire.
    #[must_use]
    pub fn name(self) -> (r: &'static str)
        ensures
            r@ == self.spec_name(),
    {
        match self {
            Backend::Native => "native",
            Backend::X4c => "x4c",
            Backend::Ubpf => "ubpf",
        }
    }

    /// The architecture whose source this backend consumes.
    #[must_use]
    pub fn arch(self) -> (r: Arch)
        ensures
            r == (if self == Backend::Ubpf {
                Arch::Ubpf
            } else {
                Arch::SoftNpu
            }),
    {
        match self {
            Backend::Native => Arch::SoftNpu,
            Backend::X4c => Arch::SoftNpu,
            Backend::Ubpf => Arch::Ubpf,
        }
    }

    /// The backend called `s`.
    pub open spec fn named(s: Seq<char>) -> Option<Backend> {
        if s == Backend::Native.spec_name() {
            Some(Backend::Native)
        } else if s == Backend::X4c.spec_name() {
            Some(Backend::X4c)
        } else if s == Backend::Ubpf.spec_name() {
            Some(Backend::Ubpf)
        } else {
            None
        }
    }

    /// Parse a backend name.
    #[must_use]
    pub fn parse(s: &str) -> (r: Option<Backend>)
        ensures
            r == Backend::named(s@),
    {
        if same(s, Backend::Native.name()) {
            Some(Backend::Native)
        } else if same(s, Backend::X4c.name()) {
            Some(Backend::X4c)
        } else if same(s, Backend::Ubpf.name()) {
            Some(Backend::Ubpf)
        } else {
            None
        }
    }

    /// What this backend is. Reported by `info`.
    pub open spec fn spec_facts(self) -> BackendFacts {
        match self {
            Backend::Native => BackendFacts {
                provenance: Provenance::HandRendered,
                alloc: AllocProfile::NoHeap,
                execution: ExecProfile::Native,
            },
            Backend::X4c => BackendFacts {
                provenance: Provenance::Compiled { compiler: "x4c" },
                alloc: AllocProfile::PerFrame {
                    reason:
                        "x4c runtime models header fields as heap BitVec and returns Vec per packet",
                },
                execution: ExecProfile::Native,
            },
            Backend::Ubpf => BackendFacts {
                provenance: Provenance::Compiled { compiler: "p4c --target ubpf" },
                alloc: AllocProfile::NoHeap,
                execution: ExecProfile::Bytecode { mode: ExecMode::Jit },
            },
        }
    }

    /// What this backend is. Reported by `info`; the documentation quotes this
    /// rather than making claims of its own.
    #[must_use]
    pub fn facts(self) -> (r: BackendFacts)
        ensures
            r == self.spec_facts(),
    {
        match self {
            Backend::Native => BackendFacts {
                provenance: Provenance::HandRendered,
                alloc: AllocProfile::NoHeap,
                execution: ExecProfile::Native,
            },
            Backend::X4c => BackendFacts {
                provenance: Provenance::Compiled { compiler: "x4c" },
                alloc: AllocProfile::PerFrame {
                    reason:
                        "x4c runtime models header fields as heap BitVec and returns Vec per packet",
                },
                execution: ExecProfile::Native,
            },
            Backend::Ubpf => BackendFacts {
                provenance: Provenance::Compiled { compiler: "p4c --target ubpf" },
                alloc: AllocProfile::NoHeap,
                execution: ExecProfile::Bytecode { mode: ExecMode::preferred() },
            },
        }
    }
}

/// Where a backend's executed code came from.
#[derive(Clone, Copy, Debug, PartialEq, Eq)]
pub enum Provenance {
    /// Written by hand against the source.
    HandRendered,
    /// Emitted by a compiler from the source.
    Compiled {
        /// The compiler that produced it.
        compiler: &'static str,
    },
}

/// Whether a backend allocates while forwarding.
#[derive(Clone, Copy, Debug, PartialEq, Eq)]
pub enum AllocProfile {
    /// No heap traffic on the fast path.
    NoHeap,
    /// Allocates per frame, for the stated reason.
    PerFrame {
        /// Why: named so the cost is attributable.
        reason: &'static str,
    },
}

/// How a backend's code runs on the CPU.
#[derive(Clone, Copy, Debug, PartialEq, Eq)]
pub enum ExecProfile {
    /// Compiled, inlined into the shard loop.
    Native,
    /// Bytecode in a virtual machine.
    Bytecode {
        /// Interpreted, or compiled to host instructions.
        mode: ExecMode,
    },
}

/// How the uBPF virtual machine executes a program. The switch is built for
/// x86-64 hosts, which can run both modes.
#[derive(Clone, Copy, Debug, PartialEq, Eq, Structural)]
pub enum ExecMode {
    /// Bytecode interpreted instruction by instruction.
    Interpreted,
    /// Bytecode compiled to host instructions before the first frame.
    Jit,
}

impl ExecMode {
    /// Every mode this target can run, fastest first.
    #[must_use]
    pub fn all() -> (r: [ExecMode; 2])
        ensures
            r@ == seq![ExecMode::Jit, ExecMode::Interpreted],
    {
        let r: [ExecMode; 2] = [ExecMode::Jit, ExecMode::Interpreted];
        assert(r@ =~= seq![ExecMode::Jit, ExecMode::Interpreted]);
        r
    }

    /// The mode used when nothing overrides it: the fastest one this target
    /// can actually run.
    #[must_use]
    pub fn preferred() -> (r: ExecMode)
        ensures
            r == ExecMode::Jit,
    {
        ExecMode::Jit
    }

    /// The name reported by `info`.
    #[must_use]
    pub fn name(self) -> (r: &'static str)
        ensures
            r@ == (match self {
                ExecMode::Interpreted => "interpreted"@,
                ExecMode::Jit => "jit"@,
            }),
    {
        match self {
            ExecMode::Interpreted => "interpreted",
            ExecMode::Jit => "jit",
        }
    }
}

/// What a backend actually is, as the backend itself reports it.
#[derive(Clone, Copy, Debug, PartialEq, Eq)]
pub struct BackendFacts {
    /// Where the executed code came from.
    pub provenance: Provenance,
    /// Whether forwarding allocates.
    pub alloc: AllocProfile,
    /// How the code runs.
    pub execution: ExecProfile,
}

/// What to load: a program on a backend, or the benchmark oracle.
///
/// A sum, not a pair of optional fields, because "oracle with a backend" and
/// "program without a backend" are both meaningless and neither is
/// representable here.
#[derive(Clone, Copy, Debug, PartialEq, Eq, Structural)]
pub enum Selection {
    /// A program executed by one of the three backends.
    P4 {
        /// Which program.
        program: Program,
        /// Which backend executes it.
        backend: Backend,
    },
    /// The benchmark oracle: it has no source and no backend.
    Oracle,
}

/// Why a pipeline and backend pair could not be parsed.
///
/// Closed, and every variant carries what the operator needs to fix it.
#[derive(Clone, Debug, PartialEq, Eq)]
pub enum SelectError {
    /// No such program.
    UnknownProgram {
        /// What was asked for.
        got: String,
    },
    /// No such backend.
    UnknownBackend {
        /// What was asked for.
        got: String,
    },
    /// A backend was named for a selection that has no backend to choose.
    BackendNotApplicable {
        /// The pipeline that takes no backend.
        pipeline: &'static str,
    },
}

/// A [`SelectError`] with its texts as characters.
pub enum SelectErrorModel {
    UnknownProgram { got: Seq<char> },
    UnknownBackend { got: Seq<char> },
    BackendNotApplicable { pipeline: Seq<char> },
}

impl View for SelectError {
    type V = SelectErrorModel;

    open spec fn view(&self) -> SelectErrorModel {
        match *self {
            SelectError::UnknownProgram { got } => SelectErrorModel::UnknownProgram { got: got@ },
            SelectError::UnknownBackend { got } => SelectErrorModel::UnknownBackend { got: got@ },
            SelectError::BackendNotApplicable { pipeline } =>
                SelectErrorModel::BackendNotApplicable { pipeline: pipeline@ },
        }
    }
}

impl SelectErrorModel {
    /// What the error says.
    pub open spec fn message(self) -> Seq<char> {
        match self {
            SelectErrorModel::UnknownProgram { got } => "unknown pipeline `"@ + got + "`; known: "@
                + Program::L2Fwd.spec_name() + ", "@ + Program::L3Fwd.spec_name(),
            SelectErrorModel::UnknownBackend { got } => "unknown backend `"@ + got + "`; known: "@
                + Backend::Native.spec_name() + ", "@ + Backend::X4c.spec_name() + ", "@
                + Backend::Ubpf.spec_name(),
            SelectErrorModel::BackendNotApplicable { pipeline } => "pipeline `"@ + pipeline
                + "` takes no backend"@,
        }
    }
}

impl SelectError {
    /// What the error says, with the alternatives.
    pub fn message(&self) -> (r: String)
        ensures
            r@ == self@.message(),
    {
        match self {
            SelectError::UnknownProgram { got } => {
                let mut out: String = "unknown pipeline `".to_owned();
                out.append(got.as_str());
                out.append("`; known: ");
                out.append(Program::L2Fwd.name());
                out.append(", ");
                out.append(Program::L3Fwd.name());
                out
            },
            SelectError::UnknownBackend { got } => {
                let mut out: String = "unknown backend `".to_owned();
                out.append(got.as_str());
                out.append("`; known: ");
                out.append(Backend::Native.name());
                out.append(", ");
                out.append(Backend::X4c.name());
                out.append(", ");
                out.append(Backend::Ubpf.name());
                out
            },
            SelectError::BackendNotApplicable { pipeline } => {
                let mut out: String = "pipeline `".to_owned();
                out.append(pipeline);
                out.append("` takes no backend");
                out
            },
        }
    }
}

impl Selection {
    /// Every selection this build can load: each program on each backend, and
    /// the oracle where it can be selected.
    pub open spec fn listed() -> Seq<Selection> {
        let pairs = seq![
            Selection::P4 { program: Program::L2Fwd, backend: Backend::Native },
            Selection::P4 { program: Program::L2Fwd, backend: Backend::X4c },
            Selection::P4 { program: Program::L2Fwd, backend: Backend::Ubpf },
            Selection::P4 { program: Program::L3Fwd, backend: Backend::Native },
            Selection::P4 { program: Program::L3Fwd, backend: Backend::X4c },
            Selection::P4 { program: Program::L3Fwd, backend: Backend::Ubpf },
        ];
        if ORACLE {
            pairs.push(Selection::Oracle)
        } else {
            pairs
        }
    }

    /// Every selection this build can load.
    #[must_use]
    pub fn all() -> (r: Vec<Selection>)
        ensures
            r@ == Selection::listed(),
    {
        let programs: [Program; 2] = Program::all();
        let backends: [Backend; 3] = Backend::all();
        let mut out: Vec<Selection> = Vec::new();
        let mut i: usize = 0;
        while i < 2
            invariant
                i <= 2,
                programs@ == seq![Program::L2Fwd, Program::L3Fwd],
                backends@ == seq![Backend::Native, Backend::X4c, Backend::Ubpf],
                out@.len() == 3 * i,
                forall|k: int|
                    0 <= k < out@.len() ==> (#[trigger] out@[k]) == (Selection::P4 {
                        program: programs@[k / 3],
                        backend: backends@[k % 3],
                    }),
            decreases 2 - i,
        {
            let mut j: usize = 0;
            while j < 3
                invariant
                    i < 2,
                    j <= 3,
                    programs@.len() == 2,
                    backends@.len() == 3,
                    out@.len() == 3 * i + j,
                    forall|k: int|
                        0 <= k < out@.len() ==> (#[trigger] out@[k]) == (Selection::P4 {
                            program: programs@[k / 3],
                            backend: backends@[k % 3],
                        }),
                decreases 3 - j,
            {
                out.push(Selection::P4 { program: programs[i], backend: backends[j] });
                j += 1;
            }
            i += 1;
        }
        assert(out@ =~= Selection::listed().subrange(0, 6));
        if ORACLE {
            out.push(Selection::Oracle);
        }
        assert(out@ =~= Selection::listed());
        out
    }

    /// The selection that a pipeline name and an optional backend name mean.
    pub open spec fn named(pipeline: Seq<char>, backend: Option<Seq<char>>) -> Result<
        Selection,
        SelectErrorModel,
    > {
        if ORACLE && pipeline == "null"@ {
            match backend {
                None => Ok(Selection::Oracle),
                Some(_) => Err(SelectErrorModel::BackendNotApplicable { pipeline: "null"@ }),
            }
        } else {
            match (Program::named(pipeline), backend) {
                (None, _) => Err(SelectErrorModel::UnknownProgram { got: pipeline }),
                (Some(program), None) => Ok(Selection::P4 { program, backend: Backend::Native }),
                (Some(program), Some(b)) => match Backend::named(b) {
                    Some(backend) => Ok(Selection::P4 { program, backend }),
                    None => Err(SelectErrorModel::UnknownBackend { got: b }),
                },
            }
        }
    }

    /// Parse the configured pipeline name and optional backend name.
    ///
    /// This is the only door into a `Selection`.
    pub fn parse(pipeline: &str, backend: Option<&str>) -> (r: Result<Selection, SelectError>)
        ensures
            r matches Ok(s) ==> Selection::named(
                pipeline@,
                (match backend {
                    Some(b) => Some(b@),
                    None => None,
                }),
            ) == Ok::<Selection, SelectErrorModel>(s),
            r matches Err(e) ==> Selection::named(
                pipeline@,
                (match backend {
                    Some(b) => Some(b@),
                    None => None,
                }),
            ) == Err::<Selection, SelectErrorModel>(e@),
    {
        if ORACLE && same(pipeline, "null") {
            return match backend {
                None => Ok(Selection::Oracle),
                Some(_) => Err(SelectError::BackendNotApplicable { pipeline: "null" }),
            };
        }
        let program: Program = match Program::parse(pipeline) {
            Some(p) => p,
            None => {
                return Err(SelectError::UnknownProgram { got: pipeline.to_owned() });
            },
        };
        match backend {
            None => Ok(Selection::P4 { program, backend: Backend::Native }),
            Some(b) => match Backend::parse(b) {
                Some(backend) => Ok(Selection::P4 { program, backend }),
                None => Err(SelectError::UnknownBackend { got: b.to_owned() }),
            },
        }
    }

    /// The stable display name, program and backend around a slash.
    pub open spec fn spec_name(self) -> Seq<char> {
        match self {
            Selection::P4 { program: Program::L2Fwd, backend: Backend::Native } => "l2fwd/native"@,
            Selection::P4 { program: Program::L2Fwd, backend: Backend::X4c } => "l2fwd/x4c"@,
            Selection::P4 { program: Program::L2Fwd, backend: Backend::Ubpf } => "l2fwd/ubpf"@,
            Selection::P4 { program: Program::L3Fwd, backend: Backend::Native } => "l3fwd/native"@,
            Selection::P4 { program: Program::L3Fwd, backend: Backend::X4c } => "l3fwd/x4c"@,
            Selection::P4 { program: Program::L3Fwd, backend: Backend::Ubpf } => "l3fwd/ubpf"@,
            Selection::Oracle => "null"@,
        }
    }

    /// The stable display name.
    #[must_use]
    pub fn name(self) -> (r: &'static str)
        ensures
            r@ == self.spec_name(),
    {
        match self {
            Selection::P4 { program: Program::L2Fwd, backend: Backend::Native } => "l2fwd/native",
            Selection::P4 { program: Program::L2Fwd, backend: Backend::X4c } => "l2fwd/x4c",
            Selection::P4 { program: Program::L2Fwd, backend: Backend::Ubpf } => "l2fwd/ubpf",
            Selection::P4 { program: Program::L3Fwd, backend: Backend::Native } => "l3fwd/native",
            Selection::P4 { program: Program::L3Fwd, backend: Backend::X4c } => "l3fwd/x4c",
            Selection::P4 { program: Program::L3Fwd, backend: Backend::Ubpf } => "l3fwd/ubpf",
            Selection::Oracle => "null",
        }
    }

    /// The facts for whatever executes this selection.
    #[must_use]
    pub fn facts(self) -> (r: BackendFacts)
        ensures
            r == (match self {
                Selection::P4 { program: _, backend } => backend.spec_facts(),
                Selection::Oracle => Backend::Native.spec_facts(),
            }),
    {
        match self {
            Selection::P4 { program: _, backend } => backend.facts(),
            Selection::Oracle => BackendFacts {
                provenance: Provenance::HandRendered,
                alloc: AllocProfile::NoHeap,
                execution: ExecProfile::Native,
            },
        }
    }
}

/// A program and a backend are found again by their own names.
pub proof fn law_names_parse_back(program: Program, backend: Backend)
    ensures
        Program::named(program.spec_name()) == Some(program),
        Backend::named(backend.spec_name()) == Some(backend),
        Selection::named(program.spec_name(), Some(backend.spec_name())) == Ok::<
            Selection,
            SelectErrorModel,
        >(Selection::P4 { program, backend }),
        Selection::named(program.spec_name(), None) == Ok::<Selection, SelectErrorModel>(
            Selection::P4 { program, backend: Backend::Native },
        ),
{
    reveal_strlit("l2fwd");
    reveal_strlit("l3fwd");
    reveal_strlit("native");
    reveal_strlit("x4c");
    reveal_strlit("ubpf");
    assert("l2fwd"@[1] == '2' && "l3fwd"@[1] == '3');
    assert("native"@[0] == 'n' && "x4c"@[0] == 'x' && "ubpf"@[0] == 'u');
}

/// No two selections share a name.
pub proof fn law_selection_names_are_unique(a: Selection, b: Selection)
    ensures
        a.spec_name() == b.spec_name() ==> a == b,
{
    reveal_strlit("l2fwd/native");
    reveal_strlit("l2fwd/x4c");
    reveal_strlit("l2fwd/ubpf");
    reveal_strlit("l3fwd/native");
    reveal_strlit("l3fwd/x4c");
    reveal_strlit("l3fwd/ubpf");
    reveal_strlit("null");
    assert("l2fwd/native"@[1] == '2' && "l3fwd/native"@[1] == '3');
    assert("l2fwd/x4c"@[1] == '2' && "l3fwd/x4c"@[1] == '3');
    assert("l2fwd/ubpf"@[1] == '2' && "l3fwd/ubpf"@[1] == '3');
    assert("l2fwd/native"@.len() == 12 && "l3fwd/native"@.len() == 12);
    assert("l2fwd/x4c"@.len() == 9 && "l3fwd/x4c"@.len() == 9);
    assert("l2fwd/ubpf"@.len() == 10 && "l3fwd/ubpf"@.len() == 10);
    assert("null"@.len() == 4);
    match (a, b) {
        (
            Selection::P4 { program: p, backend: x },
            Selection::P4 { program: q, backend: y },
        ) => {
            assert(a.spec_name() == b.spec_name() ==> p == q && x == y);
        },
        _ => {},
    }
}

/// The product is total: every program is listed with every backend, each pair
/// once.
pub proof fn law_the_product_is_total(program: Program, backend: Backend)
    ensures
        Selection::listed().contains(Selection::P4 { program, backend }),
        Selection::listed().no_duplicates(),
{
    let all = Selection::listed();
    let i = match (program, backend) {
        (Program::L2Fwd, Backend::Native) => 0int,
        (Program::L2Fwd, Backend::X4c) => 1,
        (Program::L2Fwd, Backend::Ubpf) => 2,
        (Program::L3Fwd, Backend::Native) => 3,
        (Program::L3Fwd, Backend::X4c) => 4,
        (Program::L3Fwd, Backend::Ubpf) => 5,
    };
    assert(all[i] == (Selection::P4 { program, backend }));
}

/// A pipeline no one knows is refused under the name that was given; a known
/// one with an unknown backend under the backend's. The oracle takes no
/// backend.
pub proof fn law_unknown_names_are_refused(pipeline: Seq<char>, backend: Seq<char>)
    ensures
        ({
            let known = pipeline == "l2fwd"@ || pipeline == "l3fwd"@ || pipeline == "null"@;
            let runs = backend == "native"@ || backend == "x4c"@ || backend == "ubpf"@;
            &&& !known ==> Selection::named(pipeline, None) == Err::<Selection, SelectErrorModel>(
                SelectErrorModel::UnknownProgram { got: pipeline },
            )
            &&& !known ==> Selection::named(pipeline, Some(backend)) == Err::<
                Selection,
                SelectErrorModel,
            >(SelectErrorModel::UnknownProgram { got: pipeline })
            &&& (pipeline == "l2fwd"@ || pipeline == "l3fwd"@) && !runs ==> Selection::named(
                pipeline,
                Some(backend),
            ) == Err::<Selection, SelectErrorModel>(
                SelectErrorModel::UnknownBackend { got: backend },
            )
            &&& ORACLE ==> Selection::named("null"@, None) == Ok::<Selection, SelectErrorModel>(
                Selection::Oracle,
            )
            &&& ORACLE ==> Selection::named("null"@, Some(backend)) == Err::<
                Selection,
                SelectErrorModel,
            >(SelectErrorModel::BackendNotApplicable { pipeline: "null"@ })
        }),
{
    reveal_strlit("l2fwd");
    reveal_strlit("l3fwd");
    reveal_strlit("null");
    assert("l2fwd"@[1] == '2' && "l3fwd"@[1] == '3' && "null"@[0] == 'n' && "l2fwd"@[0] == 'l'
        && "l3fwd"@[0] == 'l');
}

/// What the switch does around each program: nothing around the switch; around
/// the router, a frame that claims to be IPv4 and is not is dropped, and a frame
/// on its way out carries no inner checksum.
pub proof fn law_programs_have_their_envelope(frame: Seq<u8>, inner: (Verdict, Seq<u8>))
    ensures
        Program::L2Fwd.spec_envelope().composed(frame, inner) == inner,
        ({
            let out = Program::L3Fwd.spec_envelope().composed(frame, inner);
            let announced = frame.len() >= 14 && frame[12] == 0x08 && frame[13] == 0x00;
            let whole = frame.len() >= 34 && frame[14] / 16 == 4 && frame[14] % 16 >= 5 && 14 + (
            frame[14] % 16) * 4 <= frame.len();
            let admitted = announced ==> whole;
            &&& !admitted ==> out == (Verdict::Drop, frame)
            &&& admitted ==> out.0 == inner.0
            &&& admitted && (inner.0 is Punt || inner.0 is Drop) ==> out.1 == inner.1
            &&& admitted && (inner.0 is Forward || inner.0 is Broadcast) ==> out.1
                == crate::headers::without_checksums(inner.1)
        }),
{
    crate::envelope::law_admission_byte_by_byte(frame);
}

/// What each backend is: only the native one is written by hand, only the
/// bytecode is not native code, and only the one whose runtime keeps header
/// fields on the heap allocates for each frame.
pub proof fn law_backend_facts(backend: Backend)
    ensures
        ({
            let f = backend.spec_facts();
            &&& backend == Backend::Native <==> f.provenance is HandRendered
            &&& backend == Backend::X4c <==> f.alloc is PerFrame
            &&& backend == Backend::Ubpf <==> f.execution is Bytecode
            &&& backend != Backend::X4c ==> f.alloc is NoHeap
            &&& backend != Backend::Ubpf ==> f.execution is Native
            &&& backend == Backend::X4c ==> f.provenance == (Provenance::Compiled {
                compiler: "x4c",
            })
            &&& backend == Backend::Ubpf ==> f.provenance == (Provenance::Compiled {
                compiler: "p4c --target ubpf",
            })
        }),
{
}

} // verus!
