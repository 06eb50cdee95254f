//! Configuration violations, and the accumulator that collects all of them.
use crate::config::THREADS_MAX;
use crate::text::{debug_text, dec, dec_signed, join, joined, push_dec, push_dec_signed, quoted, texts};
use crate::wire::PUNT_VPORT;
use vstd::prelude::*;

verus! {

/// One configuration violation.
///
/// Closed: every rule has exactly one variant, and each variant carries what
/// the operator needs to fix it.
#[allow(inconsistent_fields)]
#[derive(Clone, Debug, PartialEq, Eq)]
pub enum ConfigError {
    /// The file is not valid TOML, or has an unknown or misspelled field.
    Toml(String),
    /// `node.bind` did not parse as `addr:port`.
    Bind { value: String },
    /// `node.fabric` was not `ipv4` or `ipv6`.
    Fabric { value: String },
    /// `node.threads` outside `1..=16`.
    Threads { value: u32 },
    /// `node.pipeline` is not compiled into this binary.
    UnknownPipeline { value: String, known: Vec<String> },
    /// `node.id` was empty.
    EmptyNodeId,
    /// `node.ctl_socket` was empty.
    EmptyCtlSocket,
    /// `node.pin_cores` was given but does not have one core per shard.
    PinCoresArity { given: usize, threads: usize },
    /// A core id in `node.pin_cores` was negative.
    NegativeCore { value: i64 },
    /// No `[[vport]]` was declared: a switch with no ports cannot forward.
    NoVports,
    /// A vport id does not fit in `u16` or is the reserved punt id.
    VportId { value: i64 },
    /// Two `[[vport]]` entries share an id.
    DuplicateVportId { value: u16 },
    /// A `[[vport]]` peer did not parse as `addr:port`.
    Peer { vport: i64, value: String },
    /// Two vports share a peer tuple, which is the receive demux key.
    DuplicatePeer { value: String, first: u16, second: u16 },
    /// A vport's peer is this node's own bind address.
    PeerIsSelf { vport: u16, value: String },
    /// `[punt] vport` was not the reserved id.
    PuntVport { value: i64, reserved: u16 },
    /// A validation defect: reported rather than panicked.
    Internal(&'static str),
}

/// A [`ConfigError`] with its texts as characters.
#[allow(inconsistent_fields)]
#[verifier::ext_equal]
pub enum ConfigErrorModel {
    Toml(Seq<char>),
    Bind { value: Seq<char> },
    Fabric { value: Seq<char> },
    Threads { value: u32 },
    UnknownPipeline { value: Seq<char>, known: Seq<Seq<char>> },
    EmptyNodeId,
    EmptyCtlSocket,
    PinCoresArity { given: nat, threads: nat },
    NegativeCore { value: i64 },
    NoVports,
    VportId { value: i64 },
    DuplicateVportId { value: u16 },
    Peer { vport: i64, value: Seq<char> },
    DuplicatePeer { value: Seq<char>, first: u16, second: u16 },
    PeerIsSelf { vport: u16, value: Seq<char> },
    PuntVport { value: i64, reserved: u16 },
    Internal(Seq<char>),
}

impl View for ConfigError {
    type V = ConfigErrorModel;

    open spec fn view(&self) -> ConfigErrorModel {
        match *self {
            ConfigError::Toml(e) => ConfigErrorModel::Toml(e@),
            ConfigError::Bind { value } => ConfigErrorModel::Bind { value: value@ },
            ConfigError::Fabric { value } => ConfigErrorModel::Fabric { value: value@ },
            ConfigError::Threads { value } => ConfigErrorModel::Threads { value },
            ConfigError::UnknownPipeline { value, known } => ConfigErrorModel::UnknownPipeline {
                value: value@,
                known: texts(known@),
            },
            ConfigError::EmptyNodeId => ConfigErrorModel::EmptyNodeId,
            ConfigError::EmptyCtlSocket => ConfigErrorModel::EmptyCtlSocket,
            ConfigError::PinCoresArity { given, threads } => ConfigErrorModel::PinCoresArity {
                given: given as nat,
                threads: threads as nat,
            },
            ConfigError::NegativeCore { value } => ConfigErrorModel::NegativeCore { value },
            ConfigError::NoVports => ConfigErrorModel::NoVports,
            ConfigError::VportId { value } => ConfigErrorModel::VportId { value },
            ConfigError::DuplicateVportId { value } => ConfigErrorModel::DuplicateVportId { value },
            ConfigError::Peer { vport, value } => ConfigErrorModel::Peer { vport, value: value@ },
            ConfigError::DuplicatePeer { value, first, second } => ConfigErrorModel::DuplicatePeer {
                value: value@,
                first,
                second,
            },
            ConfigError::PeerIsSelf { vport, value } => ConfigErrorModel::PeerIsSelf {
                vport,
                value: value@,
            },
            ConfigError::PuntVport { value, reserved } => ConfigErrorModel::PuntVport {
                value,
                reserved,
            },
            ConfigError::Internal(what) => ConfigErrorModel::Internal(what@),
        }
    }
}

impl ConfigErrorModel {
    /// What the violation says.
    pub open spec fn message(self) -> Seq<char> {
        match self {
            ConfigErrorModel::Toml(e) => e,
            ConfigErrorModel::Bind { value } => "node.bind "@ + quoted(value)
                + " is not a valid addr:port"@,
            ConfigErrorModel::Fabric { value } => "node.fabric "@ + quoted(value)
                + " is not \"ipv4\" or \"ipv6\""@,
            ConfigErrorModel::Threads { value } => "node.threads "@ + dec(value as int)
                + " is outside 1..="@ + dec(THREADS_MAX as int),
            ConfigErrorModel::UnknownPipeline { value, known } => "node.pipeline "@ + quoted(value)
                + " is not compiled into this binary (have: "@ + joined(known, ", "@) + ")"@,
            ConfigErrorModel::EmptyNodeId => "node.id must not be empty"@,
            ConfigErrorModel::EmptyCtlSocket => "node.ctl_socket must not be empty"@,
            ConfigErrorModel::PinCoresArity { given, threads } => "node.pin_cores has "@ + dec(
                given as int,
            ) + " entries but node.threads is "@ + dec(threads as int)
                + "; give one core per shard or omit pin_cores entirely"@,
            ConfigErrorModel::NegativeCore { value } => "node.pin_cores entry "@ + dec_signed(
                value as int,
            ) + " is negative"@,
            ConfigErrorModel::NoVports => "at least one [[vport]] is required"@,
            ConfigErrorModel::VportId { value } => "vport id "@ + dec_signed(value as int)
                + " is not in 0.."@ + dec(PUNT_VPORT as int) + " ("@ + dec(PUNT_VPORT as int)
                + " is the reserved punt id)"@,
            ConfigErrorModel::DuplicateVportId { value } => "vport id "@ + dec(value as int)
                + " is declared twice"@,
            ConfigErrorModel::Peer { vport, value } => "vport "@ + dec_signed(vport as int)
                + " peer "@ + quoted(value) + " is not a valid addr:port"@,
            ConfigErrorModel::DuplicatePeer { value, first, second } => "vports "@ + dec(
                first as int,
            ) + " and "@ + dec(second as int) + " share peer "@ + value
                + "; the peer tuple is the receive demux key and must be unique"@,
            ConfigErrorModel::PeerIsSelf { vport, value } => "vport "@ + dec(vport as int)
                + " peer "@ + value + " is this node's own bind address"@,
            ConfigErrorModel::PuntVport { value, reserved } => "[punt] vport "@ + dec_signed(
                value as int,
            ) + " must be the reserved id "@ + dec(reserved as int),
            ConfigErrorModel::Internal(what) => "internal validation defect: "@ + what,
        }
    }
}

impl ConfigError {
    /// What the violation says, for the operator.
    pub fn message(&self) -> (r: String)
        ensures
            r@ == self@.message(),
    {
        match self {
            ConfigError::Toml(e) => e.clone(),
            ConfigError::Bind { value } => {
                let mut out: String = "node.bind ".to_owned();
                out.append(debug_text(value.as_str()).as_str());
                out.append(" is not a valid addr:port");
                out
            },
            ConfigError::Fabric { value } => {
                let mut out: String = "node.fabric ".to_owned();
                out.append(debug_text(value.as_str()).as_str());
                out.append(" is not \"ipv4\" or \"ipv6\"");
                out
            },
            ConfigError::Threads { value } => {
                let mut out: String = "node.threads ".to_owned();
                push_dec(&mut out, *value as u64);
                out.append(" is outside 1..=");
                push_dec(&mut out, THREADS_MAX as u64);
                out
            },
            ConfigError::UnknownPipeline { value, known } => {
                let mut out: String = "node.pipeline ".to_owned();
                out.append(debug_text(value.as_str()).as_str());
                out.append(" is not compiled into this binary (have: ");
                out.append(join(known.as_slice(), ", ").as_str());
                out.append(")");
                out
            },
            ConfigError::EmptyNodeId => "node.id must not be empty".to_owned(),
            ConfigError::EmptyCtlSocket => "node.ctl_socket must not be empty".to_owned(),
            ConfigError::PinCoresArity { given, threads } => {
                let mut out: String = "node.pin_cores has ".to_owned();
                push_dec(&mut out, *given as u64);
                out.append(" entries but node.threads is ");
                push_dec(&mut out, *threads as u64);
                out.append("; give one core per shard or omit pin_cores entirely");
                out
            },
            ConfigError::NegativeCore { value } => {
                let mut out: String = "node.pin_cores entry ".to_owned();
                push_dec_signed(&mut out, *value);
                out.append(" is negative");
                out
            },
            ConfigError::NoVports => "at least one [[vport]] is required".to_owned(),
            ConfigError::VportId { value } => {
                let mut out: String = "vport id ".to_owned();
                push_dec_signed(&mut out, *value);
                out.append(" is not in 0..");
                push_dec(&mut out, PUNT_VPORT as u64);
                out.append(" (");
                push_dec(&mut out, PUNT_VPORT as u64);
                out.append(" is the reserved punt id)");
                out
            },
            ConfigError::DuplicateVportId { value } => {
                let mut out: String = "vport id ".to_owned();
                push_dec(&mut out, *value as u64);
                out.append(" is declared twice");
                out
            },
            ConfigError::Peer { vport, value } => {
                let mut out: String = "vport ".to_owned();
                push_dec_signed(&mut out, *vport);
                out.append(" peer ");
                out.append(debug_text(value.as_str()).as_str());
                out.append(" is not a valid addr:port");
                out
            },
            ConfigError::DuplicatePeer { value, first, second } => {
                let mut out: String = "vports ".to_owned();
                push_dec(&mut out, *first as u64);
                out.append(" and ");
                push_dec(&mut out, *second as u64);
                out.append(" share peer ");
                out.append(value.as_str());
                out.append("; the peer tuple is the receive demux key and must be unique");
                out
            },
            ConfigError::PeerIsSelf { vport, value } => {
                let mut out: String = "vport ".to_owned();
                push_dec(&mut out, *vport as u64);
                out.append(" peer ");
                out.append(value.as_str());
                out.append(" is this node's own bind address");
                out
            },
            ConfigError::PuntVport { value, reserved } => {
                let mut out: String = "[punt] vport ".to_owned();
                push_dec_signed(&mut out, *value);
                out.append(" must be the reserved id ");
                push_dec(&mut out, *reserved as u64);
                out
            },
            ConfigError::Internal(what) => {
                let mut out: String = "internal validation defect: ".to_owned();
                out.append(what);
                out
            },
        }
    }
}

/// The views of `v`.
pub open spec fn error_models(v: Seq<ConfigError>) -> Seq<ConfigErrorModel> {
    Seq::new(v.len(), |i: int| v[i]@)
}

/// A non-empty list of violations.
///
/// Non-emptiness is structural: there is always a first one.
#[derive(Clone, Debug, PartialEq, Eq)]
pub struct ConfigErrors {
    first: ConfigError,
    rest: Vec<ConfigError>,
}

impl View for ConfigErrors {
    type V = Seq<ConfigErrorModel>;

    closed spec fn view(&self) -> Seq<ConfigErrorModel> {
        seq![self.first@] + error_models(self.rest@)
    }
}

/// One line for each of the first `n` violations.
pub open spec fn listed(errors: Seq<ConfigErrorModel>, n: int) -> Seq<char>
    decreases n,
{
    if n <= 0 {
        Seq::empty()
    } else {
        listed(errors, n - 1) + "  - "@ + errors[n - 1].message() + "\n"@
    }
}

impl ConfigErrors {
    /// One violation.
    #[must_use]
    pub fn single(e: ConfigError) -> (r: Self)
        ensures
            r@ == seq![e@],
    {
        let r = ConfigErrors { first: e, rest: Vec::new() };
        assert(r@ =~= seq![e@]);
        r
    }

    /// All violations, in discovery order.
    #[must_use]
    pub fn iter(&self) -> (r: Vec<&ConfigError>)
        ensures
            r@.len() == self@.len(),
            forall|i: int| 0 <= i < r@.len() ==> (#[trigger] r@[i])@ == self@[i],
    {
        let mut out: Vec<&ConfigError> = Vec::new();
        out.push(&self.first);
        let mut i: usize = 0;
        while i < self.rest.len()
            invariant
                i <= self.rest@.len(),
                out@.len() == i + 1,
                forall|j: int| 0 <= j < out@.len() ==> (#[trigger] out@[j])@ == self@[j],
            decreases self.rest.len() - i,
        {
            out.push(&self.rest[i]);
            i += 1;
        }
        out
    }

    /// How many violations were found.
    #[must_use]
    pub fn len(&self) -> (r: usize)
        requires
            self@.len() <= usize::MAX,
        ensures
            r == self@.len(),
    {
        1 + self.rest.len()
    }

    /// Always false: there is at least one violation.
    #[must_use]
    pub fn is_empty(&self) -> (r: bool)
        ensures
            !r,
            self@.len() > 0,
    {
        false
    }

    /// Every violation, one per line, under their number.
    #[must_use]
    pub fn message(&self) -> (r: String)
        requires
            self@.len() <= usize::MAX,
        ensures
            r@ == dec(self@.len() as int) + " configuration error(s):\n"@ + listed(
                self@,
                self@.len() as int,
            ),
    {
        let all: Vec<&ConfigError> = self.iter();
        let mut out: String = String::new();
        push_dec(&mut out, self.len() as u64);
        out.append(" configuration error(s):\n");
        let ghost head = out@;
        assert(head =~= dec(self@.len() as int) + " configuration error(s):\n"@);
        let mut i: usize = 0;
        while i < all.len()
            invariant
                i <= all@.len(),
                all@.len() == self@.len(),
                forall|j: int| 0 <= j < all@.len() ==> (#[trigger] all@[j])@ == self@[j],
                out@ == head + listed(self@, i as int),
            decreases all.len() - i,
        {
            out.append("  - ");
            out.append(all[i].message().as_str());
            out.append("\n");
            proof {
                assert(listed(self@, i + 1) == listed(self@, i as int) + "  - "@
                    + self@[i as int].message() + "\n"@);
                assert(out@ =~= head + listed(self@, i + 1));
            }
            i += 1;
        }
        out
    }
}

/// Accumulator used during validation: collect everything, decide once.
#[derive(Debug)]
pub(crate) struct Errors {
    found: Vec<ConfigError>,
}

impl View for Errors {
    type V = Seq<ConfigErrorModel>;

    closed spec fn view(&self) -> Seq<ConfigErrorModel> {
        error_models(self.found@)
    }
}

impl Errors {
    pub(crate) fn new() -> (r: Self)
        ensures
            r@ == Seq::<ConfigErrorModel>::empty(),
    {
        let r = Errors { found: Vec::new() };
        assert(r@ =~= Seq::<ConfigErrorModel>::empty());
        r
    }

    /// Record a violation.
    pub(crate) fn push(&mut self, e: ConfigError)
        ensures
            final(self)@ == old(self)@.push(e@),
    {
        self.found.push(e);
        assert(self@ =~= old(self)@.push(e@));
    }

    /// How many violations have been collected so far.
    pub(crate) fn len(&self) -> (r: usize)
        ensures
            r == self@.len(),
    {
        self.found.len()
    }

    /// Decide once: the built value if nothing was collected, every violation
    /// otherwise.
    pub(crate) fn into_result<T>(self, built: Option<T>) -> (r: Result<T, ConfigErrors>)
        ensures
            r matches Ok(v) ==> self@.len() == 0 && built == Some(v),
            r matches Err(e) ==> (self@.len() > 0 && e@ == self@) || (self@.len() == 0 && built
                is None && e@ == seq![
                ConfigErrorModel::Internal("refinement failed without recording a violation"@),
            ]),
    {
        let ghost all = self.found@;
        let mut rest: Vec<ConfigError> = self.found;
        if rest.len() > 0 {
            let first: ConfigError = rest.remove(0);
            let e = ConfigErrors { first, rest };
            assert(e@ =~= error_models(all));
            return Err(e);
        }
        match built {
            Some(v) => Ok(v),
            None => Err(
                ConfigErrors::single(
                    ConfigError::Internal("refinement failed without recording a violation"),
                ),
            ),
        }
    }
}

/// A violation is reported with what the file says and what it should say.
pub proof fn law_violations_say_what_is_wrong(a: u16, b: u16, given: nat, threads: nat, n: i64, t: u32, value: Seq<char>)
    ensures
        (ConfigErrorModel::PinCoresArity { given, threads }).message() == "node.pin_cores has "@
            + dec(given as int) + " entries but node.threads is "@ + dec(threads as int)
            + "; give one core per shard or omit pin_cores entirely"@,
        (ConfigErrorModel::DuplicatePeer { value, first: a, second: b }).message() == "vports "@
            + dec(a as int) + " and "@ + dec(b as int) + " share peer "@ + value
            + "; the peer tuple is the receive demux key and must be unique"@,
        (ConfigErrorModel::Threads { value: t }).message() == "node.threads "@ + dec(t as int)
            + " is outside 1..="@ + dec(16),
        (ConfigErrorModel::VportId { value: n }).message() == "vport id "@ + dec_signed(n as int)
            + " is not in 0.."@ + dec(65535) + " ("@ + dec(65535) + " is the reserved punt id)"@,
        (ConfigErrorModel::DuplicateVportId { value: a }).message() == "vport id "@ + dec(a as int)
            + " is declared twice"@,
        (ConfigErrorModel::PuntVport { value: n, reserved: a }).message() == "[punt] vport "@
            + dec_signed(n as int) + " must be the reserved id "@ + dec(a as int),
        (ConfigErrorModel::PeerIsSelf { vport: a, value }).message() == "vport "@ + dec(a as int)
            + " peer "@ + value + " is this node's own bind address"@,
{
}

/// Violations are listed one to a line, in order: one more violation is one
/// more line.
pub proof fn law_violations_are_listed_in_order(errors: Seq<ConfigErrorModel>, e: ConfigErrorModel)
    ensures
        listed(errors.push(e), errors.len() as int + 1) == listed(errors, errors.len() as int)
            + "  - "@ + e.message() + "\n"@,
{
    lemma_listed_front(errors, e, errors.len() as int);
}

proof fn lemma_listed_front(errors: Seq<ConfigErrorModel>, e: ConfigErrorModel, n: int)
    requires
        0 <= n <= errors.len(),
    ensures
        listed(errors.push(e), n) == listed(errors, n),
    decreases n,
{
    if n > 0 {
        lemma_listed_front(errors, e, n - 1);
    }
}

} // verus!
