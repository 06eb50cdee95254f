//! The control-channel protocol.
//!
//! Requests and responses are closed sums, so the server's dispatch is one
//! exhaustive `match`. Values cross the wire as the text an operator types:
//! the server refines them against the pipeline's table schema.
use crate::named::NamedTexts;
use crate::probe::Probe;
use crate::shim::{EntryDesc, SchemaDesc};
use crate::snapshot::Snapshot;
use crate::text::{chars_of, find_char, first_index, string_of, texts};
use std::sync::Arc;
use vstd::prelude::*;

verus! {

/// Action parameters, as written by hand or by a script.
///
/// Both spellings mean the same thing; named form is order-free.
#[derive(Clone, Debug, PartialEq, Eq)]
pub enum Params {
    /// Positional, in the action's declaration order.
    Positional(Vec<String>),
    /// Named, matching the action's parameter names.
    Named(NamedTexts),
}

/// [`Params`] with their texts as characters.
pub enum ParamsModel {
    Positional(Seq<Seq<char>>),
    Named(Map<Seq<char>, Seq<char>>),
}

impl View for Params {
    type V = ParamsModel;

    open spec fn view(&self) -> ParamsModel {
        match self {
            Params::Positional(v) => ParamsModel::Positional(texts(v@)),
            Params::Named(m) => ParamsModel::Named(m@),
        }
    }
}

impl Default for Params {
    fn default() -> (r: Self)
        ensures
            r.wf(),
            r@ == ParamsModel::Positional(Seq::empty()),
    {
        let r = Params::Positional(Vec::new());
        assert(r@->Positional_0 =~= Seq::empty());
        r
    }
}

/// Whether a text has the form `name=value`.
pub open spec fn is_named(s: Seq<char>) -> bool {
    first_index(s, '=') < s.len()
}

/// The named form of the first `n` arguments; the last of a name counts.
pub open spec fn named_args(args: Seq<Seq<char>>, n: int) -> Map<Seq<char>, Seq<char>>
    decreases n,
{
    if n <= 0 {
        Map::empty()
    } else {
        let a = args[n - 1];
        let at = first_index(a, '=');
        named_args(args, n - 1).insert(a.subrange(0, at), a.subrange(at + 1, a.len() as int))
    }
}

/// How command-line arguments are read: all of the form `name=value` means
/// named form.
pub open spec fn params_of_args(args: Seq<Seq<char>>) -> ParamsModel {
    if args.len() > 0 && (forall|i: int| 0 <= i < args.len() ==> is_named(#[trigger] args[i])) {
        ParamsModel::Named(named_args(args, args.len() as int))
    } else {
        ParamsModel::Positional(args)
    }
}

impl ParamsModel {
    /// How many parameters there are.
    pub open spec fn len(self) -> nat {
        match self {
            ParamsModel::Positional(v) => v.len(),
            ParamsModel::Named(m) => m.dom().len(),
        }
    }
}

impl Params {
    /// Named parameters are in order.
    pub open spec fn wf(&self) -> bool {
        self matches Params::Named(m) ==> m.wf()
    }

    /// Interpret command-line arguments: all `name=value` means named form.
    #[must_use]
    pub fn from_args(args: &[String]) -> (r: Self)
        ensures
            r.wf(),
            r@ == params_of_args(texts(args@)),
    {
        let ghost all = texts(args@);
        let mut named: NamedTexts = NamedTexts::new();
        let mut positional: Vec<String> = Vec::new();
        let mut n: usize = 0;
        let mut every: bool = args.len() > 0;
        while n < args.len()
            invariant
                n <= args@.len(),
                all == texts(args@),
                every <==> args@.len() > 0 && forall|i: int|
                    0 <= i < n ==> is_named(#[trigger] all[i]),
                named.wf(),
                every ==> named@ == named_args(all, n as int),
                positional@.len() == n,
                forall|i: int| 0 <= i < n ==> (#[trigger] positional@[i])@ == all[i],
            decreases args.len() - n,
        {
            let chars: Vec<char> = chars_of(args[n].as_str());
            let s: &[char] = chars.as_slice();
            let at: usize = find_char(s, '=');
            assert(s@ == all[n as int]);
            if at < s.len() {
                named.insert(string_of(&s[0..at]), string_of(&s[at + 1..s.len()]));
            } else {
                every = false;
            }
            positional.push(args[n].clone());
            n += 1;
        }
        if every {
            Params::Named(named)
        } else {
            assert(texts(positional@) =~= all);
            Params::Positional(positional)
        }
    }

    /// How many parameters were given.
    #[must_use]
    pub fn len(&self) -> (r: usize)
        requires
            self.wf(),
        ensures
            r == self@.len(),
    {
        match self {
            Params::Positional(v) => v.len(),
            Params::Named(m) => m.len(),
        }
    }

    /// Whether none were given.
    #[must_use]
    pub fn is_empty(&self) -> (r: bool)
        requires
            self.wf(),
        ensures
            r == (self@.len() == 0),
    {
        self.len() == 0
    }
}

/// One table entry, as a batch file or a single command spells it.
#[derive(Clone, Debug, PartialEq, Eq)]
pub struct EntrySpec {
    /// Table name.
    pub table: String,
    /// Key, in the table's key syntax (`10.0.0.0/24`, `aa:bb:cc:dd:ee:01`).
    pub key: String,
    /// Action name.
    pub action: String,
    /// Action parameters.
    pub params: Params,
}

/// An [`EntrySpec`] with its texts as characters.
pub struct EntrySpecModel {
    pub table: Seq<char>,
    pub key: Seq<char>,
    pub action: Seq<char>,
    pub params: ParamsModel,
}

impl View for EntrySpec {
    type V = EntrySpecModel;

    open spec fn view(&self) -> EntrySpecModel {
        EntrySpecModel {
            table: self.table@,
            key: self.key@,
            action: self.action@,
            params: self.params@,
        }
    }
}

/// The views of `v`.
pub open spec fn spec_models(v: Seq<EntrySpec>) -> Seq<EntrySpecModel> {
    Seq::new(v.len(), |i: int| v[i]@)
}

/// Whether the parameters of every entry are in order.
pub open spec fn specs_wf(v: Seq<EntrySpec>) -> bool {
    forall|i: int| 0 <= i < v.len() ==> (#[trigger] v[i]).params.wf()
}

/// A batch of entries, as a file spells it.
///
/// Either an object with the entries or a bare list of them, because both are
/// what people write.
#[derive(Clone, Debug, PartialEq, Eq)]
pub enum EntryBatch {
    /// `{"entries": [...]}`
    Wrapped {
        /// The entries.
        entries: Vec<EntrySpec>,
    },
    /// `[...]`
    Bare(Vec<EntrySpec>),
}

impl EntryBatch {
    /// The entries, however they were spelled.
    #[must_use]
    pub fn into_entries(self) -> (r: Vec<EntrySpec>)
        ensures
            r == (match self {
                EntryBatch::Wrapped { entries } => entries,
                EntryBatch::Bare(entries) => entries,
            }),
    {
        match self {
            EntryBatch::Wrapped { entries } => entries,
            EntryBatch::Bare(entries) => entries,
        }
    }
}

/// A command.
#[derive(Clone, Debug, PartialEq, Eq)]
pub enum Request {
    /// Liveness.
    Ping,
    /// Build info, pipeline, topology, probe results.
    Info,
    /// Counter snapshot.
    Counters,
    /// Every table's schema: what to type.
    Tables,
    /// Install or replace entries.
    TableAdd {
        /// The entries to install.
        entries: Vec<EntrySpec>,
    },
    /// Remove one entry.
    TableDel {
        /// Table name.
        table: String,
        /// Key to remove.
        key: String,
    },
    /// Every installed entry, plus the default action.
    TableDump {
        /// Table name.
        table: String,
    },
    /// Replace the action taken on a miss.
    TableSetDefault {
        /// Table name.
        table: String,
        /// Action name.
        action: String,
        /// Action parameters.
        params: Params,
    },
    /// Remove every entry.
    TableClear {
        /// Table name.
        table: String,
    },
    /// Take up to `max` punted frames.
    PuntDrain {
        /// Maximum frames to return.
        max: usize,
    },
    /// Stop receiving, flush, write a final snapshot, exit 0.
    Shutdown,
}

impl Request {
    /// Named parameters are in order.
    pub open spec fn wf(&self) -> bool {
        match self {
            Request::TableAdd { entries } => specs_wf(entries@),
            Request::TableSetDefault { table: _, action: _, params } => params.wf(),
            _ => true,
        }
    }
}

/// One punted frame on the wire.
#[derive(Clone, Debug, PartialEq, Eq)]
pub struct PuntedFrame {
    /// Vport the frame arrived on.
    pub ingress_vport: u16,
    /// Harness receive timestamp.
    pub rx_ts_us: u32,
    /// The inner Ethernet frame, base64.
    pub frame_b64: String,
}

/// A [`PuntedFrame`] with its text as characters.
pub struct PuntedModel {
    pub ingress_vport: u16,
    pub rx_ts_us: u32,
    pub frame_b64: Seq<char>,
}

impl View for PuntedFrame {
    type V = PuntedModel;

    open spec fn view(&self) -> PuntedModel {
        PuntedModel {
            ingress_vport: self.ingress_vport,
            rx_ts_us: self.rx_ts_us,
            frame_b64: self.frame_b64@,
        }
    }
}

/// The views of `v`.
pub open spec fn punted_models(v: Seq<PuntedFrame>) -> Seq<PuntedModel> {
    Seq::new(v.len(), |i: int| v[i]@)
}

/// What the node knows about itself from the start.
#[derive(Clone, Debug)]
pub struct NodeFacts {
    /// The node's label.
    pub node: String,
    /// Version.
    pub version: String,
    /// Loaded pipeline name.
    pub pipeline: String,
    /// One line about that pipeline.
    pub pipeline_summary: String,
    /// Shard count.
    pub threads: usize,
    /// Fabric family.
    pub fabric: String,
    /// Largest inner frame.
    pub inner_mtu: usize,
    /// Address the shards are bound to.
    pub bind: String,
    /// Whether punting is configured.
    pub punt_enabled: bool,
    /// The topology.
    pub vports: Vec<VportInfo>,
    /// Startup probe, verbatim.
    pub probe: Option<Probe>,
}

/// What the node knows about itself.
#[derive(Clone, Debug)]
pub struct Info {
    /// What does not change.
    pub facts: Arc<NodeFacts>,
    /// Seconds since startup.
    pub uptime_s: u64,
}

/// One vport, for `info`.
#[derive(Clone, Debug, PartialEq, Eq)]
pub struct VportInfo {
    /// Configured id.
    pub id: u16,
    /// Peer tuple.
    pub peer: String,
}

/// A reply.
#[derive(Clone, Debug)]
pub enum Response {
    /// Answer to `ping`.
    Pong,
    /// Answer to `info`.
    Info(Box<Info>),
    /// Answer to `counters`.
    Counters(Box<Snapshot>),
    /// Answer to `tables`.
    Tables {
        /// One schema per table the pipeline exposes.
        tables: Vec<SchemaDesc>,
    },
    /// Answer to `table-dump`.
    Entries {
        /// Installed entries, in the table's natural order.
        entries: Vec<EntryDesc>,
        /// The action taken on a miss.
        default: EntryDesc,
    },
    /// Answer to a write: how many entries it affected.
    Applied {
        /// Entries added, removed, or cleared.
        count: usize,
    },
    /// Answer to `punt-drain`.
    Punted {
        /// The frames, oldest first.
        frames: Vec<PuntedFrame>,
        /// Frames still queued.
        remaining: usize,
    },
    /// Answer to `shutdown`, sent before the node stops.
    ShuttingDown,
    /// The command was refused. The message is the operator-facing reason.
    Error {
        /// Why.
        message: String,
    },
}

impl Response {
    /// A refusal carrying `message`.
    #[must_use]
    pub fn error(message: String) -> (r: Self)
        ensures
            r == (Response::Error { message }),
    {
        Response::Error { message }
    }
}

/// Arguments of the form `name=value` throughout are named: each name means the
/// value behind its first equals sign, and the last use of a name counts. One
/// argument of another form makes them all positional, as they stand.
pub proof fn law_arguments_are_named_or_placed(
    args: Seq<Seq<char>>,
    i: int,
    name: Seq<char>,
    value: Seq<char>,
)
    requires
        0 <= i < args.len(),
        args[i] == name.push('=') + value,
        forall|j: int| 0 <= j < name.len() ==> (#[trigger] name[j]) != '=',
        forall|j: int| i < j < args.len() ==> !named_by(#[trigger] args[j], name),
    ensures
        (forall|j: int| 0 <= j < args.len() ==> (#[trigger] args[j]).contains('=')) ==> {
            &&& params_of_args(args) is Named
            &&& params_of_args(args)->Named_0.contains_key(name)
            &&& params_of_args(args)->Named_0[name] == value
        },
        (exists|j: int| 0 <= j < args.len() && !(#[trigger] args[j]).contains('='))
            ==> params_of_args(args) == ParamsModel::Positional(args),
{
    assert forall|j: int| 0 <= j < args.len() implies (is_named(#[trigger] args[j])
        <==> args[j].contains('=')) by {
        lemma_is_named(args[j]);
    }
    if forall|j: int| 0 <= j < args.len() ==> (#[trigger] args[j]).contains('=') {
        assert forall|j: int| 0 <= j < args.len() implies is_named(#[trigger] args[j]) by {
            assert(args[j].contains('='));
        }
        lemma_named_arg(args, args.len() as int, i, name, value);
    }
    if exists|j: int| 0 <= j < args.len() && !(#[trigger] args[j]).contains('=') {
        let j = choose|j: int| 0 <= j < args.len() && !(#[trigger] args[j]).contains('=');
        assert(!is_named(args[j]));
    }
}

/// `arg` gives a value to `name`.
pub open spec fn named_by(arg: Seq<char>, name: Seq<char>) -> bool {
    arg.len() > name.len() && arg.subrange(0, name.len() as int) == name && arg[name.len() as int]
        == '='
}

proof fn lemma_is_named(s: Seq<char>)
    ensures
        is_named(s) <==> s.contains('='),
        0 <= first_index(s, '=') <= s.len(),
        first_index(s, '=') < s.len() ==> s[first_index(s, '=')] == '=',
        forall|j: int| 0 <= j < first_index(s, '=') ==> (#[trigger] s[j]) != '=',
    decreases s.len(),
{
    if s.len() > 0 && s[0] != '=' {
        let t = s.subrange(1, s.len() as int);
        lemma_is_named(t);
        assert forall|j: int| 0 <= j < first_index(s, '=') implies (#[trigger] s[j]) != '=' by {
            if j > 0 {
                assert(t[j - 1] == s[j]);
            }
        }
        if s.contains('=') {
            let j = choose|j: int| 0 <= j < s.len() && s[j] == '=';
            assert(t[j - 1] == '=');
        }
        if t.contains('=') {
            let j = choose|j: int| 0 <= j < t.len() && t[j] == '=';
            assert(s[j + 1] == '=');
        }
    } else if s.len() > 0 {
        assert(s[0] == '=');
    }
}

proof fn lemma_named_arg(
    args: Seq<Seq<char>>,
    n: int,
    i: int,
    name: Seq<char>,
    value: Seq<char>,
)
    requires
        0 <= i < n <= args.len(),
        args[i] == name.push('=') + value,
        forall|j: int| 0 <= j < name.len() ==> (#[trigger] name[j]) != '=',
        forall|j: int| i < j < args.len() ==> !named_by(#[trigger] args[j], name),
        forall|j: int| 0 <= j < args.len() ==> is_named(#[trigger] args[j]),
    ensures
        named_args(args, n).contains_key(name),
        named_args(args, n)[name] == value,
    decreases n,
{
    let a = args[n - 1];
    let at = first_index(a, '=');
    lemma_is_named(a);
    assert(is_named(args[n - 1]));
    if i == n - 1 {
        assert forall|j: int| 0 <= j < name.len() implies a[j] != '=' by {
            assert(a[j] == name[j]);
        }
        assert(a[name.len() as int] == '=');
        crate::text::lemma_first_index(a, '=', name.len() as int);
        assert(a.subrange(0, at) =~= name);
        assert(a.subrange(at + 1, a.len() as int) =~= value);
    } else {
        lemma_named_arg(args, n - 1, i, name, value);
        assert(!named_by(args[n - 1], name));
        if a.subrange(0, at) == name {
            assert(at == name.len());
            assert(named_by(a, name));
        }
    }
}

} // verus!
