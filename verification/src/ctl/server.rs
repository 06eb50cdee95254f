//! The control server.
//!
//! Command handling is [`handle`], a plain function over a [`Context`], so
//! every command can be exercised without a socket in sight. The socket code
//! around it does nothing but frame bytes and hand them over.
use crate::b64::{decoded, encode, encoded, law_b64_length};
use crate::ctl::codec::MAX_FRAME;
use crate::ctl::protocol::{
    punted_models, spec_models, specs_wf, EntrySpec, EntrySpecModel, Info, NodeFacts, Params,
    ParamsModel, PuntedFrame, PuntedModel, Request, Response,
};
use crate::engine::Pipeline;
use crate::metrics::MetricsModel;
use crate::ops::{
    described, dumps, entry_models, schema_models, SurfaceModel, TableModel, TableOps,
};
use crate::punt::{punt_models, PuntFrame, PuntModel};
use crate::shard::{Node, PuntState};
use crate::shim::{
    ActionSchema, EntryDesc, ParamModel, ParamSchema, SchemaDesc, SchemaModel, TableError,
    TableErrorModel, TableSchema, TypedKey,
};
use crate::signal::Stop;
use crate::snapshot::snapshot_of;
use crate::text::{debug_text, dec, push_dec, quoted, texts};
use crate::value::{TypedVal, ValueError, ValueErrorModel};
use crate::wire::INNER_MTU_V4;
use std::sync::Arc;
use vstd::prelude::*;

verus! {

/// Most frames one `punt-drain` returns, so a reply always fits a control
/// frame.
pub const PUNT_DRAIN_MAX: usize = 64;

/// Milliseconds that `accept` blocks before the loop looks at the stop flag
/// again.
pub const ACCEPT_TIMEOUT_MS: u64 = 200;

/// Milliseconds a connected client may say nothing before the server hangs up.
///
/// Connections are served one at a time, so an idle one holds the whole
/// control channel.
pub const IDLE_TIMEOUT_MS: u64 = 30_000;

/// What a silent connection has come to after another timeout: the time it has
/// been idle, or `None` when it is to be closed.
#[must_use]
pub fn after_silence(idle_ms: u64, stop_requested: bool) -> (r: Option<u64>)
    requires
        idle_ms < IDLE_TIMEOUT_MS,
    ensures
        r == (if stop_requested || idle_ms + ACCEPT_TIMEOUT_MS >= IDLE_TIMEOUT_MS {
            None
        } else {
            Some((idle_ms + ACCEPT_TIMEOUT_MS) as u64)
        }),
{
    if stop_requested {
        return None;
    }
    let idle: u64 = idle_ms + ACCEPT_TIMEOUT_MS;
    if idle >= IDLE_TIMEOUT_MS {
        None
    } else {
        Some(idle)
    }
}

/// What the control channel knows and may set.
#[derive(Debug)]
pub struct Context {
    /// Static half of the `info` reply; uptime is filled in per call.
    pub facts: Arc<NodeFacts>,
    /// Monotonic microseconds at startup, for uptime.
    pub started_us: u64,
    /// The stop flag, which `shutdown` sets.
    pub stop: Stop,
}

/// What the clocks read.
#[derive(Clone, Copy, Debug)]
pub struct Now {
    /// Monotonic microseconds.
    pub monotonic_us: u64,
    /// Microseconds since the Unix epoch.
    pub wall_us: u64,
}

/// The key that `text` spells for a table.
pub open spec fn refined_key(schema: SchemaModel, text: Seq<char>) -> Result<
    TypedKey,
    TableErrorModel,
> {
    match TypedKey::spelled(schema.key, text) {
        Ok(k) => Ok(k),
        Err(text) => Err(
            TableErrorModel::Value(
                ValueErrorModel::Malformed { kind: schema.key.spec_value_kind(), text },
            ),
        ),
    }
}

/// The text given for the parameter at place `i`.
pub open spec fn given(p: ParamModel, params: ParamsModel, i: int) -> Result<
    Seq<char>,
    TableErrorModel,
> {
    match params {
        ParamsModel::Positional(v) => Ok(v[i]),
        ParamsModel::Named(m) => if m.contains_key(p.name) {
            Ok(m[p.name])
        } else {
            Err(
                TableErrorModel::Value(
                    ValueErrorModel::Malformed {
                        kind: p.kind,
                        text: "missing parameter "@ + quoted(p.name),
                    },
                ),
            )
        },
    }
}

/// The value given for the parameter at place `i`.
pub open spec fn refined_value(p: ParamModel, params: ParamsModel, i: int) -> Result<
    TypedVal,
    TableErrorModel,
> {
    match given(p, params, i) {
        Err(e) => Err(e),
        Ok(text) => match TypedVal::spelled(p.kind, text) {
            Some(v) => Ok(v),
            None => Err(
                TableErrorModel::Value(ValueErrorModel::Malformed { kind: p.kind, text }),
            ),
        },
    }
}

/// The values given for the first `n` parameters, or the first refusal.
pub open spec fn refined_values(sig: Seq<ParamModel>, params: ParamsModel, n: int) -> Result<
    Seq<TypedVal>,
    TableErrorModel,
>
    decreases n,
{
    if n <= 0 {
        Ok(Seq::empty())
    } else {
        match refined_values(sig, params, n - 1) {
            Err(e) => Err(e),
            Ok(v) => match refined_value(sig[n - 1], params, n - 1) {
                Err(e) => Err(e),
                Ok(x) => Ok(v.push(x)),
            },
        }
    }
}

/// Action parameters against the action's declared signature. Named and
/// positional forms converge here: the values stand in declaration order, with
/// the declared kinds.
pub open spec fn refined_params(schema: SchemaModel, action: Seq<char>, params: ParamsModel) -> Result<
    Seq<TypedVal>,
    TableErrorModel,
> {
    match schema.action_from(action, 0) {
        None => Err(
            TableErrorModel::UnknownAction {
                table: schema.name,
                action,
                known: schema.action_names(),
            },
        ),
        Some(i) => {
            let sig = schema.actions[i];
            if params.len() != sig.params.len() {
                Err(
                    TableErrorModel::Arity {
                        table: schema.name,
                        action: sig.name,
                        want: sig.params.len(),
                        got: params.len(),
                    },
                )
            } else {
                refined_values(sig.params, params, sig.params.len() as int)
            }
        },
    }
}

/// What installing one entry makes of the table it names.
pub open spec fn entry_added(surface: SurfaceModel, e: EntrySpecModel) -> Result<
    TableModel,
    TableErrorModel,
> {
    match surface.schema(e.table) {
        Err(x) => Err(x),
        Ok(schema) => match refined_key(schema, e.key) {
            Err(x) => Err(x),
            Ok(key) => match refined_params(schema, e.action, e.params) {
                Err(x) => Err(x),
                Ok(params) => surface.added(schema.name, key, e.action, params),
            },
        },
    }
}

/// What installing the first `n` entries, one by one, makes of the tables, and
/// the first refusal, at which it stops.
pub open spec fn entries_added(surface: SurfaceModel, entries: Seq<EntrySpecModel>, n: int) -> (
    SurfaceModel,
    Option<(int, TableErrorModel)>,
)
    decreases n,
{
    if n <= 0 {
        (surface, None)
    } else {
        let (s, refused) = entries_added(surface, entries, n - 1);
        if refused is Some {
            (s, refused)
        } else {
            match entry_added(s, entries[n - 1]) {
                Ok(t) => (s.after(Ok(t)), None),
                Err(e) => (s, Some((n - 1, e))),
            }
        }
    }
}

/// What a batch that stopped at entry `i` is answered.
pub open spec fn batch_refusal(entries: Seq<EntrySpecModel>, i: int, e: TableErrorModel) -> Seq<
    char,
> {
    "entry "@ + dec(i) + " ("@ + entries[i].table + " "@ + entries[i].key + "): "@ + e.message()
        + " ["@ + dec(i) + " of "@ + dec(entries.len() as int) + " applied]"@
}

/// What removing an entry makes of the table it names.
pub open spec fn entry_removed(surface: SurfaceModel, table: Seq<char>, key: Seq<char>) -> Result<
    TableModel,
    TableErrorModel,
> {
    match surface.schema(table) {
        Err(x) => Err(x),
        Ok(schema) => match refined_key(schema, key) {
            Err(x) => Err(x),
            Ok(key) => surface.removed(schema.name, key),
        },
    }
}

/// What setting the default action makes of the table it names.
pub open spec fn default_set(
    surface: SurfaceModel,
    table: Seq<char>,
    action: Seq<char>,
    params: ParamsModel,
) -> Result<TableModel, TableErrorModel> {
    match surface.schema(table) {
        Err(x) => Err(x),
        Ok(schema) => match refined_params(schema, action, params) {
            Err(x) => Err(x),
            Ok(params) => surface.with_default(schema.name, action, params),
        },
    }
}

/// Whether `r` refuses with `message`.
pub open spec fn is_refusal(r: Response, message: Seq<char>) -> bool {
    r matches Response::Error { message: m } && m@ == message
}

/// Whether `r` answers a write that makes `table` of a table and affects
/// `count` entries.
pub open spec fn answers_write(
    r: Response,
    table: Result<TableModel, TableErrorModel>,
    count: nat,
) -> bool {
    match table {
        Ok(_) => r matches Response::Applied { count: n } && n == count,
        Err(e) => is_refusal(r, e.message()),
    }
}

/// How many frames a drain takes.
pub open spec fn drained(waiting: nat, max: usize) -> int {
    let most = if max < PUNT_DRAIN_MAX {
        max as int
    } else {
        PUNT_DRAIN_MAX as int
    };
    if most < waiting {
        most
    } else {
        waiting as int
    }
}

/// A punted frame as it goes over the wire.
pub open spec fn on_the_wire(f: PuntModel) -> PuntedModel {
    PuntedModel {
        ingress_vport: f.ingress_vport,
        rx_ts_us: f.rx_ts_us,
        frame_b64: encoded(f.bytes),
    }
}

/// The first `n` waiting frames as they go over the wire.
pub open spec fn wire_frames(frames: Seq<PuntModel>, n: int) -> Seq<PuntedModel> {
    Seq::new(n as nat, |i: int| on_the_wire(frames[i]))
}

/// How often a command may replace the tables.
pub open spec fn writes(request: Request) -> nat {
    match request {
        Request::TableAdd { entries } => entries@.len(),
        Request::TableDel { .. } => 1,
        Request::TableSetDefault { .. } => 1,
        Request::TableClear { .. } => 1,
        _ => 0,
    }
}

/// The tables after a command.
pub open spec fn surface_after(surface: SurfaceModel, request: Request) -> SurfaceModel {
    match request {
        Request::TableAdd { entries } => entries_added(
            surface,
            spec_models(entries@),
            entries@.len() as int,
        ).0,
        Request::TableDel { table, key } => surface.after(entry_removed(surface, table@, key@)),
        Request::TableSetDefault { table, action, params } => surface.after(
            default_set(surface, table@, action@, params@),
        ),
        Request::TableClear { table } => surface.after(surface.cleared(table@)),
        _ => surface,
    }
}

/// The punt queue after a command.
pub open spec fn punt_after(punt: Option<PuntState>, request: Request) -> Option<PuntState> {
    match (punt, request) {
        (Some(q), Request::PuntDrain { max }) => Some(
            PuntState {
                frames: q.frames.subrange(
                    drained(q.frames.len(), max),
                    q.frames.len() as int,
                ),
                ..q
            },
        ),
        _ => punt,
    }
}

/// Seconds of uptime.
pub open spec fn uptime(started_us: u64, now_us: u64) -> int {
    if now_us >= started_us {
        (now_us - started_us) / 1_000_000
    } else {
        0
    }
}

/// The views of `v`.
pub open spec fn desc_models(v: Seq<SchemaDesc>) -> Seq<SchemaModel> {
    Seq::new(v.len(), |i: int| v[i]@)
}

/// Whether `r` answers `request`, asked of a node in this state.
pub open spec fn answers(
    r: Response,
    request: Request,
    facts: Arc<NodeFacts>,
    started_us: u64,
    now: Now,
    surface: SurfaceModel,
    metrics: MetricsModel,
    punt: Option<PuntState>,
) -> bool {
    match request {
        Request::Ping => r is Pong,
        Request::Info => r matches Response::Info(i) && i.facts == facts && i.uptime_s == uptime(
            started_us,
            now.monotonic_us,
        ),
        Request::Counters => r matches Response::Counters(s) && s@ == snapshot_of(
            metrics,
            now.wall_us,
        ),
        Request::Tables => r matches Response::Tables { tables } && desc_models(tables@)
            == surface.schemas(),
        Request::TableDump { table } => match surface.table(table@) {
            Ok(t) => r matches Response::Entries { entries, default } && dumps(
                t,
                entry_models(entries@),
            ) && default@ == described(t.schema, "*"@, t.default),
            Err(e) => is_refusal(r, e.message()),
        },
        Request::TableAdd { entries } => match entries_added(
            surface,
            spec_models(entries@),
            entries@.len() as int,
        ).1 {
            None => r matches Response::Applied { count } && count == entries@.len(),
            Some((i, e)) => is_refusal(r, batch_refusal(spec_models(entries@), i, e)),
        },
        Request::TableDel { table, key } => answers_write(
            r,
            entry_removed(surface, table@, key@),
            1,
        ),
        Request::TableSetDefault { table, action, params } => answers_write(
            r,
            default_set(surface, table@, action@, params@),
            1,
        ),
        Request::TableClear { table } => answers_write(
            r,
            surface.cleared(table@),
            surface.table(table@)->Ok_0.entries.dom().len(),
        ),
        Request::PuntDrain { max } => match punt {
            None => is_refusal(
                r,
                "punt is not configured on this node ([punt] in up4.toml)"@,
            ),
            Some(q) => r matches Response::Punted { frames, remaining } && punted_models(frames@)
                == wire_frames(q.frames, drained(q.frames.len(), max)) && remaining
                == q.frames.len() - drained(q.frames.len(), max),
        },
        Request::Shutdown => r is ShuttingDown,
    }
}

/// Refine a key against its table's declared match kind.
fn parse_key(schema: &'static TableSchema, key: &str) -> (r: Result<TypedKey, TableError>)
    ensures
        r matches Ok(k) ==> refined_key(schema@, key@) == Ok::<TypedKey, TableErrorModel>(k),
        r matches Err(e) ==> refined_key(schema@, key@) == Err::<TypedKey, TableErrorModel>(e@),
{
    match TypedKey::parse(schema.key, key) {
        Ok(k) => Ok(k),
        Err(e) => Err(TableError::Value(e)),
    }
}

fn typed_value(p: &ParamSchema, params: &Params, i: usize) -> (r: Result<TypedVal, TableError>)
    requires
        params.wf(),
        params matches Params::Positional(v) ==> i < v@.len(),
    ensures
        r matches Ok(v) ==> refined_value(p@, params@, i as int) == Ok::<TypedVal, TableErrorModel>(
            v,
        ),
        r matches Err(e) ==> refined_value(p@, params@, i as int) == Err::<
            TypedVal,
            TableErrorModel,
        >(e@),
{
    let parsed: Result<TypedVal, ValueError> = match params {
        Params::Positional(v) => {
            assert(texts(v@)[i as int] == v@[i as int]@);
            TypedVal::parse(p.kind, v[i].as_str())
        },
        Params::Named(m) => match m.get(p.name) {
            Some(text) => TypedVal::parse(p.kind, text.as_str()),
            None => {
                let mut text: String = "missing parameter ".to_owned();
                text.append(debug_text(p.name).as_str());
                Err(ValueError::Malformed { kind: p.kind, text })
            },
        },
    };
    match parsed {
        Ok(v) => Ok(v),
        Err(e) => Err(TableError::Value(e)),
    }
}

/// What is refused among the first parameters is refused for all of them.
proof fn lemma_values_stop(sig: Seq<ParamModel>, params: ParamsModel, k: int, n: int)
    requires
        k <= n,
        refined_values(sig, params, k) is Err,
    ensures
        refined_values(sig, params, n) == refined_values(sig, params, k),
    decreases n - k,
{
    if k < n {
        lemma_values_stop(sig, params, k, n - 1);
    }
}

/// Refine action parameters against the action's declared signature.
///
/// Named and positional forms converge here, so the pipeline only ever sees
/// values in declaration order with the declared kinds.
pub fn typed_params(schema: &'static TableSchema, action: &str, params: &Params) -> (r: Result<
    Vec<TypedVal>,
    TableError,
>)
    requires
        params.wf(),
    ensures
        r matches Ok(v) ==> refined_params(schema@, action@, params@) == Ok::<
            Seq<TypedVal>,
            TableErrorModel,
        >(v@),
        r matches Err(e) ==> refined_params(schema@, action@, params@) == Err::<
            Seq<TypedVal>,
            TableErrorModel,
        >(e@),
{
    let sig: &'static ActionSchema = match schema.action(action) {
        Some(sig) => sig,
        None => {
            return Err(
                TableError::UnknownAction {
                    table: schema.name,
                    action: action.to_owned(),
                    known: schema.action_names(),
                },
            );
        },
    };
    let got: usize = params.len();
    let want: usize = sig.params.len();
    if got != want {
        return Err(TableError::Arity { table: schema.name, action: sig.name, want, got });
    }
    let ghost all = sig@.params;
    let mut out: Vec<TypedVal> = Vec::new();
    let mut i: usize = 0;
    while i < want
        invariant
            i <= want,
            want == sig.params@.len(),
            all == sig@.params,
            params.wf(),
            params@.len() == want,
            refined_params(schema@, action@, params@) == refined_values(all, params@, want as int),
            refined_values(all, params@, i as int) == Ok::<Seq<TypedVal>, TableErrorModel>(out@),
        decreases want - i,
    {
        assert(all[i as int] == sig.params@[i as int]@);
        match typed_value(&sig.params[i], params, i) {
            Ok(v) => out.push(v),
            Err(e) => {
                proof {
                    lemma_values_stop(all, params@, i + 1, want as int);
                }
                return Err(e);
            },
        }
        i += 1;
    }
    Ok(out)
}

fn add_entry<T: TableOps>(tables: &mut T, e: &EntrySpec) -> (r: Result<(), TableError>)
    requires
        old(tables).inv(),
        e.params.wf(),
    ensures
        final(tables).inv(),
        final(tables).same_program(old(tables)),
        old(tables).generation() < u64::MAX ==> final(tables).continues(old(tables))
            && final(tables).generation() <= old(tables).generation() + 1,
        r is Ok <==> entry_added(old(tables).surface(), e@) is Ok,
        r matches Err(x) ==> entry_added(old(tables).surface(), e@) == Err::<
            TableModel,
            TableErrorModel,
        >(x@),
        final(tables).surface() == old(tables).surface().after(
            entry_added(old(tables).surface(), e@),
        ),
{
    proof {
        T::lemma_continues(tables, tables, tables);
    }
    let schema: &'static TableSchema = match tables.schema(e.table.as_str()) {
        Ok(s) => s,
        Err(x) => {
            return Err(x);
        },
    };
    let key: TypedKey = match parse_key(schema, e.key.as_str()) {
        Ok(k) => k,
        Err(x) => {
            return Err(x);
        },
    };
    let params: Vec<TypedVal> = match typed_params(schema, e.action.as_str(), &e.params) {
        Ok(p) => p,
        Err(x) => {
            return Err(x);
        },
    };
    tables.table_add(schema.name, key, e.action.as_str(), params.as_slice())
}

/// Where a batch stopped, it stopped.
proof fn lemma_batch_stops(
    surface: SurfaceModel,
    entries: Seq<EntrySpecModel>,
    k: int,
    n: int,
)
    requires
        k <= n,
        entries_added(surface, entries, k).1 is Some,
    ensures
        entries_added(surface, entries, n) == entries_added(surface, entries, k),
    decreases n - k,
{
    if k < n {
        lemma_batch_stops(surface, entries, k, n - 1);
    }
}

/// Install a batch of entries, stopping at the first refusal.
///
/// A batch is atomic per entry, not as a whole, so the refusal says how many
/// took effect.
pub fn apply_entries<T: TableOps>(tables: &mut T, entries: &[EntrySpec]) -> (r: Result<
    usize,
    String,
>)
    requires
        old(tables).inv(),
        specs_wf(entries@),
    ensures
        final(tables).inv(),
        final(tables).same_program(old(tables)),
        old(tables).generation() + entries@.len() <= u64::MAX ==> final(tables).continues(
            old(tables),
        ) && final(tables).generation() <= old(tables).generation() + entries@.len(),
        final(tables).surface() == entries_added(
            old(tables).surface(),
            spec_models(entries@),
            entries@.len() as int,
        ).0,
        match entries_added(old(tables).surface(), spec_models(entries@), entries@.len() as int).1 {
            None => r == Ok::<usize, String>(entries@.len() as usize),
            Some((i, e)) => r is Err && r->Err_0@ == batch_refusal(spec_models(entries@), i, e),
        },
{
    let ghost surface = tables.surface();
    let ghost all = spec_models(entries@);
    let ghost start = *tables;
    proof {
        T::lemma_continues(&start, &start, &start);
    }
    let mut i: usize = 0;
    while i < entries.len()
        invariant
            i <= entries@.len(),
            all == spec_models(entries@),
            specs_wf(entries@),
            surface == old(tables).surface(),
            start == *old(tables),
            tables.inv(),
            tables.same_program(&start),
            start.generation() + i <= u64::MAX ==> tables.continues(&start)
                && tables.generation() <= start.generation() + i,
            entries_added(surface, all, i as int) == (tables.surface(), None::<
                (int, TableErrorModel),
            >),
        decreases entries.len() - i,
    {
        let e: &EntrySpec = &entries[i];
        assert(all[i as int] == e@);
        let ghost before = *tables;
        let added: Result<(), TableError> = add_entry(tables, e);
        proof {
            T::lemma_continues(&start, &before, tables);
        }
        match added {
            Ok(()) => {},
            Err(x) => {
                proof {
                    lemma_batch_stops(surface, all, i + 1, entries@.len() as int);
                }
                let mut out: String = "entry ".to_owned();
                push_dec(&mut out, i as u64);
                out.append(" (");
                out.append(e.table.as_str());
                out.append(" ");
                out.append(e.key.as_str());
                out.append("): ");
                out.append(x.message().as_str());
                out.append(" [");
                push_dec(&mut out, i as u64);
                out.append(" of ");
                push_dec(&mut out, entries.len() as u64);
                out.append(" applied]");
                return Err(out);
            },
        }
        i += 1;
    }
    Ok(entries.len())
}

fn describe_all(schemas: &[TableSchema]) -> (r: Vec<SchemaDesc>)
    ensures
        desc_models(r@) == schema_models(schemas@),
{
    let mut out: Vec<SchemaDesc> = Vec::new();
    let mut i: usize = 0;
    while i < schemas.len()
        invariant
            i <= schemas@.len(),
            out@.len() == i,
            forall|j: int| 0 <= j < i ==> (#[trigger] out@[j])@ == schemas@[j]@,
        decreases schemas.len() - i,
    {
        out.push(schemas[i].describe());
        i += 1;
    }
    assert(desc_models(out@) =~= schema_models(schemas@));
    out
}

fn wrap_frames(frames: &[PuntFrame]) -> (r: Vec<PuntedFrame>)
    ensures
        punted_models(r@) == wire_frames(punt_models(frames@), frames@.len() as int),
{
    let mut out: Vec<PuntedFrame> = Vec::new();
    let mut i: usize = 0;
    while i < frames.len()
        invariant
            i <= frames@.len(),
            out@.len() == i,
            forall|j: int| 0 <= j < i ==> (#[trigger] out@[j])@ == on_the_wire(frames@[j]@),
        decreases frames.len() - i,
    {
        let f: &PuntFrame = &frames[i];
        out.push(
            PuntedFrame {
                ingress_vport: f.ingress_vport,
                rx_ts_us: f.rx_ts_us,
                frame_b64: encode(f.bytes.as_slice()),
            },
        );
        i += 1;
    }
    assert(punted_models(out@) =~= wire_frames(punt_models(frames@), frames@.len() as int));
    out
}

/// Execute `punt-drain`.
fn drain(node: &mut Node, max: usize) -> (r: Response)
    requires
        old(node).punt matches Some(q) ==> q.wf(),
    ensures
        final(node).punt matches Some(q) ==> q.wf(),
        final(node).metrics == old(node).metrics,
        final(node).spec_punt() == punt_after(
            old(node).spec_punt(),
            Request::PuntDrain { max },
        ),
        match old(node).spec_punt() {
            None => is_refusal(
                r,
                "punt is not configured on this node ([punt] in up4.toml)"@,
            ),
            Some(q) => r matches Response::Punted { frames, remaining } && punted_models(frames@)
                == wire_frames(q.frames, drained(q.frames.len(), max)) && remaining
                == q.frames.len() - drained(q.frames.len(), max),
        },
{
    match &mut node.punt {
        None => Response::error(
            "punt is not configured on this node ([punt] in up4.toml)".to_owned(),
        ),
        Some(queue) => {
            let ghost before = queue@;
            let most: usize = if max < PUNT_DRAIN_MAX {
                max
            } else {
                PUNT_DRAIN_MAX
            };
            let taken: Vec<PuntFrame> = queue.drain(most);
            let remaining: usize = queue.len();
            let frames: Vec<PuntedFrame> = wrap_frames(taken.as_slice());
            proof {
                let n = drained(before.len(), max);
                let out = punt_models(taken@);
                assert(out.len() == n);
                assert(queue@ =~= before.subrange(n, before.len() as int));
                assert(wire_frames(out, n) =~= wire_frames(before, n)) by {
                    assert forall|i: int| 0 <= i < n implies out[i] == before[i] by {
                        assert((out + queue@)[i] == out[i]);
                    }
                }
            }
            Response::Punted { frames, remaining }
        },
    }
}

/// Turn the outcome of a write into a reply.
fn applied(r: Result<(), TableError>) -> (reply: Response)
    ensures
        r is Ok ==> reply == (Response::Applied { count: 1 }),
        r matches Err(e) ==> is_refusal(reply, e@.message()),
{
    match r {
        Ok(()) => Response::Applied { count: 1 },
        Err(e) => Response::error(e.message()),
    }
}

fn remove_entry<T: TableOps>(tables: &mut T, table: &str, key: &str) -> (r: Result<(), TableError>)
    requires
        old(tables).inv(),
    ensures
        final(tables).inv(),
        final(tables).same_program(old(tables)),
        old(tables).generation() < u64::MAX ==> final(tables).continues(old(tables))
            && final(tables).generation() <= old(tables).generation() + 1,
        r is Ok <==> entry_removed(old(tables).surface(), table@, key@) is Ok,
        r matches Err(x) ==> entry_removed(old(tables).surface(), table@, key@) == Err::<
            TableModel,
            TableErrorModel,
        >(x@),
        final(tables).surface() == old(tables).surface().after(
            entry_removed(old(tables).surface(), table@, key@),
        ),
{
    proof {
        T::lemma_continues(tables, tables, tables);
    }
    let schema: &'static TableSchema = match tables.schema(table) {
        Ok(s) => s,
        Err(x) => {
            return Err(x);
        },
    };
    let key: TypedKey = match parse_key(schema, key) {
        Ok(k) => k,
        Err(x) => {
            return Err(x);
        },
    };
    tables.table_remove(schema.name, key)
}

fn set_default<T: TableOps>(tables: &mut T, table: &str, action: &str, params: &Params) -> (r:
    Result<(), TableError>)
    requires
        old(tables).inv(),
        params.wf(),
    ensures
        final(tables).inv(),
        final(tables).same_program(old(tables)),
        old(tables).generation() < u64::MAX ==> final(tables).continues(old(tables))
            && final(tables).generation() <= old(tables).generation() + 1,
        r is Ok <==> default_set(old(tables).surface(), table@, action@, params@) is Ok,
        r matches Err(x) ==> default_set(old(tables).surface(), table@, action@, params@) == Err::<
            TableModel,
            TableErrorModel,
        >(x@),
        final(tables).surface() == old(tables).surface().after(
            default_set(old(tables).surface(), table@, action@, params@),
        ),
{
    proof {
        T::lemma_continues(tables, tables, tables);
    }
    let schema: &'static TableSchema = match tables.schema(table) {
        Ok(s) => s,
        Err(x) => {
            return Err(x);
        },
    };
    let typed: Vec<TypedVal> = match typed_params(schema, action, params) {
        Ok(p) => p,
        Err(x) => {
            return Err(x);
        },
    };
    tables.table_set_default(schema.name, action, typed.as_slice())
}

/// Execute one command.
///
/// Total: every request has exactly one reply, and every refusal carries the
/// reason an operator needs.
pub fn handle<P: Pipeline>(
    ctx: &mut Context,
    node: &mut Node,
    pipeline: &mut P,
    now: Now,
    request: Request,
) -> (r: Response)
    requires
        old(pipeline).inv(),
        request.wf(),
        old(node).punt matches Some(q) ==> q.wf(),
        request is Counters ==> old(node).metrics@.harness_drops() <= u64::MAX,
    ensures
        final(pipeline).inv(),
        final(pipeline).surface() == surface_after(old(pipeline).surface(), request),
        final(pipeline).same_program(old(pipeline)),
        old(pipeline).generation() + writes(request) <= u64::MAX ==> final(pipeline).continues(
            old(pipeline),
        ) && final(pipeline).generation() <= old(pipeline).generation() + writes(request),
        final(ctx).facts == old(ctx).facts,
        final(ctx).started_us == old(ctx).started_us,
        final(ctx).stop.is_requested() == (old(ctx).stop.is_requested() || request is Shutdown),
        final(node).metrics == old(node).metrics,
        final(node).punt matches Some(q) ==> q.wf(),
        final(node).spec_punt() == punt_after(old(node).spec_punt(), request),
        answers(
            r,
            request,
            old(ctx).facts,
            old(ctx).started_us,
            now,
            old(pipeline).surface(),
            old(node).metrics@,
            old(node).spec_punt(),
        ),
{
    proof {
        P::lemma_continues(pipeline, pipeline, pipeline);
    }
    match request {
        Request::Ping => Response::Pong,
        Request::Info => {
            let uptime_us: u64 = if now.monotonic_us >= ctx.started_us {
                now.monotonic_us - ctx.started_us
            } else {
                0
            };
            Response::Info(
                Box::new(Info { facts: ctx.facts.clone(), uptime_s: uptime_us / 1_000_000 }),
            )
        },
        Request::Counters => Response::Counters(Box::new(node.metrics.snapshot(now.wall_us))),
        Request::Tables => {
            let schemas: &'static [TableSchema] = pipeline.schemas();
            Response::Tables { tables: describe_all(schemas) }
        },
        Request::TableDump { table } => {
            let entries: Vec<EntryDesc> = match pipeline.table_dump(table.as_str()) {
                Ok(entries) => entries,
                Err(e) => {
                    return Response::error(e.message());
                },
            };
            match pipeline.table_default(table.as_str()) {
                Ok(default) => Response::Entries { entries, default },
                Err(e) => Response::error(e.message()),
            }
        },
        Request::TableAdd { entries } => match apply_entries(pipeline, entries.as_slice()) {
            Ok(count) => Response::Applied { count },
            Err(message) => Response::Error { message },
        },
        Request::TableDel { table, key } => applied(
            remove_entry(pipeline, table.as_str(), key.as_str()),
        ),
        Request::TableSetDefault { table, action, params } => applied(
            set_default(pipeline, table.as_str(), action.as_str(), &params),
        ),
        Request::TableClear { table } => match pipeline.table_clear(table.as_str()) {
            Ok(count) => Response::Applied { count },
            Err(e) => Response::error(e.message()),
        },
        Request::PuntDrain { max } => drain(node, max),
        Request::Shutdown => {
            ctx.stop.request();
            Response::ShuttingDown
        },
    }
}

/// A refused command changes nothing, but for a batch, which keeps the entries
/// in front of the refused one: what it leaves is what those entries alone
/// would have made.
pub proof fn law_a_refused_batch_keeps_what_it_applied(
    surface: SurfaceModel,
    entries: Seq<EntrySpecModel>,
    n: int,
)
    requires
        0 <= n <= entries.len(),
    ensures
        entries_added(surface, entries, n).1 matches Some((i, e)) ==> 0 <= i < n && entries_added(
            surface,
            entries,
            n,
        ).0 == entries_added(surface, entries, i).0 && entries_added(surface, entries, i).1 is None
            && entry_added(entries_added(surface, entries, i).0, entries[i]) == Err::<
            TableModel,
            TableErrorModel,
        >(e),
    decreases n,
{
    if n > 0 {
        law_a_refused_batch_keeps_what_it_applied(surface, entries, n - 1);
    }
}

/// A refused removal, default or clear leaves the tables as they were, and
/// reading never changes them.
pub proof fn law_refusals_change_nothing(surface: SurfaceModel, request: Request)
    requires
        !(request is TableAdd),
        request matches Request::TableDel { table, key } ==> entry_removed(
            surface,
            table@,
            key@,
        ) is Err,
        request matches Request::TableSetDefault { table, action, params } ==> default_set(
            surface,
            table@,
            action@,
            params@,
        ) is Err,
        request matches Request::TableClear { table } ==> surface.cleared(table@) is Err,
    ensures
        surface_after(surface, request) == surface,
{
}

/// Named and positional parameters mean the same: where every parameter of an
/// action has a text, giving the texts by name or by place makes the same
/// values.
pub proof fn law_names_and_places_mean_the_same(
    sig: Seq<ParamModel>,
    by_name: Map<Seq<char>, Seq<char>>,
    by_place: Seq<Seq<char>>,
    n: int,
)
    requires
        0 <= n <= sig.len(),
        sig.len() == by_place.len(),
        forall|i: int|
            0 <= i < sig.len() ==> by_name.contains_key((#[trigger] sig[i]).name)
                && by_name[sig[i].name] == by_place[i],
    ensures
        refined_values(sig, ParamsModel::Named(by_name), n) == refined_values(
            sig,
            ParamsModel::Positional(by_place),
            n,
        ),
    decreases n,
{
    if n > 0 {
        law_names_and_places_mean_the_same(sig, by_name, by_place, n - 1);
        assert(by_name[sig[n - 1].name] == by_place[n - 1]);
    }
}

/// The characters of the first `n` frames.
pub open spec fn text_of_frames(frames: Seq<PuntedModel>, n: int) -> int
    decreases n,
{
    if n <= 0 {
        0
    } else {
        text_of_frames(frames, n - 1) + frames[n - 1].frame_b64.len()
    }
}

/// The frames of one drain, none longer than the larger inner MTU, take less
/// than half of what a control frame holds.
pub proof fn law_drained_frames_leave_room(frames: Seq<PuntModel>, max: usize, n: int)
    requires
        forall|i: int| 0 <= i < frames.len() ==> (#[trigger] frames[i]).bytes.len() <= INNER_MTU_V4,
        0 <= n <= drained(frames.len(), max),
    ensures
        2 * text_of_frames(wire_frames(frames, drained(frames.len(), max)), n) < MAX_FRAME,
        text_of_frames(wire_frames(frames, drained(frames.len(), max)), n) <= n * 1948,
    decreases n,
{
    if n > 0 {
        law_drained_frames_leave_room(frames, max, n - 1);
        law_b64_length(frames[n - 1].bytes);
    }
}

proof fn lemma_values_read_back(sig: Seq<ParamModel>, values: Seq<TypedVal>, n: int)
    requires
        0 <= n <= values.len(),
        values.len() == sig.len(),
        forall|i: int| 0 <= i < values.len() ==> (#[trigger] values[i]).spec_kind() == sig[i].kind,
    ensures
        refined_values(
            sig,
            ParamsModel::Positional(
                Seq::new(values.len(), |i: int| values[i].spec_text()),
            ),
            n,
        ) == Ok::<Seq<TypedVal>, TableErrorModel>(values.subrange(0, n)),
    decreases n,
{
    let params = ParamsModel::Positional(Seq::new(values.len(), |i: int| values[i].spec_text()));
    if n > 0 {
        lemma_values_read_back(sig, values, n - 1);
        crate::value::law_value_text_round_trip(values[n - 1]);
        assert(values[n - 1].spec_kind() == sig[n - 1].kind);
        assert(values.subrange(0, n - 1).push(values[n - 1]) =~= values.subrange(0, n));
    } else {
        assert(values.subrange(0, 0) =~= Seq::empty());
    }
}

/// What the control channel shows can be typed: an entry written with its key
/// and parameters as they are shown is the entry itself, and the same holds of
/// removing it and of setting the default.
pub proof fn law_commands_reach_the_table(
    surface: SurfaceModel,
    table: TableModel,
    key: TypedKey,
    action: Seq<char>,
    values: Seq<TypedVal>,
)
    requires
        surface.table == Some(table),
        table.stored_key(key) is Ok,
        table.schema.checked(action, values) is Ok,
    ensures
        ({
            let params = ParamsModel::Positional(
                Seq::new(values.len(), |i: int| values[i].spec_text()),
            );
            let e = EntrySpecModel {
                table: table.schema.name,
                key: key.spec_text(),
                action,
                params,
            };
            &&& entry_added(surface, e) == table.added(key, action, values)
            &&& entry_removed(surface, table.schema.name, key.spec_text()) == table.removed(key)
            &&& default_set(surface, table.schema.name, action, params) == table.with_default(
                action,
                values,
            )
        }),
{
    crate::shim::law_key_text_round_trip(key);
    let schema = table.schema;
    let i = schema.action_from(action, 0)->0;
    let sig = schema.actions[i];
    schema.lemma_checked_kinds(action, values);
    lemma_values_read_back(sig.params, values, values.len() as int);
    assert(values.subrange(0, values.len() as int) =~= values);
}

/// A batch is its entries one after the other: a batch that goes on where one
/// without a refusal ended leaves what the two leave one after the other, and
/// one that was refused goes no further.
pub proof fn law_batches_go_on(
    surface: SurfaceModel,
    a: Seq<EntrySpecModel>,
    b: Seq<EntrySpecModel>,
    n: int,
)
    requires
        0 <= n <= b.len(),
    ensures
        ({
            let first = entries_added(surface, a, a.len() as int);
            let both = entries_added(surface, a + b, a.len() + n);
            let second = entries_added(first.0, b, n);
            &&& first.1 is Some ==> both == first
            &&& first.1 is None ==> both.0 == second.0
            &&& first.1 is None ==> (both.1 is None <==> second.1 is None)
            &&& first.1 is None && second.1 is Some ==> both.1 == Some(
                (a.len() + (second.1->0).0, (second.1->0).1),
            )
        }),
    decreases n,
{
    if n > 0 {
        law_batches_go_on(surface, a, b, n - 1);
        assert((a + b)[a.len() + n - 1] == b[n - 1]);
    } else {
        lemma_same_front(surface, a, a + b, a.len() as int);
    }
}

proof fn lemma_same_front(
    surface: SurfaceModel,
    a: Seq<EntrySpecModel>,
    b: Seq<EntrySpecModel>,
    n: int,
)
    requires
        0 <= n <= a.len(),
        n <= b.len(),
        forall|i: int| 0 <= i < n ==> (#[trigger] a[i]) == b[i],
    ensures
        entries_added(surface, a, n) == entries_added(surface, b, n),
    decreases n,
{
    if n > 0 {
        lemma_same_front(surface, a, b, n - 1);
        assert(a[n - 1] == b[n - 1]);
    }
}

/// A batch of one entry is that entry.
pub proof fn law_a_batch_of_one(surface: SurfaceModel, e: EntrySpecModel)
    ensures
        ({
            let r = entries_added(surface, seq![e], 1);
            &&& entry_added(surface, e) matches Ok(t) ==> r.1 is None && r.0.table == Some(t)
                && r.0.owner == surface.owner
            &&& entry_added(surface, e) matches Err(x) ==> r == (surface, Some((0int, x)))
        }),
{
    reveal_with_fuel(entries_added, 2);
    assert(seq![e][0] == e);
}

/// A drain takes the oldest frames, at most as many as asked for and at most
/// 64, says for each where and when it came in, carries its bytes in base64,
/// and leaves the rest waiting in their order. Without a queue it is refused.
pub proof fn law_drains_take_the_oldest(
    r: Response,
    max: usize,
    facts: Arc<NodeFacts>,
    started_us: u64,
    now: Now,
    surface: SurfaceModel,
    metrics: MetricsModel,
    punt: Option<PuntState>,
    i: int,
)
    requires
        answers(r, Request::PuntDrain { max }, facts, started_us, now, surface, metrics, punt),
    ensures
        punt is None ==> r is Error && punt_after(punt, Request::PuntDrain { max }) is None,
        punt matches Some(q) ==> {
            let n = if max < 64 && max < q.frames.len() {
                max as int
            } else if q.frames.len() < 64 {
                q.frames.len() as int
            } else {
                64
            };
            let left = punt_after(punt, Request::PuntDrain { max })->0;
            &&& r is Punted
            &&& r->frames@.len() == n
            &&& r->remaining == q.frames.len() - n
            &&& 0 <= i < n ==> r->frames@[i].ingress_vport == q.frames[i].ingress_vport
                && r->frames@[i].rx_ts_us == q.frames[i].rx_ts_us && decoded(
                r->frames@[i].frame_b64@,
            ) == Some(q.frames[i].bytes)
            &&& left.frames.len() == q.frames.len() - n
            &&& n <= i < q.frames.len() ==> left.frames[i - n] == q.frames[i]
            &&& left.capacity == q.capacity
            &&& left.slot_size == q.slot_size
        },
{
    if let Some(q) = punt {
        let n = drained(q.frames.len(), max);
        assert(punted_models(r->frames@).len() == n);
        if 0 <= i < n {
            assert(punted_models(r->frames@)[i] == wire_frames(q.frames, n)[i]);
            crate::b64::law_b64_round_trip(q.frames[i].bytes);
        }
    }
}

/// What is read is not changed: asking for anything but a write leaves the
/// tables, and anything but a drain leaves the punt queue, as they were.
pub proof fn law_reading_changes_nothing(
    surface: SurfaceModel,
    punt: Option<PuntState>,
    request: Request,
)
    ensures
        request is Ping || request is Info || request is Counters || request is Tables
            || request is TableDump || request is PuntDrain || request is Shutdown
            ==> surface_after(surface, request) == surface,
        !(request is PuntDrain) ==> punt_after(punt, request) == punt,
{
}

/// Each question has its answer: a ping is answered, the node's facts come with
/// whole seconds of uptime, the counters with the time of day, and the tables as
/// they are published.
pub proof fn law_questions_are_answered(
    r: Response,
    request: Request,
    facts: Arc<NodeFacts>,
    started_us: u64,
    now: Now,
    surface: SurfaceModel,
    metrics: MetricsModel,
    punt: Option<PuntState>,
)
    requires
        answers(r, request, facts, started_us, now, surface, metrics, punt),
    ensures
        request is Ping ==> r is Pong,
        request is Shutdown ==> r is ShuttingDown,
        request is Info ==> r is Info && r->Info_0.facts == facts && (now.monotonic_us >= started_us
            ==> r->Info_0.uptime_s * 1_000_000 <= now.monotonic_us - started_us < (
        r->Info_0.uptime_s + 1) * 1_000_000) && (now.monotonic_us < started_us
            ==> r->Info_0.uptime_s == 0),
        request is Counters ==> r is Counters && r->Counters_0@ == snapshot_of(
            metrics,
            now.wall_us,
        ),
        request is Tables ==> r is Tables && desc_models(r->tables@) == surface.schemas(),
{
}

/// Each write is answered by what became of it: how many entries it affected,
/// or why it was refused.
pub proof fn law_writes_are_answered(
    r: Response,
    request: Request,
    facts: Arc<NodeFacts>,
    started_us: u64,
    now: Now,
    surface: SurfaceModel,
    metrics: MetricsModel,
    punt: Option<PuntState>,
)
    requires
        answers(r, request, facts, started_us, now, surface, metrics, punt),
    ensures
        request matches Request::TableDel { table, key } ==> (match entry_removed(
            surface,
            table@,
            key@,
        ) {
            Ok(t) => r is Applied && r->count == 1 && surface_after(surface, request).table
                == Some(t),
            Err(e) => r is Error && r->message@ == e.message() && surface_after(surface, request)
                == surface,
        }),
        request matches Request::TableSetDefault { table, action, params } ==> (match default_set(
            surface,
            table@,
            action@,
            params@,
        ) {
            Ok(t) => r is Applied && r->count == 1 && surface_after(surface, request).table
                == Some(t),
            Err(e) => r is Error && r->message@ == e.message() && surface_after(surface, request)
                == surface,
        }),
        request matches Request::TableClear { table } ==> (match surface.table(table@) {
            Ok(t) => r is Applied && r->count == t.entries.dom().len() && surface_after(
                surface,
                request,
            ).table == Some(t.cleared()),
            Err(e) => r is Error && r->message@ == e.message() && surface_after(surface, request)
                == surface,
        }),
        request matches Request::TableAdd { entries } ==> r is Applied || r is Error,
        request matches Request::TableAdd { entries } ==> (r is Applied ==> r->count
            == entries@.len()),
{
}

/// A connection that stays silent is closed after half a minute: after `n`
/// timeouts of 200 ms it has been idle for as long, and the last one that
/// leaves it open is the one before 30 s are up.
pub proof fn law_silence_lasts_half_a_minute(n: int)
    requires
        0 <= n,
    ensures
        n * ACCEPT_TIMEOUT_MS < IDLE_TIMEOUT_MS <==> n < 150,
        n * ACCEPT_TIMEOUT_MS == n * 200,
        IDLE_TIMEOUT_MS == 30_000,
{
}

/// A batch that stopped says where, and how many of how many entries took
/// effect: those in front of the refused one.
pub proof fn law_refused_batches_say_how_far_they_got(
    entries: Seq<EntrySpecModel>,
    i: int,
    e: TableErrorModel,
)
    requires
        0 <= i < entries.len(),
    ensures
        ({
            let m = batch_refusal(entries, i, e);
            let head = "entry "@ + dec(i) + " ("@ + entries[i].table + " "@ + entries[i].key
                + "): "@;
            let tail = " ["@ + dec(i) + " of "@ + dec(entries.len() as int) + " applied]"@;
            &&& m.len() == head.len() + e.message().len() + tail.len()
            &&& m.subrange(0, head.len() as int) == head
            &&& m.subrange(head.len() as int, m.len() - tail.len()) == e.message()
            &&& m.subrange(m.len() - tail.len(), m.len() as int) == tail
        }),
{
    let m = batch_refusal(entries, i, e);
    let head = "entry "@ + dec(i) + " ("@ + entries[i].table + " "@ + entries[i].key + "): "@;
    let tail = " ["@ + dec(i) + " of "@ + dec(entries.len() as int) + " applied]"@;
    assert(m =~= head + e.message() + tail);
    assert(m.subrange(0, head.len() as int) =~= head);
    assert(m.subrange(head.len() as int, m.len() - tail.len()) =~= e.message());
    assert(m.subrange(m.len() - tail.len(), m.len() as int) =~= tail);
}

/// A dump is answered with every entry of the table and with its default under
/// an asterisk; a table that is not there is refused.
pub proof fn law_dumps_are_answered(
    r: Response,
    table: String,
    facts: Arc<NodeFacts>,
    started_us: u64,
    now: Now,
    surface: SurfaceModel,
    metrics: MetricsModel,
    punt: Option<PuntState>,
)
    requires
        answers(r, Request::TableDump { table }, facts, started_us, now, surface, metrics, punt),
    ensures
        surface.table(table@) matches Ok(t) ==> {
            &&& r is Entries
            &&& dumps(t, entry_models(r->entries@))
            &&& r->default@.key == "*"@
            &&& r->default@.action == t.schema.actions[t.default.action].name
        },
        surface.table(table@) matches Err(e) ==> r is Error && r->message@ == e.message(),
{
}

} // verus!
