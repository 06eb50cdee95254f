//! Replies as an operator reads them.
use crate::ctl::protocol::{Info, PuntedFrame, Response, VportInfo};
use crate::named::pair_texts;
use crate::probe::Probe;
use crate::shim::{ActionDesc, EntryDesc, KeyKind, ParamDesc, SchemaDesc};
use crate::snapshot::{Bucket, HistogramSnapshot, Snapshot, VportSnapshot};
use crate::text::{dec, padded, push_dec, push_padded};
use vstd::prelude::*;

verus! {

/// What a reply prints, and whether it is an answer or a refusal.
#[derive(Clone, Debug, PartialEq, Eq)]
pub struct Report {
    /// What goes to the standard output.
    pub out: String,
    /// What goes to the standard error.
    pub err: String,
    /// Whether the reply is an answer.
    pub ok: bool,
}

/// The ending of `entr...` for a count.
pub open spec fn ending(n: int) -> Seq<char> {
    if n == 1 {
        "y"@
    } else {
        "ies"@
    }
}

fn plural(n: usize) -> (r: &'static str)
    ensures
        r@ == ending(n as int),
{
    if n == 1 {
        "y"
    } else {
        "ies"
    }
}

/// The first `n` parameters as `name=value`, a space between any two.
pub open spec fn params_shown(pairs: Seq<(Seq<char>, Seq<char>)>, n: int) -> Seq<char>
    decreases n,
{
    if n <= 0 {
        Seq::empty()
    } else {
        let one = pairs[n - 1].0 + "="@ + pairs[n - 1].1;
        if n == 1 {
            one
        } else {
            params_shown(pairs, n - 1) + " "@ + one
        }
    }
}

/// The parameters of an entry.
pub open spec fn entry_params(e: EntryDesc) -> Seq<char> {
    params_shown(pair_texts(e.params.pairs@), e.params.pairs@.len() as int)
}

fn params_of(entry: &EntryDesc) -> (r: String)
    ensures
        r@ == entry_params(*entry),
{
    let ghost pairs = pair_texts(entry.params.pairs@);
    let mut out: String = String::new();
    assert(out@ =~= params_shown(pairs, 0));
    let mut i: usize = 0;
    while i < entry.params.pairs.len()
        invariant
            i <= entry.params.pairs@.len(),
            pairs == pair_texts(entry.params.pairs@),
            out@ == params_shown(pairs, i as int),
        decreases entry.params.pairs.len() - i,
    {
        let ghost before = out@;
        if i > 0 {
            out.append(" ");
        }
        out.append(entry.params.pairs[i].0.as_str());
        out.append("=");
        out.append(entry.params.pairs[i].1.as_str());
        proof {
            let one = pairs[i as int].0 + "="@ + pairs[i as int].1;
            if i > 0 {
                assert(out@ =~= before + " "@ + one);
            } else {
                assert(out@ =~= one);
            }
        }
        i += 1;
    }
    out
}

/// One row of a table dump.
pub open spec fn entry_row(key: Seq<char>, e: EntryDesc) -> Seq<char> {
    padded(key, 20) + " "@ + e.action@ + " "@ + entry_params(e)
}

/// The rows of the first `n` entries.
pub open spec fn entry_rows(v: Seq<EntryDesc>, n: int) -> Seq<char>
    decreases n,
{
    if n <= 0 {
        Seq::empty()
    } else {
        entry_rows(v, n - 1) + entry_row(v[n - 1].key@, v[n - 1]) + "\n"@
    }
}

/// A table dump: one row for each entry, the default action, and a count.
pub open spec fn dump_text(entries: Seq<EntryDesc>, default: EntryDesc) -> Seq<char> {
    entry_rows(entries, entries.len() as int) + entry_row("*"@, default) + "   (default)\n\n"@
        + dec(entries.len() as int) + " entr"@ + ending(entries.len() as int) + "\n"@
}

fn push_row(out: &mut String, key: &str, e: &EntryDesc)
    ensures
        final(out)@ == old(out)@ + entry_row(key@, *e),
{
    push_padded(out, key, 20);
    out.append(" ");
    out.append(e.action.as_str());
    out.append(" ");
    out.append(params_of(e).as_str());
    assert(out@ =~= old(out)@ + entry_row(key@, *e));
}

fn show_dump(entries: &[EntryDesc], default: &EntryDesc) -> (r: String)
    ensures
        r@ == dump_text(entries@, *default),
{
    let mut out: String = String::new();
    assert(out@ =~= entry_rows(entries@, 0));
    let mut i: usize = 0;
    while i < entries.len()
        invariant
            i <= entries@.len(),
            out@ == entry_rows(entries@, i as int),
        decreases entries.len() - i,
    {
        let ghost before = out@;
        push_row(&mut out, entries[i].key.as_str(), &entries[i]);
        out.append("\n");
        i += 1;
    }
    push_row(&mut out, "*", default);
    out.append("   (default)\n\n");
    push_dec(&mut out, entries.len() as u64);
    out.append(" entr");
    out.append(plural(entries.len()));
    out.append("\n");
    out
}

/// The lines of the first `n` punted frames.
pub open spec fn frame_lines(v: Seq<PuntedFrame>, n: int) -> Seq<char>
    decreases n,
{
    if n <= 0 {
        Seq::empty()
    } else {
        frame_lines(v, n - 1) + "vport "@ + dec(v[n - 1].ingress_vport as int) + " @ "@ + dec(
            v[n - 1].rx_ts_us as int,
        ) + " us  "@ + v[n - 1].frame_b64@ + "\n"@
    }
}

/// Drained frames, and how many are left.
pub open spec fn punted_text(frames: Seq<PuntedFrame>, remaining: int) -> Seq<char> {
    frame_lines(frames, frames.len() as int) + "\n"@ + dec(frames.len() as int) + " frame(s), "@
        + dec(remaining) + " still queued\n"@
}

fn show_punted(frames: &[PuntedFrame], remaining: usize) -> (r: String)
    ensures
        r@ == punted_text(frames@, remaining as int),
{
    let mut out: String = String::new();
    assert(out@ =~= frame_lines(frames@, 0));
    let mut i: usize = 0;
    while i < frames.len()
        invariant
            i <= frames@.len(),
            out@ == frame_lines(frames@, i as int),
        decreases frames.len() - i,
    {
        out.append("vport ");
        push_dec(&mut out, frames[i].ingress_vport as u64);
        out.append(" @ ");
        push_dec(&mut out, frames[i].rx_ts_us as u64);
        out.append(" us  ");
        out.append(frames[i].frame_b64.as_str());
        out.append("\n");
        i += 1;
    }
    out.append("\n");
    push_dec(&mut out, frames.len() as u64);
    out.append(" frame(s), ");
    push_dec(&mut out, remaining as u64);
    out.append(" still queued\n");
    out
}

/// The first `n` counters, one on each line.
pub open spec fn counter_lines(v: Seq<(String, u64)>, n: int) -> Seq<char>
    decreases n,
{
    if n <= 0 {
        Seq::empty()
    } else {
        counter_lines(v, n - 1) + "  "@ + padded(v[n - 1].0@, 24) + " "@ + dec(v[n - 1].1 as int)
            + "\n"@
    }
}

fn push_counters(out: &mut String, v: &[(String, u64)])
    ensures
        final(out)@ == old(out)@ + counter_lines(v@, v@.len() as int),
{
    let ghost start = out@;
    assert(start =~= start + counter_lines(v@, 0));
    let mut i: usize = 0;
    while i < v.len()
        invariant
            i <= v@.len(),
            out@ == start + counter_lines(v@, i as int),
        decreases v.len() - i,
    {
        out.append("  ");
        push_padded(out, v[i].0.as_str(), 24);
        out.append(" ");
        push_dec(out, v[i].1);
        out.append("\n");
        assert(out@ =~= start + counter_lines(v@, i + 1));
        i += 1;
    }
}

/// The first `n` vports with their counters.
pub open spec fn vport_blocks(v: Seq<VportSnapshot>, n: int) -> Seq<char>
    decreases n,
{
    if n <= 0 {
        Seq::empty()
    } else {
        vport_blocks(v, n - 1) + "vport "@ + dec(v[n - 1].id as int) + "\n"@ + counter_lines(
            v[n - 1].counters@,
            v[n - 1].counters@.len() as int,
        )
    }
}

/// The first `n` buckets of a histogram, a space between any two.
pub open spec fn cells(v: Seq<Bucket>, n: int) -> Seq<char>
    decreases n,
{
    if n <= 0 {
        Seq::empty()
    } else {
        let one = match v[n - 1].le {
            Some(le) => "<="@ + dec(le as int) + ":"@ + dec(v[n - 1].count as int),
            None => ">64:"@ + dec(v[n - 1].count as int),
        };
        if n == 1 {
            one
        } else {
            cells(v, n - 1) + " "@ + one
        }
    }
}

/// The first `n` histograms, one on each line.
pub open spec fn hist_lines(v: Seq<(String, HistogramSnapshot)>, n: int) -> Seq<char>
    decreases n,
{
    if n <= 0 {
        Seq::empty()
    } else {
        hist_lines(v, n - 1) + padded(v[n - 1].0@, 24) + " "@ + cells(
            v[n - 1].1.buckets@,
            v[n - 1].1.buckets@.len() as int,
        ) + "\n"@
    }
}

/// A counter snapshot.
pub open spec fn counters_text(s: Snapshot) -> Seq<char> {
    "node "@ + s.node@ + " @ "@ + dec(s.ts_us as int) + " us\n"@ + counter_lines(
        s.counters@,
        s.counters@.len() as int,
    ) + "  "@ + padded("harness_drops (sum)"@, 24) + " "@ + dec(s.harness_drops as int) + "\n"@
        + vport_blocks(s.vports@, s.vports@.len() as int) + hist_lines(
        s.histograms@,
        s.histograms@.len() as int,
    )
}

fn push_cells(out: &mut String, v: &[Bucket])
    ensures
        final(out)@ == old(out)@ + cells(v@, v@.len() as int),
{
    let ghost start = out@;
    assert(start =~= start + cells(v@, 0));
    let mut i: usize = 0;
    while i < v.len()
        invariant
            i <= v@.len(),
            out@ == start + cells(v@, i as int),
        decreases v.len() - i,
    {
        if i > 0 {
            out.append(" ");
        }
        match v[i].le {
            Some(le) => {
                out.append("<=");
                push_dec(out, le as u64);
                out.append(":");
            },
            None => out.append(">64:"),
        }
        push_dec(out, v[i].count);
        assert(out@ =~= start + cells(v@, i + 1));
        i += 1;
    }
}

fn push_vports(out: &mut String, v: &[VportSnapshot])
    ensures
        final(out)@ == old(out)@ + vport_blocks(v@, v@.len() as int),
{
    let ghost start = out@;
    assert(start =~= start + vport_blocks(v@, 0));
    let mut i: usize = 0;
    while i < v.len()
        invariant
            i <= v@.len(),
            out@ == start + vport_blocks(v@, i as int),
        decreases v.len() - i,
    {
        out.append("vport ");
        push_dec(out, v[i].id as u64);
        out.append("\n");
        push_counters(out, v[i].counters.as_slice());
        assert(out@ =~= start + vport_blocks(v@, i + 1));
        i += 1;
    }
}

fn push_hists(out: &mut String, v: &[(String, HistogramSnapshot)])
    ensures
        final(out)@ == old(out)@ + hist_lines(v@, v@.len() as int),
{
    let ghost start = out@;
    assert(start =~= start + hist_lines(v@, 0));
    let mut i: usize = 0;
    while i < v.len()
        invariant
            i <= v@.len(),
            out@ == start + hist_lines(v@, i as int),
        decreases v.len() - i,
    {
        push_padded(out, v[i].0.as_str(), 24);
        out.append(" ");
        push_cells(out, v[i].1.buckets.as_slice());
        out.append("\n");
        assert(out@ =~= start + hist_lines(v@, i + 1));
        i += 1;
    }
}

fn show_counters(s: &Snapshot) -> (r: String)
    ensures
        r@ == counters_text(*s),
{
    let mut out: String = "node ".to_owned();
    out.append(s.node.as_str());
    out.append(" @ ");
    push_dec(&mut out, s.ts_us);
    out.append(" us\n");
    push_counters(&mut out, s.counters.as_slice());
    out.append("  ");
    push_padded(&mut out, "harness_drops (sum)", 24);
    out.append(" ");
    push_dec(&mut out, s.harness_drops);
    out.append("\n");
    push_vports(&mut out, s.vports.as_slice());
    push_hists(&mut out, s.histograms.as_slice());
    out
}

/// The first `n` parameters of an action, a comma between any two.
pub open spec fn signature(v: Seq<ParamDesc>, n: int) -> Seq<char>
    decreases n,
{
    if n <= 0 {
        Seq::empty()
    } else {
        let one = v[n - 1].name@ + ": "@ + v[n - 1].kind.spec_syntax();
        if n == 1 {
            one
        } else {
            signature(v, n - 1) + ", "@ + one
        }
    }
}

/// The first `n` actions, one on each line.
pub open spec fn action_lines(v: Seq<ActionDesc>, n: int) -> Seq<char>
    decreases n,
{
    if n <= 0 {
        Seq::empty()
    } else {
        action_lines(v, n - 1) + "  action "@ + v[n - 1].name@ + "("@ + signature(
            v[n - 1].params@,
            v[n - 1].params@.len() as int,
        ) + ")\n"@
    }
}

/// How a table's key matches.
pub open spec fn match_name(k: KeyKind) -> Seq<char> {
    match k {
        KeyKind::Exact(_) => "exact"@,
        KeyKind::Lpm(_) => "lpm"@,
    }
}

/// The first `n` tables.
pub open spec fn schema_blocks(v: Seq<SchemaDesc>, n: int) -> Seq<char>
    decreases n,
{
    if n <= 0 {
        Seq::empty()
    } else {
        schema_blocks(v, n - 1) + "table "@ + v[n - 1].name@ + "\n  key    "@ + v[n - 1].key_field@
            + " : "@ + match_name(v[n - 1].key) + "   ("@
            + v[n - 1].key.spec_value_kind().spec_syntax() + ")\n"@ + action_lines(
            v[n - 1].actions@,
            v[n - 1].actions@.len() as int,
        )
    }
}

/// What to type, for every table.
pub open spec fn schemas_text(v: Seq<SchemaDesc>) -> Seq<char> {
    if v.len() == 0 {
        "this pipeline has no tables\n"@
    } else {
        schema_blocks(v, v.len() as int)
    }
}

fn push_signature(out: &mut String, v: &[ParamDesc])
    ensures
        final(out)@ == old(out)@ + signature(v@, v@.len() as int),
{
    let ghost start = out@;
    assert(start =~= start + signature(v@, 0));
    let mut i: usize = 0;
    while i < v.len()
        invariant
            i <= v@.len(),
            out@ == start + signature(v@, i as int),
        decreases v.len() - i,
    {
        if i > 0 {
            out.append(", ");
        }
        out.append(v[i].name.as_str());
        out.append(": ");
        out.append(v[i].kind.syntax());
        assert(out@ =~= start + signature(v@, i + 1));
        i += 1;
    }
}

fn push_actions(out: &mut String, v: &[ActionDesc])
    ensures
        final(out)@ == old(out)@ + action_lines(v@, v@.len() as int),
{
    let ghost start = out@;
    assert(start =~= start + action_lines(v@, 0));
    let mut i: usize = 0;
    while i < v.len()
        invariant
            i <= v@.len(),
            out@ == start + action_lines(v@, i as int),
        decreases v.len() - i,
    {
        out.append("  action ");
        out.append(v[i].name.as_str());
        out.append("(");
        push_signature(out, v[i].params.as_slice());
        out.append(")\n");
        assert(out@ =~= start + action_lines(v@, i + 1));
        i += 1;
    }
}

fn push_schema(out: &mut String, s: &SchemaDesc)
    ensures
        final(out)@ == old(out)@ + ("table "@ + s.name@ + "\n  key    "@ + s.key_field@ + " : "@
            + match_name(s.key) + "   ("@ + s.key.spec_value_kind().spec_syntax() + ")\n"@
            + action_lines(s.actions@, s.actions@.len() as int)),
{
    out.append("table ");
    out.append(s.name.as_str());
    out.append("\n  key    ");
    out.append(s.key_field.as_str());
    out.append(" : ");
    match s.key {
        KeyKind::Exact(k) => {
            out.append("exact");
            out.append("   (");
            out.append(k.syntax());
        },
        KeyKind::Lpm(k) => {
            out.append("lpm");
            out.append("   (");
            out.append(k.syntax());
        },
    }
    out.append(")\n");
    push_actions(out, s.actions.as_slice());
    assert(out@ =~= old(out)@ + ("table "@ + s.name@ + "\n  key    "@ + s.key_field@ + " : "@
        + match_name(s.key) + "   ("@ + s.key.spec_value_kind().spec_syntax() + ")\n"@
        + action_lines(s.actions@, s.actions@.len() as int)));
}

fn show_schemas(v: &[SchemaDesc]) -> (r: String)
    ensures
        r@ == schemas_text(v@),
{
    if v.len() == 0 {
        return "this pipeline has no tables\n".to_owned();
    }
    let mut out: String = String::new();
    assert(out@ =~= schema_blocks(v@, 0));
    let mut i: usize = 0;
    while i < v.len()
        invariant
            i <= v@.len(),
            out@ == schema_blocks(v@, i as int),
        decreases v.len() - i,
    {
        let ghost before = out@;
        push_schema(&mut out, &v[i]);
        assert(out@ =~= schema_blocks(v@, i + 1));
        i += 1;
    }
    out
}

/// The first `n` vports of the topology.
pub open spec fn vport_lines(v: Seq<VportInfo>, n: int) -> Seq<char>
    decreases n,
{
    if n <= 0 {
        Seq::empty()
    } else {
        vport_lines(v, n - 1) + "  "@ + padded(dec(v[n - 1].id as int), 5) + " -> "@
            + v[n - 1].peer@ + "\n"@
    }
}

/// The first `n` warnings.
pub open spec fn warning_lines(v: Seq<String>, n: int) -> Seq<char>
    decreases n,
{
    if n <= 0 {
        Seq::empty()
    } else {
        warning_lines(v, n - 1) + "  - "@ + v[n - 1]@ + "\n"@
    }
}

/// What the startup probe warns about, if anything.
pub open spec fn probe_text(probe: Option<Probe>) -> Seq<char> {
    match probe {
        Some(p) => if p.warnings@.len() > 0 {
            "probe warnings\n"@ + warning_lines(p.warnings@, p.warnings@.len() as int)
        } else {
            Seq::empty()
        },
        None => Seq::empty(),
    }
}

/// What the node knows about itself.
pub open spec fn info_text(i: Info) -> Seq<char> {
    let f = *i.facts;
    "node       "@ + f.node@ + "\nversion    up4 "@ + f.version@ + "\npipeline   "@ + f.pipeline@
        + " \u{2014} "@ + f.pipeline_summary@ + "\nuptime     "@ + dec(i.uptime_s as int)
        + " s\nbind       "@ + f.bind@ + " ("@ + dec(f.threads as int) + (if f.threads == 1 {
        " shard"@
    } else {
        " shards"@
    }) + ")\nfabric     "@ + f.fabric@ + " (inner MTU "@ + dec(f.inner_mtu as int)
        + ")\npunt       "@ + (if f.punt_enabled {
        "enabled"@
    } else {
        "not configured"@
    }) + "\nvports\n"@ + vport_lines(f.vports@, f.vports@.len() as int) + probe_text(f.probe)
}

fn push_vport_lines(out: &mut String, v: &[VportInfo])
    ensures
        final(out)@ == old(out)@ + vport_lines(v@, v@.len() as int),
{
    let ghost start = out@;
    assert(start =~= start + vport_lines(v@, 0));
    let mut i: usize = 0;
    while i < v.len()
        invariant
            i <= v@.len(),
            out@ == start + vport_lines(v@, i as int),
        decreases v.len() - i,
    {
        let mut id: String = String::new();
        push_dec(&mut id, v[i].id as u64);
        assert(id@ =~= dec(v@[i as int].id as int));
        out.append("  ");
        push_padded(out, id.as_str(), 5);
        out.append(" -> ");
        out.append(v[i].peer.as_str());
        out.append("\n");
        assert(out@ =~= start + vport_lines(v@, i + 1));
        i += 1;
    }
}

fn push_probe(out: &mut String, probe: &Option<Probe>)
    ensures
        final(out)@ == old(out)@ + probe_text(*probe),
{
    let ghost start = out@;
    if let Some(p) = probe {
        if p.warnings.len() > 0 {
            out.append("probe warnings\n");
            let ghost head = out@;
            assert(head =~= head + warning_lines(p.warnings@, 0));
            let mut i: usize = 0;
            while i < p.warnings.len()
                invariant
                    i <= p.warnings@.len(),
                    out@ == head + warning_lines(p.warnings@, i as int),
                decreases p.warnings.len() - i,
            {
                out.append("  - ");
                out.append(p.warnings[i].as_str());
                out.append("\n");
                assert(out@ =~= head + warning_lines(p.warnings@, i + 1));
                i += 1;
            }
            assert(out@ =~= start + probe_text(*probe));
            return;
        }
    }
    assert(out@ =~= start + probe_text(*probe));
}

fn show_info(i: &Info) -> (r: String)
    ensures
        r@ == info_text(*i),
{
    let mut out: String = "node       ".to_owned();
    out.append(i.facts.node.as_str());
    out.append("\nversion    up4 ");
    out.append(i.facts.version.as_str());
    out.append("\npipeline   ");
    out.append(i.facts.pipeline.as_str());
    out.append(" \u{2014} ");
    out.append(i.facts.pipeline_summary.as_str());
    out.append("\nuptime     ");
    push_dec(&mut out, i.uptime_s);
    out.append(" s\nbind       ");
    out.append(i.facts.bind.as_str());
    out.append(" (");
    push_dec(&mut out, i.facts.threads as u64);
    if i.facts.threads == 1 {
        out.append(" shard");
    } else {
        out.append(" shards");
    }
    out.append(")\nfabric     ");
    out.append(i.facts.fabric.as_str());
    out.append(" (inner MTU ");
    push_dec(&mut out, i.facts.inner_mtu as u64);
    out.append(")\npunt       ");
    if i.facts.punt_enabled {
        out.append("enabled");
    } else {
        out.append("not configured");
    }
    out.append("\nvports\n");
    push_vport_lines(&mut out, i.facts.vports.as_slice());
    push_probe(&mut out, &i.facts.probe);
    out
}

/// What an answer prints.
pub open spec fn answer_text(r: Response) -> Seq<char> {
    match r {
        Response::Pong => "pong\n"@,
        Response::ShuttingDown => "shutting down\n"@,
        Response::Applied { count } => dec(count as int) + " entr"@ + ending(count as int)
            + " applied\n"@,
        Response::Error { message: _ } => Seq::empty(),
        Response::Info(i) => info_text(*i),
        Response::Counters(s) => counters_text(*s),
        Response::Tables { tables } => schemas_text(tables@),
        Response::Entries { entries, default } => dump_text(entries@, default),
        Response::Punted { frames, remaining } => punted_text(frames@, remaining as int),
    }
}

/// What a refusal prints.
pub open spec fn refusal_text(r: Response) -> Seq<char> {
    match r {
        Response::Error { message } => "error: "@ + message@ + "\n"@,
        _ => Seq::empty(),
    }
}

/// What a reply prints: an answer, or a refusal.
#[must_use]
pub fn report(response: &Response) -> (r: Report)
    ensures
        r.out@ == answer_text(*response),
        r.err@ == refusal_text(*response),
        r.ok == !(response is Error),
{
    let none: String = String::new();
    assert(none@ =~= Seq::empty());
    match response {
        Response::Error { message } => {
            let mut err: String = "error: ".to_owned();
            err.append(message.as_str());
            err.append("\n");
            Report { out: none, err, ok: false }
        },
        Response::Pong => Report { out: "pong\n".to_owned(), err: none, ok: true },
        Response::ShuttingDown => Report { out: "shutting down\n".to_owned(), err: none, ok: true },
        Response::Applied { count } => {
            let mut out: String = String::new();
            push_dec(&mut out, *count as u64);
            out.append(" entr");
            out.append(plural(*count));
            out.append(" applied\n");
            assert(out@ =~= answer_text(*response));
            Report { out, err: none, ok: true }
        },
        Response::Info(i) => Report { out: show_info(i), err: none, ok: true },
        Response::Counters(s) => Report { out: show_counters(s), err: none, ok: true },
        Response::Tables { tables } => Report {
            out: show_schemas(tables.as_slice()),
            err: none,
            ok: true,
        },
        Response::Entries { entries, default } => Report {
            out: show_dump(entries.as_slice(), default),
            err: none,
            ok: true,
        },
        Response::Punted { frames, remaining } => Report {
            out: show_punted(frames.as_slice(), *remaining),
            err: none,
            ok: true,
        },
    }
}

proof fn lemma_same_rows(a: Seq<EntryDesc>, b: Seq<EntryDesc>, n: int)
    requires
        0 <= n <= a.len(),
        n <= b.len(),
        forall|i: int| 0 <= i < n ==> (#[trigger] a[i]) == b[i],
    ensures
        entry_rows(a, n) == entry_rows(b, n),
    decreases n,
{
    if n > 0 {
        lemma_same_rows(a, b, n - 1);
        assert(a[n - 1] == b[n - 1]);
    }
}

/// A dump is a row for each entry, in order, then the default under an
/// asterisk, and the number of entries: one more entry is one more row.
pub proof fn law_dumps_have_a_row_for_each_entry(
    entries: Seq<EntryDesc>,
    e: EntryDesc,
    default: EntryDesc,
)
    ensures
        entry_rows(entries.push(e), entries.len() as int + 1) == entry_rows(
            entries,
            entries.len() as int,
        ) + entry_row(e.key@, e) + "\n"@,
        ({
            let row = entry_row(e.key@, e);
            let key = e.key@;
            &&& row.len() >= 20
            &&& row.subrange(
                0,
                if key.len() < 20 {
                    20
                } else {
                    key.len() as int
                },
            ) == padded(key, 20)
        }),
        dump_text(Seq::empty(), default) == entry_row("*"@, default) + "   (default)\n\n"@ + "0"@
            + " entr"@ + "ies"@ + "\n"@,
        dump_text(seq![e], default) == entry_row(e.key@, e) + "\n"@ + entry_row("*"@, default)
            + "   (default)\n\n"@ + "1"@ + " entr"@ + "y"@ + "\n"@,
{
    let n = entries.len() as int;
    lemma_same_rows(entries, entries.push(e), n);
    let key = e.key@;
    let pad = padded(key, 20);
    lemma_padded(key, 20);
    let row = entry_row(key, e);
    assert(row.subrange(0, pad.len() as int) =~= pad);
    reveal_strlit("0");
    reveal_strlit("1");
    assert(dec(0) =~= "0"@);
    assert(dec(1) =~= "1"@);
    assert(dump_text(Seq::empty(), default) =~= entry_row("*"@, default) + "   (default)\n\n"@
        + "0"@ + " entr"@ + "ies"@ + "\n"@);
    reveal_with_fuel(entry_rows, 2);
    assert(seq![e][0] == e);
    assert(dump_text(seq![e], default) =~= entry_row(e.key@, e) + "\n"@ + entry_row("*"@, default)
        + "   (default)\n\n"@ + "1"@ + " entr"@ + "y"@ + "\n"@);
}

proof fn lemma_padded(s: Seq<char>, width: int)
    ensures
        padded(s, width).len() == (if s.len() >= width {
            s.len() as int
        } else {
            width
        }),
    decreases width - s.len(),
{
    if s.len() < width {
        lemma_padded(s.push(' '), width);
    }
}

/// Every answer says something, and only a refusal speaks of an error: its
/// reason, and nothing else.
pub proof fn law_answers_and_refusals_are_apart(r: Response)
    ensures
        r is Error ==> answer_text(r).len() == 0,
        r matches Response::Error { message } ==> refusal_text(r) == "error: "@ + message@ + "\n"@,
        !(r is Error) ==> refusal_text(r).len() == 0,
        r is Pong ==> answer_text(r) == "pong\n"@,
        r is ShuttingDown ==> answer_text(r) == "shutting down\n"@,
        r matches Response::Applied { count } ==> (count == 1 ==> answer_text(r) == dec(1)
            + " entr"@ + "y"@ + " applied\n"@),
        r matches Response::Applied { count } ==> (count != 1 ==> answer_text(r) == dec(
            count as int,
        ) + " entr"@ + "ies"@ + " applied\n"@),
        r matches Response::Tables { tables } ==> (tables@.len() == 0 ==> answer_text(r)
            == "this pipeline has no tables\n"@),
{
}

/// Punted frames are shown one to a line, with where and when they came in,
/// and below them how many were taken and how many still wait.
pub proof fn law_frames_are_shown_one_to_a_line(frames: Seq<PuntedFrame>, f: PuntedFrame, left: int)
    ensures
        frame_lines(frames.push(f), frames.len() as int + 1) == frame_lines(
            frames,
            frames.len() as int,
        ) + "vport "@ + dec(f.ingress_vport as int) + " @ "@ + dec(f.rx_ts_us as int) + " us  "@
            + f.frame_b64@ + "\n"@,
        ({
            let text = punted_text(frames, left);
            let tail = "\n"@ + dec(frames.len() as int) + " frame(s), "@ + dec(left)
                + " still queued\n"@;
            text.subrange(text.len() - tail.len(), text.len() as int) == tail
        }),
{
    lemma_frames_front(frames, f, frames.len() as int);
    let text = punted_text(frames, left);
    let tail = "\n"@ + dec(frames.len() as int) + " frame(s), "@ + dec(left)
        + " still queued\n"@;
    let head = frame_lines(frames, frames.len() as int);
    assert(text =~= head + tail);
    assert(text.subrange(text.len() - tail.len(), text.len() as int) =~= tail);
}

proof fn lemma_frames_front(frames: Seq<PuntedFrame>, f: PuntedFrame, n: int)
    requires
        0 <= n <= frames.len(),
    ensures
        frame_lines(frames.push(f), n) == frame_lines(frames, n),
    decreases n,
{
    if n > 0 {
        lemma_frames_front(frames, f, n - 1);
    }
}

/// Counters are shown one to a line, each value behind its name; vports each
/// under their id with their own counters; warnings and peers one to a line.
pub proof fn law_lists_are_shown_one_to_a_line(
    counters: Seq<(String, u64)>,
    c: (String, u64),
    vports: Seq<VportInfo>,
    v: VportInfo,
    warnings: Seq<String>,
    w: String,
)
    ensures
        counter_lines(counters.push(c), counters.len() as int + 1) == counter_lines(
            counters,
            counters.len() as int,
        ) + "  "@ + padded(c.0@, 24) + " "@ + dec(c.1 as int) + "\n"@,
        vport_lines(vports.push(v), vports.len() as int + 1) == vport_lines(
            vports,
            vports.len() as int,
        ) + "  "@ + padded(dec(v.id as int), 5) + " -> "@ + v.peer@ + "\n"@,
        warning_lines(warnings.push(w), warnings.len() as int + 1) == warning_lines(
            warnings,
            warnings.len() as int,
        ) + "  - "@ + w@ + "\n"@,
{
    lemma_counters_front(counters, c, counters.len() as int);
    lemma_vports_front(vports, v, vports.len() as int);
    lemma_warnings_front(warnings, w, warnings.len() as int);
}

proof fn lemma_counters_front(s: Seq<(String, u64)>, x: (String, u64), n: int)
    requires
        0 <= n <= s.len(),
    ensures
        counter_lines(s.push(x), n) == counter_lines(s, n),
    decreases n,
{
    if n > 0 {
        lemma_counters_front(s, x, n - 1);
    }
}

proof fn lemma_vports_front(s: Seq<VportInfo>, x: VportInfo, n: int)
    requires
        0 <= n <= s.len(),
    ensures
        vport_lines(s.push(x), n) == vport_lines(s, n),
    decreases n,
{
    if n > 0 {
        lemma_vports_front(s, x, n - 1);
    }
}

proof fn lemma_warnings_front(s: Seq<String>, x: String, n: int)
    requires
        0 <= n <= s.len(),
    ensures
        warning_lines(s.push(x), n) == warning_lines(s, n),
    decreases n,
{
    if n > 0 {
        lemma_warnings_front(s, x, n - 1);
    }
}

/// Lists within a line: parameters as `name=value` with spaces in between,
/// signatures as `name: kind` with commas, histogram cells as bound and count
/// with spaces. One more item is one more of these behind the others.
pub proof fn law_lists_within_a_line(
    pairs: Seq<(Seq<char>, Seq<char>)>,
    p: (Seq<char>, Seq<char>),
    sig: Seq<ParamDesc>,
    d: ParamDesc,
    buckets: Seq<Bucket>,
    b: Bucket,
)
    ensures
        ({
            let one = p.0 + "="@ + p.1;
            params_shown(pairs.push(p), pairs.len() as int + 1) == (if pairs.len() == 0 {
                one
            } else {
                params_shown(pairs, pairs.len() as int) + " "@ + one
            })
        }),
        ({
            let one = d.name@ + ": "@ + d.kind.spec_syntax();
            signature(sig.push(d), sig.len() as int + 1) == (if sig.len() == 0 {
                one
            } else {
                signature(sig, sig.len() as int) + ", "@ + one
            })
        }),
        ({
            let bound = match b.le {
                Some(le) => "<="@ + dec(le as int) + ":"@,
                None => ">64:"@,
            };
            let one = bound + dec(b.count as int);
            cells(buckets.push(b), buckets.len() as int + 1) == (if buckets.len() == 0 {
                one
            } else {
                cells(buckets, buckets.len() as int) + " "@ + one
            })
        }),
{
    lemma_params_front(pairs, p, pairs.len() as int);
    lemma_signature_front(sig, d, sig.len() as int);
    lemma_cells_front(buckets, b, buckets.len() as int);
}

proof fn lemma_params_front(
    s: Seq<(Seq<char>, Seq<char>)>,
    x: (Seq<char>, Seq<char>),
    n: int,
)
    requires
        0 <= n <= s.len(),
    ensures
        params_shown(s.push(x), n) == params_shown(s, n),
    decreases n,
{
    if n > 0 {
        lemma_params_front(s, x, n - 1);
    }
}

proof fn lemma_signature_front(s: Seq<ParamDesc>, x: ParamDesc, n: int)
    requires
        0 <= n <= s.len(),
    ensures
        signature(s.push(x), n) == signature(s, n),
    decreases n,
{
    if n > 0 {
        lemma_signature_front(s, x, n - 1);
    }
}

proof fn lemma_cells_front(s: Seq<Bucket>, x: Bucket, n: int)
    requires
        0 <= n <= s.len(),
    ensures
        cells(s.push(x), n) == cells(s, n),
    decreases n,
{
    if n > 0 {
        lemma_cells_front(s, x, n - 1);
    }
}

/// Blocks of lines: a table with its key and its actions, an action with its
/// signature, a vport with its counters, a histogram with its cells. One more
/// is one more block behind the others.
pub proof fn law_blocks_follow_each_other(
    tables: Seq<SchemaDesc>,
    t: SchemaDesc,
    actions: Seq<ActionDesc>,
    a: ActionDesc,
    vports: Seq<VportSnapshot>,
    v: VportSnapshot,
    hists: Seq<(String, HistogramSnapshot)>,
    h: (String, HistogramSnapshot),
)
    ensures
        ({
            let kind = match t.key {
                KeyKind::Exact(_) => "exact"@,
                KeyKind::Lpm(_) => "lpm"@,
            };
            schema_blocks(tables.push(t), tables.len() as int + 1) == schema_blocks(
                tables,
                tables.len() as int,
            ) + "table "@ + t.name@ + "\n  key    "@ + t.key_field@ + " : "@ + kind + "   ("@
                + t.key.spec_value_kind().spec_syntax() + ")\n"@ + action_lines(
                t.actions@,
                t.actions@.len() as int,
            )
        }),
        action_lines(actions.push(a), actions.len() as int + 1) == action_lines(
            actions,
            actions.len() as int,
        ) + "  action "@ + a.name@ + "("@ + signature(a.params@, a.params@.len() as int)
            + ")\n"@,
        vport_blocks(vports.push(v), vports.len() as int + 1) == vport_blocks(
            vports,
            vports.len() as int,
        ) + "vport "@ + dec(v.id as int) + "\n"@ + counter_lines(
            v.counters@,
            v.counters@.len() as int,
        ),
        hist_lines(hists.push(h), hists.len() as int + 1) == hist_lines(hists, hists.len() as int)
            + padded(h.0@, 24) + " "@ + cells(h.1.buckets@, h.1.buckets@.len() as int) + "\n"@,
{
    lemma_schemas_front(tables, t, tables.len() as int);
    lemma_actions_front(actions, a, actions.len() as int);
    lemma_blocks_front(vports, v, vports.len() as int);
    lemma_hists_front(hists, h, hists.len() as int);
}

proof fn lemma_schemas_front(s: Seq<SchemaDesc>, x: SchemaDesc, n: int)
    requires
        0 <= n <= s.len(),
    ensures
        schema_blocks(s.push(x), n) == schema_blocks(s, n),
    decreases n,
{
    if n > 0 {
        lemma_schemas_front(s, x, n - 1);
    }
}

proof fn lemma_actions_front(s: Seq<ActionDesc>, x: ActionDesc, n: int)
    requires
        0 <= n <= s.len(),
    ensures
        action_lines(s.push(x), n) == action_lines(s, n),
    decreases n,
{
    if n > 0 {
        lemma_actions_front(s, x, n - 1);
    }
}

proof fn lemma_blocks_front(s: Seq<VportSnapshot>, x: VportSnapshot, n: int)
    requires
        0 <= n <= s.len(),
    ensures
        vport_blocks(s.push(x), n) == vport_blocks(s, n),
    decreases n,
{
    if n > 0 {
        lemma_blocks_front(s, x, n - 1);
    }
}

proof fn lemma_hists_front(
    s: Seq<(String, HistogramSnapshot)>,
    x: (String, HistogramSnapshot),
    n: int,
)
    requires
        0 <= n <= s.len(),
    ensures
        hist_lines(s.push(x), n) == hist_lines(s, n),
    decreases n,
{
    if n > 0 {
        lemma_hists_front(s, x, n - 1);
    }
}

/// What a snapshot is shown as: the node and the time, its counters, the
/// harness's loss below them, then vports and histograms.
pub proof fn law_snapshots_are_shown_whole(s: Snapshot)
    ensures
        counters_text(s) == "node "@ + s.node@ + " @ "@ + dec(s.ts_us as int) + " us\n"@
            + counter_lines(s.counters@, s.counters@.len() as int) + "  "@ + padded(
            "harness_drops (sum)"@,
            24,
        ) + " "@ + dec(s.harness_drops as int) + "\n"@ + vport_blocks(
            s.vports@,
            s.vports@.len() as int,
        ) + hist_lines(s.histograms@, s.histograms@.len() as int),
        answer_text(Response::Counters(Box::new(s))) == counters_text(s),
{
}

} // verus!
