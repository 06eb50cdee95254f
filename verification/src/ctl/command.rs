//! The operator's side of the control channel: every command is one request.
use crate::ctl::protocol::{
    params_of_args, punted_models, spec_models, EntrySpec, EntrySpecModel, Params, PuntedFrame,
    PuntedModel, Request, Response,
};
use crate::ctl::server::{
    default_set, entry_added, entry_removed, law_a_batch_of_one, punt_after, surface_after,
};
use crate::ops::SurfaceModel;
use crate::shard::PuntState;
use crate::text::texts;
use vstd::prelude::*;

verus! {

/// What an operator can ask for, as typed.
#[derive(Clone, Debug)]
pub enum Command {
    /// Check that the node is alive.
    Ping,
    /// Show build, pipeline, topology, and startup probe.
    Info,
    /// Snapshot every counter.
    Counters,
    /// Show each table's key and actions.
    Tables,
    /// Stop the node gracefully.
    Shutdown,
    /// Take punted frames from the queue.
    Punt {
        /// Frames to take.
        max: usize,
    },
    /// List installed entries and the default action.
    Dump {
        /// Table name.
        table: String,
    },
    /// Install or replace one entry.
    Add {
        /// Table name.
        table: String,
        /// Key, in the table's syntax.
        key: String,
        /// Action name.
        action: String,
        /// Action parameters, positional or `name=value`.
        params: Vec<String>,
    },
    /// Remove one entry.
    Del {
        /// Table name.
        table: String,
        /// Key to remove.
        key: String,
    },
    /// Replace the action taken when nothing matches.
    SetDefault {
        /// Table name.
        table: String,
        /// Action name.
        action: String,
        /// Action parameters, positional or `name=value`.
        params: Vec<String>,
    },
    /// Remove every entry from a table.
    Clear {
        /// Table name.
        table: String,
    },
    /// Install a batch of entries.
    Load {
        /// The entries.
        entries: Vec<EntrySpec>,
    },
}

/// Whether `r` is the request that `c` makes.
pub open spec fn requests(c: Command, r: Request) -> bool {
    match c {
        Command::Ping => r is Ping,
        Command::Info => r is Info,
        Command::Counters => r is Counters,
        Command::Tables => r is Tables,
        Command::Shutdown => r is Shutdown,
        Command::Punt { max } => r == (Request::PuntDrain { max }),
        Command::Dump { table } => r == (Request::TableDump { table }),
        Command::Add { table, key, action, params } => r matches Request::TableAdd { entries }
            && entries@.len() == 1 && entries@[0].table == table && entries@[0].key == key
            && entries@[0].action == action && entries@[0].params@ == params_of_args(
            texts(params@),
        ),
        Command::Del { table, key } => r == (Request::TableDel { table, key }),
        Command::SetDefault { table, action, params } => r matches Request::TableSetDefault {
            table: t,
            action: a,
            params: p,
        } && t == table && a == action && p@ == params_of_args(texts(params@)),
        Command::Clear { table } => r == (Request::TableClear { table }),
        Command::Load { entries } => r == (Request::TableAdd { entries }),
    }
}

/// The request that a command makes.
#[must_use]
pub fn request(command: Command) -> (r: Request)
    ensures
        requests(command, r),
        !(command is Load) ==> r.wf(),
{
    match command {
        Command::Ping => Request::Ping,
        Command::Info => Request::Info,
        Command::Counters => Request::Counters,
        Command::Tables => Request::Tables,
        Command::Shutdown => Request::Shutdown,
        Command::Punt { max } => Request::PuntDrain { max },
        Command::Dump { table } => Request::TableDump { table },
        Command::Add { table, key, action, params } => {
            let params: Params = Params::from_args(params.as_slice());
            let entries: Vec<EntrySpec> = vec![EntrySpec { table, key, action, params }];
            Request::TableAdd { entries }
        },
        Command::Del { table, key } => Request::TableDel { table, key },
        Command::SetDefault { table, action, params } => {
            let params: Params = Params::from_args(params.as_slice());
            Request::TableSetDefault { table, action, params }
        },
        Command::Clear { table } => Request::TableClear { table },
        Command::Load { entries } => Request::TableAdd { entries },
    }
}

/// Draining the punt queue, once or until it is empty.
#[derive(Debug)]
pub struct Drain {
    all: bool,
    frames: Vec<PuntedFrame>,
}

impl Drain {
    /// The frames taken so far.
    pub closed spec fn taken(&self) -> Seq<PuntedModel> {
        punted_models(self.frames@)
    }

    /// Whether to go on until the queue is empty.
    pub closed spec fn repeats(&self) -> bool {
        self.all
    }

    /// Nothing taken yet.
    #[must_use]
    pub fn new(all: bool) -> (r: Self)
        ensures
            r.taken() == Seq::<PuntedModel>::empty(),
            r.repeats() == all,
    {
        let r = Drain { all, frames: Vec::new() };
        assert(r.taken() =~= Seq::<PuntedModel>::empty());
        r
    }

    /// Take in a reply. What comes back is to be reported; `None` means to ask
    /// again.
    pub fn step(&mut self, response: Response) -> (r: Option<Response>)
        ensures
            final(self).repeats() == old(self).repeats(),
            match response {
                Response::Punted { frames, remaining } => {
                    let all = old(self).taken() + punted_models(frames@);
                    let done = frames@.len() == 0 || !old(self).repeats() || remaining == 0;
                    &&& r is Some <==> done
                    &&& r matches Some(x) ==> x matches Response::Punted {
                        frames: f,
                        remaining: left,
                    } && punted_models(f@) == all && left == remaining
                    &&& r is None ==> final(self).taken() == all
                },
                other => r == Some(other) && final(self).taken() == old(self).taken(),
            },
    {
        match response {
            Response::Punted { frames, remaining } => {
                let done: bool = frames.len() == 0 || !self.all || remaining == 0;
                let mut more: Vec<PuntedFrame> = frames;
                let ghost before = self.frames@;
                let ghost added = more@;
                self.frames.append(&mut more);
                assert(punted_models(self.frames@) =~= punted_models(before) + punted_models(added));
                if done {
                    let mut all: Vec<PuntedFrame> = Vec::new();
                    core::mem::swap(&mut all, &mut self.frames);
                    Some(Response::Punted { frames: all, remaining })
                } else {
                    None
                }
            },
            other => Some(other),
        }
    }
}

/// A command does what it says: adding, removing, setting the default and
/// clearing make of the tables what the operation makes of them with the
/// arguments as given, a drain asks for as many frames as given, and every
/// other command leaves both alone.
pub proof fn law_commands_do_what_they_say(
    c: Command,
    r: Request,
    surface: SurfaceModel,
    punt: Option<PuntState>,
)
    requires
        requests(c, r),
    ensures
        c matches Command::Add { table, key, action, params } ==> surface_after(surface, r)
            == surface.after(
            entry_added(
                surface,
                EntrySpecModel {
                    table: table@,
                    key: key@,
                    action: action@,
                    params: params_of_args(texts(params@)),
                },
            ),
        ),
        c matches Command::Del { table, key } ==> surface_after(surface, r) == surface.after(
            entry_removed(surface, table@, key@),
        ),
        c matches Command::SetDefault { table, action, params } ==> surface_after(surface, r)
            == surface.after(
            default_set(surface, table@, action@, params_of_args(texts(params@))),
        ),
        c matches Command::Clear { table } ==> surface_after(surface, r) == surface.after(
            surface.cleared(table@),
        ),
        c is Ping || c is Info || c is Counters || c is Tables || c is Dump || c is Punt
            || c is Shutdown ==> surface_after(surface, r) == surface,
        c matches Command::Punt { max } ==> r is PuntDrain && r->max == max,
        !(c is Punt) ==> punt_after(punt, r) == punt,
        c is Shutdown <==> r is Shutdown,
        c is Ping <==> r is Ping,
        c is Info <==> r is Info,
        c is Counters <==> r is Counters,
        c is Tables <==> r is Tables,
        c matches Command::Dump { table } ==> r is TableDump && r->TableDump_table == table,
{
    if let Command::Add { table, key, action, params } = c {
        let e = EntrySpecModel {
            table: table@,
            key: key@,
            action: action@,
            params: params_of_args(texts(params@)),
        };
        let entries = r->entries;
        assert(spec_models(entries@) =~= seq![e]);
        law_a_batch_of_one(surface, e);
    }
}

} // verus!
