//! The pipeline layer.
//!
//! The harness makes no forwarding decisions. Everything about *where a frame
//! goes* lives behind two small contracts:
//!
//! * [`Engine`]: one per shard, invoked per frame, returns a [`Verdict`].
//!   Frames are modified in place through a [`FrameCtx`].
//! * [`Pipeline`]: the control-plane-facing half. It owns the tables and mints
//!   engines for shards.
use crate::frame::FrameCtx;
use crate::ops::TableOps;
use vstd::prelude::*;

verus! {

/// What a pipeline decided about a frame.
///
/// Closed: the harness matches exhaustively, and each arm maps to exactly one
/// dispatch path and one counter.
#[derive(Clone, Copy, Debug, PartialEq, Eq, Structural)]
pub enum Verdict {
    /// Send on this vport id. The harness resolves the id; an id that is not
    /// configured is a harness drop, not a pipeline drop.
    Forward(u16),
    /// Send on every vport except the ingress one.
    Broadcast,
    /// Deliver to the control channel.
    Punt,
    /// Discard. This is a *pipeline decision* and counts as an engine drop.
    Drop,
}

/// The bytes of a frame, as contracts speak of them.
pub type FrameBytes = Seq<u8>;

/// A pipeline's name, as contracts speak of it.
pub type NameText = Seq<char>;

/// A per-shard packet processor for the program `P`.
///
/// One instance per shard, so an engine may hold per-thread state without
/// synchronization; shared table state stays with the program.
pub trait Engine<P: TableOps> {
    /// What the engine remembers of `program` is what `program` published.
    spec fn follows(&self, program: &P) -> bool;

    /// What `program` does with a frame from `ingress`: the verdict, and the
    /// frame afterwards.
    spec fn decision(program: &P, ingress: u16, frame: FrameBytes) -> (Verdict, FrameBytes);

    /// Process one frame in place and decide its fate.
    fn process(&mut self, program: &P, f: &mut FrameCtx<'_>) -> (v: Verdict)
        requires
            program.inv(),
            old(self).follows(program),
            old(f).wf(),
        ensures
            final(self).follows(program),
            final(self).program_name() == old(self).program_name(),
            final(f).wf(),
            (v, final(f).bytes()) == Self::decision(
                program,
                old(f).ingress_vport,
                old(f).bytes(),
            ),
            final(f).slot().len() == old(f).slot().len(),
            final(f).ingress_vport == old(f).ingress_vport,
            final(f).rx_ts_us == old(f).rx_ts_us,
            final(final(f).buf)@ == final(old(f).buf)@,
    ;

    /// The name of the pipeline this engine came from.
    spec fn program_name(&self) -> NameText;

    /// The pipeline name this engine came from.
    fn name(&self) -> (r: &'static str)
        ensures
            r@ == self.program_name(),
    ;
}

/// The shared half of a loaded pipeline: tables plus an engine factory.
pub trait Pipeline: TableOps + Sized {
    /// The engines it mints.
    type Engine: Engine<Self>;

    /// Program name, as registered.
    fn name(&self) -> (r: &'static str)
        ensures
            r@ == self.surface().owner,
    ;

    /// Mint an engine for one shard. Engines share this pipeline's tables.
    fn engine(&self) -> (r: Self::Engine)
        requires
            self.inv(),
        ensures
            r.follows(self),
            r.program_name() == self.surface().owner,
    ;

    /// An engine goes on following the pipeline that it came from.
    proof fn lemma_engines_follow(before: &Self, after: &Self, engine: &Self::Engine)
        requires
            after.continues(before),
            engine.follows(before),
        ensures
            engine.follows(after),
    ;
}

/// A control-plane change is visible to a running engine: an engine that was
/// minted before a write decides the next frame by the tables after it, as one
/// minted then would, and needs nothing done to it.
pub proof fn law_changes_reach_running_engines<P: Pipeline>(
    before: P,
    after: P,
    engine: P::Engine,
)
    requires
        after.continues(&before),
        engine.follows(&before),
    ensures
        engine.follows(&after),
{
    P::lemma_engines_follow(&before, &after, &engine);
}

/// What a pipeline needs to know about the node it is loaded into.
///
/// Deliberately tiny: a pipeline may size a static port map from the topology,
/// but it learns nothing that would let it depend on the harness's behaviour.
#[derive(Clone, Debug)]
pub struct PipelineParams {
    /// Configured vport ids, in configuration order.
    pub vports: Vec<u16>,
}

impl PipelineParams {
    /// Parameters for a node with these vports.
    #[must_use]
    pub fn new(vports: Vec<u16>) -> (r: Self)
        ensures
            r.vports@ == vports@,
    {
        PipelineParams { vports }
    }
}

} // verus!
