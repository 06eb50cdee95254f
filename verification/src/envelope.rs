//! The envelope around a program: what the switch does before the program sees
//! a frame, and what it does to a frame the program decided to send.
//!
//! ```text
//!     switch(program) = admission(program) ; p4(program) ; scrub(program)
//! ```
//!
//! A parser rejects for exactly one reason: it ran out of bytes. It never
//! checks that the bytes it took agree with each other, so "the IPv4 header
//! does not contradict itself" is checked here. At the other end, the checksums
//! inside a frame that was modified are zero-filled: the transport checksum
//! lives in bytes the program never parses.
//!
//! Every backend computes the same composition. The native rendering fuses
//! both ends into its own code, and [`law_fusion_is_sound`] shows that this
//! changes nothing; the compiled backends, whose programs are opaque, compose
//! them explicitly through [`Enveloped`].
use crate::engine::{Engine, Pipeline, Verdict};
use crate::frame::FrameCtx;
use crate::headers::{
    inner_ipv4, without_checksums, zero_inner_checksums, Ethernet, Ipv4, ETHERTYPE_IPV4,
    ETH_HDR_LEN,
};
use crate::ops::{SurfaceModel, TableModel, TableOps};
use crate::programs::l3fwd::routed_frame;
use crate::shim::{EntryDesc, TableError, TableSchema, TypedKey};
use crate::value::TypedVal;
use vstd::prelude::*;

verus! {

/// What a program refuses at ingress, before its parser runs.
#[derive(Clone, Copy, Debug, PartialEq, Eq, Structural)]
pub enum Admission {
    /// Nothing is refused here; the program's own parser is the only gate.
    ///
    /// A bridge forwards on MAC addresses and has no opinion about the
    /// payload.
    Everything,
    /// A frame announcing IPv4 must carry an IPv4 header that does not
    /// contradict itself: version 4, and a header length that is at least the
    /// legal minimum and lies inside the captured bytes.
    ///
    /// Frames that are not IPv4 pass through untouched: refusing them is the
    /// program's job, not this one's.
    CoherentIpv4,
}

/// What the switch does to a frame the program decided to send.
#[derive(Clone, Copy, Debug, PartialEq, Eq, Structural)]
pub enum Scrub {
    /// Nothing: a program that modifies no header leaves every checksum as it
    /// found it.
    Nothing,
    /// Zero the IPv4 header checksum and the transport checksum it contains.
    InnerChecksums,
}

impl Scrub {
    /// The frame after this was applied.
    pub open spec fn applied(self, frame: Seq<u8>) -> Seq<u8> {
        match self {
            Scrub::Nothing => frame,
            Scrub::InnerChecksums => without_checksums(frame),
        }
    }

    /// Apply this to a frame on its way out.
    pub fn apply(self, frame: &mut [u8])
        ensures
            final(frame)@ == self.applied(old(frame)@),
    {
        match self {
            Scrub::Nothing => {},
            Scrub::InnerChecksums => zero_inner_checksums(frame),
        }
    }
}

impl Admission {
    /// Whether `frame` may reach the program.
    pub open spec fn admitted(self, frame: Seq<u8>) -> bool {
        match self {
            Admission::Everything => true,
            Admission::CoherentIpv4 => match Ethernet::parsed(frame) {
                Some(eth) if eth.ethertype == ETHERTYPE_IPV4 => Ipv4::parsed(
                    frame,
                    ETH_HDR_LEN as int,
                ) is Some,
                _ => true,
            },
        }
    }

    /// Whether `frame` may reach the program.
    #[must_use]
    pub fn admits(self, frame: &[u8]) -> (r: bool)
        ensures
            r == self.admitted(frame@),
    {
        match self {
            Admission::Everything => true,
            Admission::CoherentIpv4 => match Ethernet::parse(frame) {
                Some(eth) => if eth.ethertype == ETHERTYPE_IPV4 {
                    Ipv4::parse(frame, ETH_HDR_LEN).is_some()
                } else {
                    true
                },
                None => true,
            },
        }
    }
}

/// A program's envelope: what runs before it, and what runs after it.
#[derive(Clone, Copy, Debug, PartialEq, Eq, Structural)]
pub struct Envelope {
    /// Applied to every arriving frame.
    pub admission: Admission,
    /// Applied to every frame the program decided to send.
    pub scrub: Scrub,
}

/// Whether a verdict sends the frame out.
pub open spec fn goes_out(v: Verdict) -> bool {
    v is Forward || v is Broadcast
}

impl Envelope {
    /// The envelope that does nothing at either end.
    pub open spec fn spec_identity() -> Envelope {
        Envelope { admission: Admission::Everything, scrub: Scrub::Nothing }
    }

    /// The envelope that does nothing at either end.
    #[must_use]
    pub fn identity() -> (r: Self)
        ensures
            r == Envelope::spec_identity(),
    {
        Envelope { admission: Admission::Everything, scrub: Scrub::Nothing }
    }

    /// What the envelope makes of `inner`, a program's decision on `frame`.
    pub open spec fn composed(self, frame: Seq<u8>, inner: (Verdict, Seq<u8>)) -> (
        Verdict,
        Seq<u8>,
    ) {
        if !self.admission.admitted(frame) {
            (Verdict::Drop, frame)
        } else if goes_out(inner.0) {
            (inner.0, self.scrub.applied(inner.1))
        } else {
            inner
        }
    }

    /// Wrap `inner` so it computes `admission ; inner ; scrub`.
    #[must_use]
    pub fn wrap<P: Pipeline>(self, inner: P) -> (r: Enveloped<P>)
        ensures
            r.envelope == self,
            r.inner == inner,
    {
        Enveloped { envelope: self, inner }
    }
}

/// A pipeline with an [`Envelope`] around it.
///
/// Delegates its whole control-plane surface: an envelope changes which frames
/// reach the tables and what leaves afterwards, never what the tables are, so
/// an operator cannot tell a wrapped pipeline from an unwrapped one.
#[derive(Debug)]
pub struct Enveloped<P> {
    /// What is composed around the program.
    pub envelope: Envelope,
    /// The program.
    pub inner: P,
}

impl<P: Pipeline> TableOps for Enveloped<P> {
    open spec fn inv(&self) -> bool {
        self.inner.inv()
    }

    open spec fn surface(&self) -> SurfaceModel {
        self.inner.surface()
    }

    open spec fn generation(&self) -> u64 {
        self.inner.generation()
    }

    open spec fn same_program(&self, before: &Self) -> bool {
        self.envelope == before.envelope && self.inner.same_program(&before.inner)
    }

    open spec fn continues(&self, before: &Self) -> bool {
        self.envelope == before.envelope && self.inner.continues(&before.inner)
    }

    proof fn lemma_continues(a: &Self, b: &Self, c: &Self) {
        P::lemma_continues(&a.inner, &b.inner, &c.inner);
    }

    fn schemas(&self) -> (r: &'static [TableSchema]) {
        self.inner.schemas()
    }

    fn table_add(&mut self, table: &str, key: TypedKey, action: &str, params: &[TypedVal]) -> (r:
        Result<(), TableError>) {
        self.inner.table_add(table, key, action, params)
    }

    fn table_remove(&mut self, table: &str, key: TypedKey) -> (r: Result<(), TableError>) {
        self.inner.table_remove(table, key)
    }

    fn table_dump(&self, table: &str) -> (r: Result<Vec<EntryDesc>, TableError>) {
        self.inner.table_dump(table)
    }

    fn table_default(&self, table: &str) -> (r: Result<EntryDesc, TableError>) {
        self.inner.table_default(table)
    }

    fn table_set_default(&mut self, table: &str, action: &str, params: &[TypedVal]) -> (r: Result<
        (),
        TableError,
    >) {
        self.inner.table_set_default(table, action, params)
    }

    fn table_clear(&mut self, table: &str) -> (r: Result<usize, TableError>) {
        self.inner.table_clear(table)
    }
}

impl<P: Pipeline> Pipeline for Enveloped<P> {
    type Engine = EnvelopedEngine<P::Engine>;

    fn name(&self) -> (r: &'static str) {
        self.inner.name()
    }

    fn engine(&self) -> (r: EnvelopedEngine<P::Engine>) {
        EnvelopedEngine { inner: self.inner.engine() }
    }

    proof fn lemma_engines_follow(
        before: &Self,
        after: &Self,
        engine: &EnvelopedEngine<P::Engine>,
    ) {
        P::lemma_engines_follow(&before.inner, &after.inner, &engine.inner);
    }
}

/// One shard's view of an [`Enveloped`] pipeline.
#[derive(Debug)]
pub struct EnvelopedEngine<E> {
    /// The program's own engine.
    pub inner: E,
}

impl<P: Pipeline, E: Engine<P>> Engine<Enveloped<P>> for EnvelopedEngine<E> {
    open spec fn follows(&self, program: &Enveloped<P>) -> bool {
        self.inner.follows(&program.inner)
    }

    open spec fn decision(program: &Enveloped<P>, ingress: u16, frame: Seq<u8>) -> (
        Verdict,
        Seq<u8>,
    ) {
        program.envelope.composed(frame, E::decision(&program.inner, ingress, frame))
    }

    fn process(&mut self, program: &Enveloped<P>, f: &mut FrameCtx<'_>) -> (v: Verdict) {
        if !program.envelope.admission.admits(f.frame()) {
            return Verdict::Drop;
        }
        let verdict: Verdict = self.inner.process(&program.inner, f);
        let out: bool = match verdict {
            Verdict::Forward(_) => true,
            Verdict::Broadcast => true,
            _ => false,
        };
        if out {
            program.envelope.scrub.apply(f.frame_mut());
        }
        verdict
    }

    open spec fn program_name(&self) -> Seq<char> {
        self.inner.program_name()
    }

    fn name(&self) -> (r: &'static str) {
        self.inner.name()
    }
}

/// Composing with the identity is the identity.
pub proof fn law_identity_envelope(frame: Seq<u8>, inner: (Verdict, Seq<u8>))
    ensures
        Envelope::spec_identity().composed(frame, inner) == inner,
{
}

/// On every frame that announces IPv4, admission and the router's own parser
/// agree exactly; every other frame is admitted.
pub proof fn law_admission_is_the_parser(frame: Seq<u8>)
    ensures
        Admission::CoherentIpv4.admitted(frame) == (inner_ipv4(frame) is Some || !(
        Ethernet::parsed(frame) matches Some(eth) && eth.ethertype == ETHERTYPE_IPV4)),
{
}

/// The native router may leave its envelope out: it has fused both ends, so
/// composing them around it changes neither a verdict nor a byte.
pub proof fn law_fusion_is_sound(table: TableModel, frame: Seq<u8>)
    ensures
        (Envelope { admission: Admission::CoherentIpv4, scrub: Scrub::InnerChecksums }).composed(
            frame,
            routed_frame(table, frame),
        ) == routed_frame(table, frame),
{
    let aged = |ttl: u8| frame.update(ETH_HDR_LEN + 8, (ttl - 1) as u8);
    if let Some(ip) = inner_ipv4(frame) {
        let call = crate::programs::l3fwd::routed(
            table.entries,
            table.default,
            ip.dst.bits,
            32,
        );
        if call.action == 0 {
            if let (TypedVal::U16(_), TypedVal::Mac(dmac)) = (call.params[0], call.params[1]) {
                crate::headers::law_masking_is_idempotent(Ethernet::with_dst(aged(ip.ttl), dmac));
            }
        }
    }
}

/// Wrapping never changes what a program decides to send: the verdict of an
/// admitted frame is the program's own, and a refused frame is dropped as it
/// came.
pub proof fn law_envelope_keeps_verdicts(
    envelope: Envelope,
    frame: Seq<u8>,
    inner: (Verdict, Seq<u8>),
)
    ensures
        envelope.admission.admitted(frame) ==> envelope.composed(frame, inner).0 == inner.0,
        !envelope.admission.admitted(frame) ==> envelope.composed(frame, inner) == (
            Verdict::Drop,
            frame,
        ),
{
}

/// An envelope constrains which frames reach the tables, never what the tables
/// are: the control plane cannot tell a wrapped pipeline from a bare one.
pub proof fn law_envelope_keeps_tables<P: Pipeline>(wrapped: Enveloped<P>)
    ensures
        wrapped.surface() == wrapped.inner.surface(),
{
}

/// Which frames a program that wants coherent IPv4 is shown: a frame that
/// announces IPv4 needs a whole header of version 4, and any other frame is
/// shown as it is.
pub proof fn law_admission_byte_by_byte(frame: Seq<u8>)
    ensures
        Admission::Everything.admitted(frame),
        ({
            let announced = frame.len() >= 14 && frame[12] == 0x08 && frame[13] == 0x00;
            let whole = frame.len() >= 34 && frame[14] / 16 == 4 && frame[14] % 16 >= 5 && 14 + (
            frame[14] % 16) * 4 <= frame.len();
            Admission::CoherentIpv4.admitted(frame) <==> (announced ==> whole)
        }),
{
}

/// What leaves a wrapped program: a frame that is sent out or flooded is
/// scrubbed, one that is punted or dropped is left as the program left it.
pub proof fn law_only_departing_frames_are_scrubbed(
    envelope: Envelope,
    frame: Seq<u8>,
    inner: (Verdict, Seq<u8>),
)
    requires
        envelope.admission.admitted(frame),
    ensures
        ({
            let out = envelope.composed(frame, inner);
            &&& out.0 == inner.0
            &&& inner.0 is Forward || inner.0 is Broadcast ==> out.1 == envelope.scrub.applied(
                inner.1,
            )
            &&& inner.0 is Punt || inner.0 is Drop ==> out.1 == inner.1
            &&& Scrub::Nothing.applied(inner.1) == inner.1
            &&& Scrub::InnerChecksums.applied(inner.1) == without_checksums(inner.1)
        }),
{
}

/// A wrapped engine decides as its program does, within the envelope: a frame
/// that is not admitted is dropped untouched, and the program is asked about
/// the vport that the frame came from.
pub proof fn law_wrapped_engines_decide_as_their_program<P: Pipeline>(
    program: &Enveloped<P>,
    ingress: u16,
    frame: Seq<u8>,
)
    ensures
        ({
            let inner = <P::Engine as Engine<P>>::decision(&program.inner, ingress, frame);
            let out = <EnvelopedEngine<P::Engine> as Engine<Enveloped<P>>>::decision(
                program,
                ingress,
                frame,
            );
            let admitted = program.envelope.admission.admitted(frame);
            &&& !admitted ==> out == (Verdict::Drop, frame)
            &&& admitted ==> out.0 == inner.0
            &&& admitted && program.envelope.scrub == Scrub::Nothing ==> out.1 == inner.1
            &&& admitted && !(inner.0 is Forward) && !(inner.0 is Broadcast) ==> out.1 == inner.1
            &&& admitted && program.envelope.scrub == Scrub::InnerChecksums && (inner.0 is Forward
                || inner.0 is Broadcast) ==> out.1 == without_checksums(inner.1)
        }),
{
}

} // verus!
