//! What surrounds one execution of a loaded program: the code it runs, the
//! metadata and the packet it starts with, the host's answers to its calls,
//! and what the result means.
//!
//! # Getting the program its two arguments
//!
//! The program's entry point wants two *pointer* registers, the context and
//! the metadata. The machine gives it one, the address of a buffer, and
//! expects it to load what it needs from there. So the host supplies a buffer
//! that holds the two pointers and prepends a two-instruction prologue that
//! moves them into place:
//!
//! ```text
//! ldxdw r2, [r1 + 8]   ; the metadata
//! ldxdw r1, [r1 + 0]   ; the context
//! ```
//!
//! Order matters: `r1` is the buffer until the second instruction overwrites
//! it. Prepending is safe because jumps and calls are relative to their own
//! position, and relocations were applied before this.
//!
//! # Where the packet lives
//!
//! The context is never dereferenced by the program: it asks the host for the
//! packet's address. So the host passes a token, which keeps frame ownership
//! on its own side.
use crate::bytes::{le32, le_bytes, lemma_le_bytes_len, read_le32, to_le_bytes};
use crate::text::{dec, push_dec};
use crate::ubpf::elf::Program;
use crate::ubpf::meta;
use crate::ubpf::table::{overlaid, overlay, zeroed, zeros, ImageTable, Table};
use vstd::prelude::*;

verus! {

/// The largest value image a lookup can return.
pub const ARENA: usize = 64;

/// What the metadata's output port holds until the program sets it. A parser
/// rejection returns the same code as a pass and leaves the port untouched, so
/// a result is a decision only where the port is another.
pub const NO_PORT: u32 = 0xffff_ffff;

/// The number of the helper that looks a key up in a map.
pub const MAP_LOOKUP: u32 = 1;

/// The number of the helper that replaces a map's entry.
pub const MAP_UPDATE: u32 = 2;

/// The number of the helper that removes a map's entry.
pub const MAP_DELETE: u32 = 3;

/// The number of the helper that adds to a map.
pub const MAP_ADD: u32 = 4;

/// The number of the helper that reads the clock.
pub const TIME_GET_NS: u32 = 5;

/// The number of the helper that hashes.
pub const HASH: u32 = 6;

/// The number of the helper that prints.
pub const PRINTF: u32 = 7;

/// The number of the helper that grows or shrinks the packet's headroom.
pub const ADJUST_HEAD: u32 = 8;

/// The number of the helper that gives the packet's address.
pub const PACKET_DATA: u32 = 9;

/// The number of the helper that truncates the packet.
pub const TRUNCATE_PACKET: u32 = 11;

/// What a call of a helper is refused with, for the helpers that a program may
/// call but the host does not implement.
///
/// The control plane owns table contents, so the data plane must not mutate
/// them. Answering zero silently would let a program mis-forward; a refusal
/// turns the frame into a drop with a reason instead.
#[must_use]
pub fn refusal(helper: u32) -> (r: Option<&'static str>)
    ensures
        (match r {
            Some(what) => Some(what@),
            None => None,
        }) == (if helper == MAP_UPDATE {
            Some("ubpf_map_update from the data plane"@)
        } else if helper == MAP_DELETE {
            Some("ubpf_map_delete from the data plane"@)
        } else if helper == MAP_ADD {
            Some("ubpf_map_add from the data plane"@)
        } else if helper == TIME_GET_NS {
            Some("ubpf_time_get_ns"@)
        } else if helper == HASH {
            Some("ubpf_hash"@)
        } else if helper == PRINTF {
            Some("ubpf_printf"@)
        } else if helper == TRUNCATE_PACKET {
            Some("ubpf_truncate_packet"@)
        } else {
            None
        }),
{
    if helper == MAP_UPDATE {
        Some("ubpf_map_update from the data plane")
    } else if helper == MAP_DELETE {
        Some("ubpf_map_delete from the data plane")
    } else if helper == MAP_ADD {
        Some("ubpf_map_add from the data plane")
    } else if helper == TIME_GET_NS {
        Some("ubpf_time_get_ns")
    } else if helper == HASH {
        Some("ubpf_hash")
    } else if helper == PRINTF {
        Some("ubpf_printf")
    } else if helper == TRUNCATE_PACKET {
        Some("ubpf_truncate_packet")
    } else {
        None
    }
}

/// What adjusting the headroom by `delta` is refused with.
///
/// A deparser calls this before emitting. A program that emits exactly the
/// headers it parsed asks for no change, and the packet keeps its address. Any
/// other change would mean encapsulation, which the frame layout does not
/// offer from inside the machine.
#[must_use]
pub fn adjust_head(delta: u64) -> (r: Option<&'static str>)
    ensures
        r is Some <==> delta != 0,
        r is Some ==> r->0@ == "ubpf_adjust_head with a non-zero delta (encapsulation)"@,
{
    if delta != 0 {
        Some("ubpf_adjust_head with a non-zero delta (encapsulation)")
    } else {
        None
    }
}

/// The host's answer to a lookup.
#[derive(Debug, PartialEq, Eq)]
pub enum Answer {
    /// The map has this value for the key.
    Value(Vec<u8>),
    /// The map has none. This must reach the program as a null pointer: it is
    /// how the program knows to consult the table's default-action map.
    Nothing,
    /// The question makes no sense.
    Refused(&'static str),
}

/// An [`Answer`] with its value as bytes and its text as characters.
#[verifier::ext_equal]
pub enum AnswerModel {
    Value(Seq<u8>),
    Nothing,
    Refused(Seq<char>),
}

impl View for Answer {
    type V = AnswerModel;

    open spec fn view(&self) -> AnswerModel {
        match *self {
            Answer::Value(v) => AnswerModel::Value(v@),
            Answer::Nothing => AnswerModel::Nothing,
            Answer::Refused(what) => AnswerModel::Refused(what@),
        }
    }
}

/// The views of `v`.
pub open spec fn table_models(v: Seq<Table>) -> Seq<ImageTable> {
    Seq::new(v.len(), |i: int| v[i]@)
}

/// Every table of `v` is in order.
pub open spec fn tables_wf(v: Seq<Table>) -> bool {
    forall|i: int| 0 <= i < v.len() ==> (#[trigger] v[i]).wf()
}

/// What a lookup of `key` in map number `map` answers.
pub open spec fn answered(tables: Seq<ImageTable>, map: int, key: Seq<u8>) -> AnswerModel {
    if map >= tables.len() {
        AnswerModel::Refused("lookup named a map index the host does not have"@)
    } else if key.len() != tables[map].layout.key {
        AnswerModel::Refused("could not read a lookup key of the declared width"@)
    } else {
        match tables[map].answer(key) {
            Some(v) => AnswerModel::Value(
                v.subrange(
                    0,
                    if v.len() < ARENA {
                        v.len() as int
                    } else {
                        ARENA as int
                    },
                ),
            ),
            None => AnswerModel::Nothing,
        }
    }
}

/// The width of the keys of map number `map`.
#[must_use]
pub fn key_width(tables: &[Table], map: u64) -> (r: Option<usize>)
    ensures
        r == (if map < tables@.len() {
            Some(tables@[map as int]@.layout.key)
        } else {
            None
        }),
{
    if map < tables.len() as u64 {
        Some(tables[map as usize].layout().key)
    } else {
        None
    }
}

/// Whether a key of `len` bytes may be read from `address`.
#[must_use]
pub fn readable(address: u64, len: usize) -> (r: bool)
    ensures
        r == (address != 0 && 0 < len <= ARENA),
{
    address != 0 && len != 0 && len <= ARENA
}

/// Look `key` up in map number `map`.
#[must_use]
pub fn map_lookup(tables: &[Table], map: u64, key: &[u8]) -> (r: Answer)
    requires
        tables_wf(tables@),
    ensures
        r@ == answered(table_models(tables@), map as int, key@),
{
    if map >= tables.len() as u64 {
        return Answer::Refused("lookup named a map index the host does not have");
    }
    let table: &Table = &tables[map as usize];
    if key.len() != table.layout().key {
        return Answer::Refused("could not read a lookup key of the declared width");
    }
    match table.lookup(key) {
        Some(v) => {
            let n: usize = if v.len() < ARENA {
                v.len()
            } else {
                ARENA
            };
            let mut out: Vec<u8> = Vec::new();
            out.extend_from_slice(&v[0..n]);
            assert(out@ =~= v@.subrange(0, n as int));
            Answer::Value(out)
        },
        None => Answer::Nothing,
    }
}

/// What one execution decided.
#[derive(Clone, Copy, Debug, PartialEq, Eq, Structural)]
pub struct Outcome {
    /// Whether the program passed the frame.
    pub pass: bool,
    /// The output port as the program left it.
    pub output_port: u32,
    /// The packet length as the program left it, at most what the buffer
    /// holds.
    pub len: usize,
}

/// Why a program could not be prepared or run.
#[derive(Clone, Debug, PartialEq, Eq)]
pub enum VmError {
    /// The machine refused the bytecode.
    Rejected(String),
    /// A helper the host does not implement was called.
    Refused(&'static str),
    /// The frame does not fit the buffer this machine was built for.
    FrameTooLong {
        /// Bytes offered.
        got: usize,
        /// Bytes the buffer holds.
        cap: usize,
    },
}

/// A [`VmError`] with its texts as characters.
#[verifier::ext_equal]
pub enum VmErrorModel {
    Rejected(Seq<char>),
    Refused(Seq<char>),
    FrameTooLong { got: usize, cap: usize },
}

impl View for VmError {
    type V = VmErrorModel;

    open spec fn view(&self) -> VmErrorModel {
        match *self {
            VmError::Rejected(e) => VmErrorModel::Rejected(e@),
            VmError::Refused(w) => VmErrorModel::Refused(w@),
            VmError::FrameTooLong { got, cap } => VmErrorModel::FrameTooLong { got, cap },
        }
    }
}

impl VmErrorModel {
    /// What the error says.
    pub open spec fn message(self) -> Seq<char> {
        match self {
            VmErrorModel::Rejected(e) => "bytecode rejected: "@ + e,
            VmErrorModel::Refused(w) => "unsupported: "@ + w,
            VmErrorModel::FrameTooLong { got, cap } => "frame of "@ + dec(got as int)
                + " exceeds "@ + dec(cap as int),
        }
    }
}

impl VmError {
    /// What the error says.
    #[must_use]
    pub fn message(&self) -> (r: String)
        ensures
            r@ == self@.message(),
    {
        match self {
            VmError::Rejected(e) => {
                let mut out: String = "bytecode rejected: ".to_owned();
                out.append(e.as_str());
                out
            },
            VmError::Refused(w) => {
                let mut out: String = "unsupported: ".to_owned();
                out.append(w);
                out
            },
            VmError::FrameTooLong { got, cap } => {
                let mut out: String = "frame of ".to_owned();
                push_dec(&mut out, *got as u64);
                out.append(" exceeds ");
                push_dec(&mut out, *cap as u64);
                out
            },
        }
    }
}

/// The prologue: two loads from the buffer that `r1` points at.
pub open spec fn prologue_bytes() -> Seq<u8> {
    seq![0x79u8, 0x12, 8, 0, 0, 0, 0, 0, 0x79, 0x11, 0, 0, 0, 0, 0, 0]
}

/// The two-instruction prologue that moves the buffer's contents into the
/// registers the entry point expects: `ldxdw r2, [r1 + 8]`, then
/// `ldxdw r1, [r1 + 0]`.
#[must_use]
pub fn prologue() -> (r: [u8; 16])
    ensures
        r@ == prologue_bytes(),
{
    let p: [u8; 16] = [0x79, 0x12, 8, 0, 0, 0, 0, 0, 0x79, 0x11, 0, 0, 0, 0, 0, 0];
    assert(p@ =~= prologue_bytes());
    p
}

/// The buffer the prologue loads from: the context, a token that is never
/// dereferenced, and the address of the metadata.
#[must_use]
pub fn mbuff(meta_address: u64) -> (r: Vec<u8>)
    ensures
        r@ == le_bytes(1, 8) + le_bytes(meta_address as int, 8),
{
    let mut out: Vec<u8> = to_le_bytes(1, 8);
    let mut address: Vec<u8> = to_le_bytes(meta_address, 8);
    out.append(&mut address);
    out
}

/// What the machine's own check finds wrong with a program, if anything.
pub uninterp spec fn bytecode_fault(text: Seq<u8>) -> Option<Seq<char>>;

/// `rbpf::EbpfVmMbuff::new`: it runs the machine's check over the program, and
/// fails with what the check says. Which programs fail, and with what text, is
/// a function of the program alone; it is given a name here and not spelled
/// out.
#[verifier::external_body]
fn check_bytecode(text: &[u8]) -> (r: Result<(), String>)
    ensures
        (match r {
            Ok(_) => None,
            Err(e) => Some(e@),
        }) == bytecode_fault(text@),
{
    match rbpf::EbpfVmMbuff::new(Some(text)) {
        Ok(_) => Ok(()),
        Err(e) => Err(e.to_string()),
    }
}

/// A program prepared to run, and the buffers it runs on.
#[derive(Debug)]
pub struct Vm {
    text: Vec<u8>,
    packet: Vec<u8>,
    meta: Vec<u8>,
}

/// A [`Vm`] as bytes.
#[verifier::ext_equal]
pub struct VmModel {
    pub text: Seq<u8>,
    pub packet: Seq<u8>,
    pub meta: Seq<u8>,
}

impl View for Vm {
    type V = VmModel;

    closed spec fn view(&self) -> VmModel {
        VmModel { text: self.text@, packet: self.packet@, meta: self.meta@ }
    }
}

/// The metadata a program starts with.
pub open spec fn starting_meta(ingress: u16, len: int) -> Seq<u8> {
    let m = zeros(meta::SIZE as nat);
    let m = overlaid(m, meta::INPUT_PORT as int, le_bytes(ingress as int, 4));
    let m = overlaid(
        m,
        meta::PACKET_LENGTH as int,
        le_bytes(
            if len < u32::MAX {
                len
            } else {
                u32::MAX as int
            },
            4,
        ),
    );
    overlaid(m, meta::OUTPUT_PORT as int, le_bytes(NO_PORT as int, 4))
}

/// What an execution comes to: `code` is what the program returned or the
/// machine's fault, `refused` what a helper was refused with.
pub open spec fn concluded(
    meta: Seq<u8>,
    cap: int,
    code: Result<u64, Seq<char>>,
    refused: Option<Seq<char>>,
) -> Result<Outcome, VmErrorModel> {
    match (refused, code) {
        (Some(what), _) => Err(VmErrorModel::Refused(what)),
        (None, Err(e)) => Err(VmErrorModel::Rejected(e)),
        (None, Ok(r0)) => Ok(
            Outcome {
                pass: r0 != 0,
                output_port: le32(meta, meta::OUTPUT_PORT as int) as u32,
                len: (if le32(meta, meta::PACKET_LENGTH as int) < cap {
                    le32(meta, meta::PACKET_LENGTH as int)
                } else {
                    cap
                }) as usize,
            },
        ),
    }
}

/// A result with its error as characters.
pub open spec fn viewed<T>(r: Result<T, String>) -> Result<T, Seq<char>> {
    match r {
        Ok(x) => Ok(x),
        Err(e) => Err(e@),
    }
}

/// An optional text as characters.
pub open spec fn shown(r: Option<&'static str>) -> Option<Seq<char>> {
    match r {
        Some(x) => Some(x@),
        None => None,
    }
}

/// A result with its error as a model.
pub open spec fn result_model<T>(r: Result<T, VmError>) -> Result<T, VmErrorModel> {
    match r {
        Ok(x) => Ok(x),
        Err(e) => Err(e@),
    }
}

impl VmModel {
    /// A machine for `text` with a packet buffer of `mtu` bytes.
    pub open spec fn fresh(text: Seq<u8>, mtu: int) -> VmModel {
        VmModel {
            text: prologue_bytes() + text,
            packet: zeros(mtu as nat),
            meta: zeros(meta::SIZE as nat),
        }
    }
}

impl Vm {
    /// The metadata has its size.
    pub closed spec fn wf(&self) -> bool {
        self.meta@.len() == meta::SIZE
    }

    /// Prepare `program` to run frames of at most `mtu` bytes.
    ///
    /// # Errors
    /// [`VmError::Rejected`] if the machine will not accept the bytecode.
    pub fn new(program: &Program, mtu: usize) -> (r: Result<Self, VmError>)
        requires
            program.text@.len() + 16 <= usize::MAX,
        ensures
            r matches Ok(vm) ==> vm.wf() && vm@ == VmModel::fresh(program.text@, mtu as int)
                && bytecode_fault(prologue_bytes() + program.text@) is None,
            r matches Err(e) ==> bytecode_fault(prologue_bytes() + program.text@) is Some && e@
                == VmErrorModel::Rejected(
                bytecode_fault(prologue_bytes() + program.text@)->0,
            ),
    {
        let mut text: Vec<u8> = Vec::new();
        let head: [u8; 16] = prologue();
        text.extend_from_slice(head.as_slice());
        text.extend_from_slice(program.text.as_slice());
        assert(text@ =~= prologue_bytes() + program.text@);
        let checked: Result<(), String> = check_bytecode(text.as_slice());
        Vm::prepared(program, mtu, checked)
    }

    /// Prepare `program` given what the machine's check says of it.
    ///
    /// # Errors
    /// [`VmError::Rejected`] where the check found a fault.
    pub fn prepared(program: &Program, mtu: usize, checked: Result<(), String>) -> (r: Result<
        Self,
        VmError,
    >)
        requires
            program.text@.len() + 16 <= usize::MAX,
        ensures
            checked is Ok <==> r is Ok,
            r matches Ok(vm) ==> vm.wf() && vm@ == VmModel::fresh(program.text@, mtu as int),
            r matches Err(e) ==> e@ == VmErrorModel::Rejected(checked->Err_0@),
    {
        match checked {
            Err(e) => Err(VmError::Rejected(e)),
            Ok(_) => {
                let mut text: Vec<u8> = Vec::new();
                let head: [u8; 16] = prologue();
                text.extend_from_slice(head.as_slice());
                text.extend_from_slice(program.text.as_slice());
                assert(text@ =~= prologue_bytes() + program.text@);
                Ok(Vm { text, packet: zeroed(mtu), meta: zeroed(meta::SIZE) })
            },
        }
    }

    /// The code to run, prologue first.
    #[must_use]
    pub fn text(&self) -> (r: &[u8])
        ensures
            r@ == self@.text,
    {
        self.text.as_slice()
    }

    /// The metadata.
    #[must_use]
    pub fn meta(&self) -> (r: &[u8])
        ensures
            r@ == self@.meta,
    {
        self.meta.as_slice()
    }

    /// The frame as the program left it.
    #[must_use]
    pub fn packet(&self) -> (r: &[u8])
        ensures
            r@ == self@.packet,
    {
        self.packet.as_slice()
    }

    /// Lay one frame and its metadata out for an execution.
    ///
    /// # Errors
    /// [`VmError::FrameTooLong`] if the frame does not fit: it is refused, not
    /// truncated.
    pub fn start(&mut self, frame: &[u8], ingress: u16) -> (r: Result<(), VmError>)
        requires
            old(self).wf(),
        ensures
            final(self).wf(),
            r is Ok <==> frame@.len() <= old(self)@.packet.len(),
            r matches Err(e) ==> e@ == (VmErrorModel::FrameTooLong {
                got: frame@.len() as usize,
                cap: old(self)@.packet.len() as usize,
            }),
            r is Err ==> final(self)@ == old(self)@,
            r is Ok ==> final(self)@ == (VmModel {
                packet: overlaid(old(self)@.packet, 0, frame@),
                meta: starting_meta(ingress, frame@.len() as int),
                ..old(self)@
            }),
    {
        if frame.len() > self.packet.len() {
            return Err(VmError::FrameTooLong { got: frame.len(), cap: self.packet.len() });
        }
        assert(frame@.subrange(0, frame@.len() as int) =~= frame@);
        overlay(&mut self.packet, 0, frame, frame.len());
        let len: u64 = if (frame.len() as u64) < 0xffff_ffff {
            frame.len() as u64
        } else {
            0xffff_ffff
        };
        let mut m: Vec<u8> = zeroed(meta::SIZE);
        let port: Vec<u8> = to_le_bytes(ingress as u64, 4);
        let size: Vec<u8> = to_le_bytes(len, 4);
        let unset: Vec<u8> = to_le_bytes(NO_PORT as u64, 4);
        proof {
            lemma_le_bytes_len(ingress as int, 4);
            lemma_le_bytes_len(len as int, 4);
            lemma_le_bytes_len(NO_PORT as int, 4);
            assert(port@.subrange(0, 4) =~= port@);
            assert(size@.subrange(0, 4) =~= size@);
            assert(unset@.subrange(0, 4) =~= unset@);
        }
        overlay(&mut m, meta::INPUT_PORT, port.as_slice(), 4);
        overlay(&mut m, meta::PACKET_LENGTH, size.as_slice(), 4);
        overlay(&mut m, meta::OUTPUT_PORT, unset.as_slice(), 4);
        self.meta = m;
        Ok(())
    }

    /// Take back the buffers after an execution and say what it decided.
    ///
    /// # Errors
    /// [`VmError::Refused`] if a helper was refused, else
    /// [`VmError::Rejected`] if the machine faulted.
    pub fn finish(
        &mut self,
        packet: &[u8],
        metadata: &[u8],
        code: Result<u64, String>,
        refused: Option<&'static str>,
    ) -> (r: Result<Outcome, VmError>)
        requires
            old(self).wf(),
            packet@.len() == old(self)@.packet.len(),
            metadata@.len() == meta::SIZE,
        ensures
            final(self).wf(),
            final(self)@ == (VmModel { packet: packet@, meta: metadata@, ..old(self)@ }),
            result_model(r) == concluded(
                metadata@,
                packet@.len() as int,
                viewed(code),
                shown(refused),
            ),
    {
        let mut p: Vec<u8> = Vec::new();
        p.extend_from_slice(packet);
        let mut m: Vec<u8> = Vec::new();
        m.extend_from_slice(metadata);
        assert(p@ =~= packet@);
        assert(m@ =~= metadata@);
        self.packet = p;
        self.meta = m;
        if let Some(what) = refused {
            return Err(VmError::Refused(what));
        }
        let r0: u64 = match code {
            Ok(r0) => r0,
            Err(e) => {
                return Err(VmError::Rejected(e));
            },
        };
        let output_port: u32 = read_le32(metadata, meta::OUTPUT_PORT);
        let left: u32 = read_le32(metadata, meta::PACKET_LENGTH);
        let len: usize = if (left as u64) < packet.len() as u64 {
            left as usize
        } else {
            packet.len()
        };
        Ok(Outcome { pass: r0 != 0, output_port, len })
    }
}

/// A program that does not touch the metadata decides nothing: its output port
/// is the one that stands for none.
pub proof fn law_untouched_metadata_names_no_port(ingress: u16, len: int, cap: int, r0: u64)
    requires
        0 <= len,
    ensures
        concluded(starting_meta(ingress, len), cap, Ok(r0), None)->Ok_0.output_port == NO_PORT,
{
    let m = starting_meta(ingress, len);
    lemma_le_bytes_len(NO_PORT as int, 4);
    let s = le_bytes(NO_PORT as int, 4);
    reveal_with_fuel(le_bytes, 5);
    assert(m[12] == s[0] && m[13] == s[1] && m[14] == s[2] && m[15] == s[3]);
    assert(s[0] == 0xff && s[1] == 0xff && s[2] == 0xff && s[3] == 0xff);
}

/// A refused helper call is never a decision, whatever the program returned.
pub proof fn law_a_refusal_is_no_outcome(
    meta: Seq<u8>,
    cap: int,
    code: Result<u64, Seq<char>>,
    what: Seq<char>,
)
    ensures
        concluded(meta, cap, code, Some(what)) == Err::<Outcome, VmErrorModel>(
            VmErrorModel::Refused(what),
        ),
{
}

/// The metadata that a program starts with, byte by byte: the ingress vport at
/// 0 and the packet length at 4, each as four bytes with the least significant
/// first; no port at 12; and nothing else.
#[verifier::rlimit(40)]
pub proof fn law_the_starting_metadata(ingress: u16, len: int, i: int)
    requires
        0 <= len,
        0 <= i < 24,
    ensures
        ({
            let m = starting_meta(ingress, len);
            let shown = if len < 0xffff_ffff {
                len
            } else {
                0xffff_ffff
            };
            &&& m.len() == 24
            &&& m[0] + m[1] * 0x100 == ingress
            &&& m[2] == 0 && m[3] == 0
            &&& m[4] + m[5] * 0x100 + m[6] * 0x1_0000 + m[7] * 0x100_0000 == shown
            &&& m[12] == 0xff && m[13] == 0xff && m[14] == 0xff && m[15] == 0xff
            &&& 8 <= i < 12 || 16 <= i ==> m[i] == 0
        }),
{
    let shown = if len < 0xffff_ffff {
        len
    } else {
        0xffff_ffff
    };
    lemma_le_bytes_len(ingress as int, 4);
    lemma_le_bytes_len(shown, 4);
    lemma_le_bytes_len(NO_PORT as int, 4);
    reveal_with_fuel(le_bytes, 5);
}

/// What an execution decided stands in the metadata it left: it passed where
/// the program returned anything but zero, the port is the four bytes at 12,
/// and the length the four at 4, as far as the buffer reaches. A refused
/// helper, and then a fault, comes before either.
#[verifier::rlimit(40)]
pub proof fn law_the_metadata_holds_the_outcome(
    m: Seq<u8>,
    cap: int,
    code: Result<u64, Seq<char>>,
    refused: Option<Seq<char>>,
)
    requires
        m.len() == 24,
        0 <= cap <= usize::MAX,
    ensures
        ({
            let r = concluded(m, cap, code, refused);
            let port = m[12] + m[13] * 0x100 + m[14] * 0x1_0000 + m[15] * 0x100_0000;
            let len = m[4] + m[5] * 0x100 + m[6] * 0x1_0000 + m[7] * 0x100_0000;
            &&& refused matches Some(what) ==> r == Err::<Outcome, VmErrorModel>(
                VmErrorModel::Refused(what),
            )
            &&& refused is None ==> (code matches Err(e) ==> r == Err::<Outcome, VmErrorModel>(
                VmErrorModel::Rejected(e),
            ))
            &&& refused is None && code is Ok ==> r is Ok && r->Ok_0.pass == (code->Ok_0 != 0)
                && r->Ok_0.output_port == port && r->Ok_0.len == (if len < cap {
                len
            } else {
                cap
            })
        }),
{
}

/// What a lookup answers: the value of the entry, or the default, of the map
/// with that number, as far as 64 bytes hold it; nothing where the map has
/// neither. A map the host does not have and a key of another width are
/// refused.
pub proof fn law_lookups_are_answered(tables: Seq<ImageTable>, map: int, key: Seq<u8>, i: int)
    requires
        0 <= map,
    ensures
        ({
            let r = answered(tables, map, key);
            let t = tables[map];
            let known = map < tables.len() && key.len() == t.layout.key;
            &&& !known ==> r is Refused
            &&& known && t.answer(key) is None ==> r is Nothing
            &&& known && t.answer(key) is Some ==> r is Value && r->Value_0.len() == (if t.answer(
                key,
            )->0.len() < 64 {
                t.answer(key)->0.len() as int
            } else {
                64
            })
            &&& known && t.answer(key) is Some && 0 <= i < r->Value_0.len() ==> r->Value_0[i]
                == t.answer(key)->0[i]
        }),
{
}

/// A machine runs the prologue and then the program, on buffers that hold
/// nothing yet. The prologue is two loads: the second register from eight bytes
/// into the buffer, then the first register from its front.
pub proof fn law_machines_start_with_the_prologue(text: Seq<u8>, mtu: int, i: int)
    requires
        0 <= mtu,
    ensures
        ({
            let m = VmModel::fresh(text, mtu);
            &&& m.text.len() == 16 + text.len()
            &&& m.text[0] == 0x79 && m.text[1] == 0x12 && m.text[2] == 8
            &&& m.text[8] == 0x79 && m.text[9] == 0x11 && m.text[10] == 0
            &&& 3 <= i < 8 || 11 <= i < 16 ==> m.text[i] == 0
            &&& 0 <= i < text.len() ==> m.text[16 + i] == text[i]
            &&& m.packet.len() == mtu
            &&& 0 <= i < mtu ==> m.packet[i] == 0
            &&& m.meta.len() == 24
            &&& 0 <= i < 24 ==> m.meta[i] == 0
        }),
{
}

/// A frame is laid at the front of the packet buffer, and what the buffer held
/// behind it stays.
pub proof fn law_frames_are_laid_in_front(packet: Seq<u8>, frame: Seq<u8>, i: int)
    requires
        frame.len() <= packet.len(),
        0 <= i < packet.len(),
    ensures
        overlaid(packet, 0, frame).len() == packet.len(),
        overlaid(packet, 0, frame)[i] == (if i < frame.len() {
            frame[i]
        } else {
            packet[i]
        }),
{
}

} // verus!
