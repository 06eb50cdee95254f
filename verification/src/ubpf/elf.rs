//! Turning a BPF object into something a virtual machine can execute.
//!
//! The compiler declares each table as a C global and calls
//! `ubpf_map_lookup(&table, &key)`, so the compiled object does not contain
//! table *addresses*: it contains relocations against data symbols. This module
//! resolves them.
//!
//! The resolution: rewrite each map reference to the map's **index**, so the
//! running program passes a small integer to the host instead of a pointer.
//! The machine never holds a table address, and the helper receives a value it
//! can check against a closed set rather than dereference.
//!
//! A [`Program`] exists only if the object was a BPF ELF64 whose relocations
//! were all understood. Every rejection is a named [`ElfError`].
use crate::bytes::{
    le16, le32, le64, le_bytes, lemma_le_bytes_len, read_le16, read_le32, read_le64, to_le_bytes,
};
use crate::headers::{write_at, written};
use crate::text::{
    c_string, chars_of, dec, find_char, first_index, lossy, push_dec, push_hex, same, same_chars,
    spec_hex, string_of, texts, until_nul,
};
use vstd::prelude::*;

verus! {

/// `EM_BPF`.
pub const MACHINE_BPF: u16 = 247;

/// Section type of a symbol table.
pub const SHT_SYMTAB: u32 = 2;

/// Section type of a relocation table.
pub const SHT_REL: u32 = 9;

/// `R_BPF_64_64`: patches the 64-bit immediate of an `lddw` pair.
pub const R_BPF_64_64: u32 = 1;

/// Length of the file header.
pub const EHDR_LEN: usize = 64;

/// Length of a section header.
pub const SHDR_LEN: u64 = 64;

/// Length of a symbol, where the table does not say.
pub const SYM_LEN: u64 = 24;

/// Length of a relocation, where the table does not say.
pub const REL_LEN: u64 = 16;

/// One instruction. `lddw` occupies two.
pub const INSN_LEN: usize = 8;

/// `STT_OBJECT`, the symbol type a map definition has.
pub const STT_OBJECT: u8 = 1;

/// Why an object could not be loaded.
///
/// Closed. Each variant is a specific structural claim that failed, so a
/// failure names what was wrong rather than reporting "malformed".
#[derive(Clone, Debug, PartialEq, Eq)]
pub enum ElfError {
    /// Not an ELF file at all.
    NotElf,
    /// Not a 64-bit little-endian object.
    NotElf64Le,
    /// Compiled for something other than BPF.
    NotBpf {
        /// The `e_machine` found.
        machine: u16,
    },
    /// Truncated: a header or table ran past the end of the file.
    Truncated {
        /// What was being read.
        what: &'static str,
    },
    /// No `.text`, so there is no program.
    NoText,
    /// A relocation this loader does not implement.
    UnknownRelocation {
        /// The relocation type.
        kind: u32,
    },
    /// A relocation referred to a symbol that is not a map definition. Left
    /// unresolved it would become an arbitrary integer at run time.
    UnresolvedSymbol {
        /// The symbol's name, or its index if there is no such symbol.
        name: String,
    },
    /// A relocation pointed outside `.text`.
    RelocationOutOfRange {
        /// Byte offset the relocation named.
        offset: u64,
    },
}

/// An [`ElfError`] with its texts as characters.
pub enum ElfErrorModel {
    NotElf,
    NotElf64Le,
    NotBpf { machine: u16 },
    Truncated { what: Seq<char> },
    NoText,
    UnknownRelocation { kind: u32 },
    UnresolvedSymbol { name: Seq<char> },
    RelocationOutOfRange { offset: u64 },
}

impl View for ElfError {
    type V = ElfErrorModel;

    open spec fn view(&self) -> ElfErrorModel {
        match *self {
            ElfError::NotElf => ElfErrorModel::NotElf,
            ElfError::NotElf64Le => ElfErrorModel::NotElf64Le,
            ElfError::NotBpf { machine } => ElfErrorModel::NotBpf { machine },
            ElfError::Truncated { what } => ElfErrorModel::Truncated { what: what@ },
            ElfError::NoText => ElfErrorModel::NoText,
            ElfError::UnknownRelocation { kind } => ElfErrorModel::UnknownRelocation { kind },
            ElfError::UnresolvedSymbol { name } => ElfErrorModel::UnresolvedSymbol { name: name@ },
            ElfError::RelocationOutOfRange { offset } => ElfErrorModel::RelocationOutOfRange {
                offset,
            },
        }
    }
}

impl ElfErrorModel {
    /// What the error says.
    pub open spec fn message(self) -> Seq<char> {
        match self {
            ElfErrorModel::NotElf => "not an ELF object"@,
            ElfErrorModel::NotElf64Le => "not a 64-bit little-endian object"@,
            ElfErrorModel::NotBpf { machine } => "e_machine "@ + dec(machine as int)
                + " is not BPF (247)"@,
            ElfErrorModel::Truncated { what } => "truncated while reading "@ + what,
            ElfErrorModel::NoText => "no .text section: nothing to execute"@,
            ElfErrorModel::UnknownRelocation { kind } => "relocation type "@ + dec(kind as int)
                + " is not implemented"@,
            ElfErrorModel::UnresolvedSymbol { name } => "relocation against "@ + name
                + ", which is not a map definition"@,
            ElfErrorModel::RelocationOutOfRange { offset } => "relocation at 0x"@ + spec_hex(
                offset as int,
            ) + " lies outside .text"@,
        }
    }
}

impl ElfError {
    /// What the error says.
    pub fn message(&self) -> (r: String)
        ensures
            r@ == self@.message(),
    {
        match self {
            ElfError::NotElf => "not an ELF object".to_owned(),
            ElfError::NotElf64Le => "not a 64-bit little-endian object".to_owned(),
            ElfError::NotBpf { machine } => {
                let mut out: String = "e_machine ".to_owned();
                push_dec(&mut out, *machine as u64);
                out.append(" is not BPF (247)");
                out
            },
            ElfError::Truncated { what } => {
                let mut out: String = "truncated while reading ".to_owned();
                out.append(what);
                out
            },
            ElfError::NoText => "no .text section: nothing to execute".to_owned(),
            ElfError::UnknownRelocation { kind } => {
                let mut out: String = "relocation type ".to_owned();
                push_dec(&mut out, *kind as u64);
                out.append(" is not implemented");
                out
            },
            ElfError::UnresolvedSymbol { name } => {
                let mut out: String = "relocation against ".to_owned();
                out.append(name.as_str());
                out.append(", which is not a map definition");
                out
            },
            ElfError::RelocationOutOfRange { offset } => {
                let mut out: String = "relocation at 0x".to_owned();
                push_hex(&mut out, *offset);
                out.append(" lies outside .text");
                out
            },
        }
    }
}

/// A map the program refers to, in the order its index denotes.
#[derive(Clone, Debug, PartialEq, Eq)]
pub struct MapRef {
    /// The C symbol, e.g. `pipe_mac_dst` or `pipe_mac_dst_defaultAction`.
    pub symbol: String,
    /// The table it belongs to, with the compiler's control prefix removed.
    pub table: String,
    /// Whether this is the table's miss-action map rather than its entries.
    pub is_default: bool,
}

/// A [`MapRef`] with its texts as characters.
pub struct MapModel {
    pub symbol: Seq<char>,
    pub table: Seq<char>,
    pub is_default: bool,
}

impl View for MapRef {
    type V = MapModel;

    open spec fn view(&self) -> MapModel {
        MapModel { symbol: self.symbol@, table: self.table@, is_default: self.is_default }
    }
}

/// Whether `s` ends with `end`.
pub open spec fn ends_with(s: Seq<char>, end: Seq<char>) -> bool {
    end.len() <= s.len() && s.subrange(s.len() - end.len(), s.len() as int) == end
}

/// What follows the first underscore, or all of `s` where there is none.
pub open spec fn behind_control(s: Seq<char>) -> Seq<char> {
    let at = first_index(s, '_');
    if at < s.len() {
        s.subrange(at + 1, s.len() as int)
    } else {
        s
    }
}

/// The map that a symbol declares: `<control>_<table>` holds the entries, and
/// `<control>_<table>_defaultAction` the action on a miss.
pub open spec fn map_of_symbol(symbol: Seq<char>) -> MapModel {
    let suffix = "_defaultAction"@;
    if ends_with(symbol, suffix) {
        MapModel {
            symbol,
            table: behind_control(symbol.subrange(0, symbol.len() - suffix.len())),
            is_default: true,
        }
    } else {
        MapModel { symbol, table: behind_control(symbol), is_default: false }
    }
}

impl MapRef {
    /// The map that `symbol` declares.
    pub fn new(symbol: String) -> (r: Self)
        ensures
            r@ == map_of_symbol(symbol@),
    {
        let chars: Vec<char> = chars_of(symbol.as_str());
        let suffix: Vec<char> = chars_of("_defaultAction");
        let s: &[char] = chars.as_slice();
        let mut end: usize = s.len();
        let mut is_default: bool = false;
        if suffix.len() <= s.len() {
            let tail: &[char] = &s[s.len() - suffix.len()..s.len()];
            if same_chars(tail, suffix.as_slice()) {
                is_default = true;
                end = s.len() - suffix.len();
            }
        }
        let base: &[char] = &s[0..end];
        assert(base@ == symbol@.subrange(0, end as int));
        assert(symbol@.subrange(0, symbol@.len() as int) == symbol@);
        let at: usize = find_char(base, '_');
        let table: String = if at < base.len() {
            string_of(&base[at + 1..base.len()])
        } else {
            string_of(base)
        };
        MapRef { symbol, table, is_default }
    }
}

/// A loaded, relocated program.
#[derive(Clone, Debug)]
pub struct Program {
    /// `.text`, with every map reference rewritten to that map's index.
    pub text: Vec<u8>,
    /// The maps, indexed by the value now embedded in the instruction stream.
    pub maps: Vec<MapRef>,
}

/// A [`Program`] over sequences.
#[verifier::ext_equal]
pub struct ProgramModel {
    pub text: Seq<u8>,
    pub maps: Seq<MapModel>,
}

impl View for Program {
    type V = ProgramModel;

    open spec fn view(&self) -> ProgramModel {
        ProgramModel {
            text: self.text@,
            maps: Seq::new(self.maps@.len(), |i: int| self.maps@[i]@),
        }
    }
}

/// The name that stands `off` bytes into the string table at `base`; empty
/// where the table does not lie in the object.
pub open spec fn name_in(obj: Seq<u8>, base: int, size: int, off: int) -> Seq<char> {
    if off <= size && base + size <= obj.len() {
        lossy(until_nul(obj.subrange(base + off, base + size)))
    } else {
        Seq::empty()
    }
}

fn name_at(obj: &[u8], base: u64, size: u64, off: u32) -> (r: String)
    ensures
        r@ == name_in(obj@, base as int, size as int, off as int),
{
    let len: u128 = obj.len() as u128;
    if off as u64 > size || base as u128 + size as u128 > len {
        let none: String = String::new();
        assert(none@ =~= Seq::empty());
        return none;
    }
    let start: usize = (base as u128 + off as u128) as usize;
    let end: usize = (base as u128 + size as u128) as usize;
    c_string(&obj[start..end])
}

/// A section header whose name is still an offset.
#[derive(Clone, Copy)]
pub struct RawSection {
    /// Offset of the name in the section name table.
    pub name: u32,
    /// Section type.
    pub kind: u32,
    /// Where the section's bytes start.
    pub offset: u64,
    /// How many bytes it has.
    pub size: u64,
    /// The section it refers to.
    pub link: u32,
    /// How long one of its entries is.
    pub entsize: u64,
}

/// The section header at `at`, or what of it runs past the end.
pub open spec fn raw_section(obj: Seq<u8>, at: int) -> Result<RawSection, Seq<char>> {
    if at + 4 > obj.len() {
        Err("sh_name"@)
    } else if at + 8 > obj.len() {
        Err("sh_type"@)
    } else if at + 40 > obj.len() {
        Err("section"@)
    } else if at + 44 > obj.len() {
        Err("sh_link"@)
    } else if at + 64 > obj.len() {
        Err("section"@)
    } else {
        Ok(
            RawSection {
                name: le32(obj, at) as u32,
                kind: le32(obj, at + 4) as u32,
                offset: le64(obj, at + 24) as u64,
                size: le64(obj, at + 32) as u64,
                link: le32(obj, at + 40) as u32,
                entsize: le64(obj, at + 56) as u64,
            },
        )
    }
}

/// The first `n` section headers of the table at `shoff`.
pub open spec fn raw_sections(obj: Seq<u8>, shoff: int, n: int) -> Result<
    Seq<RawSection>,
    Seq<char>,
>
    decreases n,
{
    if n <= 0 {
        Ok(Seq::empty())
    } else {
        match raw_sections(obj, shoff, n - 1) {
            Err(e) => Err(e),
            Ok(s) => match raw_section(obj, shoff + (n - 1) * SHDR_LEN) {
                Err(e) => Err(e),
                Ok(r) => Ok(s.push(r)),
            },
        }
    }
}

fn read_section(obj: &[u8], at: u128) -> (r: Result<RawSection, ElfError>)
    requires
        at + 64 <= u128::MAX,
    ensures
        r matches Ok(s) ==> raw_section(obj@, at as int) == Ok::<RawSection, Seq<char>>(s),
        r matches Err(e) ==> raw_section(obj@, at as int) is Err && e@ == (
        ElfErrorModel::Truncated { what: raw_section(obj@, at as int)->Err_0 }),
{
    let len: u128 = obj.len() as u128;
    if at + 4 > len {
        return Err(ElfError::Truncated { what: "sh_name" });
    }
    if at + 8 > len {
        return Err(ElfError::Truncated { what: "sh_type" });
    }
    if at + 40 > len {
        return Err(ElfError::Truncated { what: "section" });
    }
    if at + 44 > len {
        return Err(ElfError::Truncated { what: "sh_link" });
    }
    if at + 64 > len {
        return Err(ElfError::Truncated { what: "section" });
    }
    let at: usize = at as usize;
    Ok(
        RawSection {
            name: read_le32(obj, at),
            kind: read_le32(obj, at + 4),
            offset: read_le64(obj, at + 24),
            size: read_le64(obj, at + 32),
            link: read_le32(obj, at + 40),
            entsize: read_le64(obj, at + 56),
        },
    )
}

fn read_sections(obj: &[u8], shoff: u64, n: u16) -> (r: Result<Vec<RawSection>, ElfError>)
    ensures
        r matches Ok(s) ==> raw_sections(obj@, shoff as int, n as int) == Ok::<
            Seq<RawSection>,
            Seq<char>,
        >(s@),
        r matches Err(e) ==> raw_sections(obj@, shoff as int, n as int) is Err && e@ == (
        ElfErrorModel::Truncated { what: raw_sections(obj@, shoff as int, n as int)->Err_0 }),
{
    let mut out: Vec<RawSection> = Vec::new();
    let mut i: u16 = 0;
    while i < n
        invariant
            i <= n,
            raw_sections(obj@, shoff as int, i as int) == Ok::<Seq<RawSection>, Seq<char>>(out@),
        decreases n - i,
    {
        let at: u128 = shoff as u128 + i as u128 * SHDR_LEN as u128;
        match read_section(obj, at) {
            Ok(s) => out.push(s),
            Err(e) => {
                proof {
                    lemma_sections_stop(obj@, shoff as int, i + 1, n as int);
                }
                return Err(e);
            },
        }
        i += 1;
    }
    Ok(out)
}

/// What fails among the first headers fails for all of them, in the same way.
proof fn lemma_sections_stop(obj: Seq<u8>, shoff: int, k: int, n: int)
    requires
        k <= n,
        raw_sections(obj, shoff, k) is Err,
    ensures
        raw_sections(obj, shoff, n) == raw_sections(obj, shoff, k),
    decreases n - k,
{
    if k < n {
        lemma_sections_stop(obj, shoff, k, n - 1);
    }
}

/// The names of the sections, from the string table of section `strndx`.
pub open spec fn section_names(obj: Seq<u8>, raws: Seq<RawSection>, strndx: int) -> Seq<Seq<char>> {
    Seq::new(
        raws.len(),
        |i: int|
            name_in(
                obj,
                raws[strndx].offset as int,
                raws[strndx].size as int,
                raws[i].name as int,
            ),
    )
}

/// The first place from `from` on where `names` has `name`, or their number.
pub open spec fn first_named(names: Seq<Seq<char>>, name: Seq<char>, from: int) -> int
    decreases names.len() - from,
{
    if from >= names.len() || names[from] == name {
        from
    } else {
        first_named(names, name, from + 1)
    }
}

/// The first symbol table from `from` on, or the number of sections.
pub open spec fn first_symtab(raws: Seq<RawSection>, from: int) -> int
    decreases raws.len() - from,
{
    if from >= raws.len() || raws[from].kind == SHT_SYMTAB {
        from
    } else {
        first_symtab(raws, from + 1)
    }
}

/// How many entries of `len` bytes, or of `standard` where that is zero, a
/// table has.
pub open spec fn entry_len(entsize: u64, standard: u64) -> int {
    if entsize == 0 {
        standard as int
    } else {
        entsize as int
    }
}

/// A symbol.
#[derive(Clone, Debug)]
pub struct Symbol {
    /// Its name.
    pub name: String,
    /// Its type.
    pub kind: u8,
    /// Its address within its section.
    pub value: u64,
}

/// A [`Symbol`] with its name as characters.
pub struct SymbolModel {
    pub name: Seq<char>,
    pub kind: u8,
    pub value: u64,
}

impl View for Symbol {
    type V = SymbolModel;

    open spec fn view(&self) -> SymbolModel {
        SymbolModel { name: self.name@, kind: self.kind, value: self.value }
    }
}

/// The views of `v`.
pub open spec fn symbol_models(v: Seq<Symbol>) -> Seq<SymbolModel> {
    Seq::new(v.len(), |i: int| v[i]@)
}

impl SymbolModel {
    /// Whether the symbol defines a map: a named data object.
    pub open spec fn is_map(self) -> bool {
        self.kind == STT_OBJECT && self.name.len() > 0
    }
}

/// The symbol at `at`, named from the string table `strs`, or what of it runs
/// past the end.
pub open spec fn symbol_at(obj: Seq<u8>, at: int, strs: RawSection) -> Result<
    SymbolModel,
    Seq<char>,
> {
    if at + 4 > obj.len() {
        Err("st_name"@)
    } else if at + 5 > obj.len() {
        Err("st_info"@)
    } else if at + 16 > obj.len() {
        Err("st_value"@)
    } else {
        Ok(
            SymbolModel {
                name: name_in(obj, strs.offset as int, strs.size as int, le32(obj, at)),
                kind: (obj[at + 4] % 16) as u8,
                value: le64(obj, at + 8) as u64,
            },
        )
    }
}

/// The first `n` symbols of the table `sym`.
pub open spec fn symbols_in(obj: Seq<u8>, sym: RawSection, strs: RawSection, n: int) -> Result<
    Seq<SymbolModel>,
    Seq<char>,
>
    decreases n,
{
    if n <= 0 {
        Ok(Seq::empty())
    } else {
        match symbols_in(obj, sym, strs, n - 1) {
            Err(e) => Err(e),
            Ok(s) => match symbol_at(
                obj,
                sym.offset + (n - 1) * entry_len(sym.entsize, SYM_LEN),
                strs,
            ) {
                Err(e) => Err(e),
                Ok(one) => Ok(s.push(one)),
            },
        }
    }
}

/// The symbols of the object: those of its first symbol table.
pub open spec fn symbols_of(obj: Seq<u8>, raws: Seq<RawSection>) -> Result<
    Seq<SymbolModel>,
    Seq<char>,
> {
    let at = first_symtab(raws, 0);
    if at >= raws.len() {
        Ok(Seq::empty())
    } else if raws[at].link >= raws.len() {
        Err("symbol strtab"@)
    } else {
        symbols_in(
            obj,
            raws[at],
            raws[raws[at].link as int],
            raws[at].size as int / entry_len(raws[at].entsize, SYM_LEN),
        )
    }
}

/// How many of `order` come before a symbol with this value: those whose value
/// is no larger.
pub open spec fn place(symbols: Seq<SymbolModel>, order: Seq<int>, value: u64) -> int
    decreases order.len(),
{
    if order.len() == 0 || symbols[order.last()].value <= value {
        order.len() as int
    } else {
        place(symbols, order.drop_last(), value)
    }
}

/// The map definitions among the first `n` symbols, by address; those at the
/// same address as they come. A map's place here is its index.
pub open spec fn ordered(symbols: Seq<SymbolModel>, n: int) -> Seq<int>
    decreases n,
{
    if n <= 0 {
        Seq::empty()
    } else {
        let before = ordered(symbols, n - 1);
        if symbols[n - 1].is_map() {
            before.insert(place(symbols, before, symbols[n - 1].value), n - 1)
        } else {
            before
        }
    }
}

/// The index of the map that symbol number `sym` defines. A relocation holds
/// the number's low 32 bits.
pub open spec fn map_index(order: Seq<int>, sym: int) -> Option<int>
    decreases order.len(),
{
    if order.len() == 0 {
        None
    } else if order.last() % 0x1_0000_0000 == sym {
        Some(order.len() - 1)
    } else {
        map_index(order.drop_last(), sym)
    }
}

/// `.text` with the relocation at `at` applied: the map's index in the low
/// half of the immediate, zero in the high half.
pub open spec fn relocated(
    obj: Seq<u8>,
    at: int,
    symbols: Seq<SymbolModel>,
    order: Seq<int>,
    text: Seq<u8>,
) -> Result<Seq<u8>, ElfErrorModel> {
    if at + 8 > obj.len() {
        Err(ElfErrorModel::Truncated { what: "r_offset"@ })
    } else if at + 16 > obj.len() {
        Err(ElfErrorModel::Truncated { what: "r_info"@ })
    } else {
        let offset = le64(obj, at);
        let kind = le64(obj, at + 8) % 0x1_0000_0000;
        let sym = le64(obj, at + 8) / 0x1_0000_0000;
        if kind != R_BPF_64_64 {
            Err(ElfErrorModel::UnknownRelocation { kind: kind as u32 })
        } else if offset + 2 * INSN_LEN > text.len() {
            Err(ElfErrorModel::RelocationOutOfRange { offset: offset as u64 })
        } else {
            match map_index(order, sym) {
                None => Err(
                    ElfErrorModel::UnresolvedSymbol {
                        name: if sym < symbols.len() {
                            symbols[sym].name
                        } else {
                            dec(sym)
                        },
                    },
                ),
                Some(index) => Ok(
                    written(
                        written(text, offset + 4, le_bytes(index, 4)),
                        offset + INSN_LEN + 4,
                        le_bytes(0, 4),
                    ),
                ),
            }
        }
    }
}

/// `.text` with the first `n` relocations of the table `rel` applied.
pub open spec fn relocated_by(
    obj: Seq<u8>,
    rel: RawSection,
    symbols: Seq<SymbolModel>,
    order: Seq<int>,
    text: Seq<u8>,
    n: int,
) -> Result<Seq<u8>, ElfErrorModel>
    decreases n,
{
    if n <= 0 {
        Ok(text)
    } else {
        match relocated_by(obj, rel, symbols, order, text, n - 1) {
            Err(e) => Err(e),
            Ok(t) => relocated(
                obj,
                rel.offset + (n - 1) * entry_len(rel.entsize, REL_LEN),
                symbols,
                order,
                t,
            ),
        }
    }
}

/// Whether a section holds relocations against `.text`.
pub open spec fn is_text_rel(raw: RawSection, name: Seq<char>) -> bool {
    raw.kind == SHT_REL && name == ".rel.text"@
}

/// `.text` with the relocations of the first `n` sections applied.
pub open spec fn all_relocated(
    obj: Seq<u8>,
    raws: Seq<RawSection>,
    names: Seq<Seq<char>>,
    symbols: Seq<SymbolModel>,
    text: Seq<u8>,
    n: int,
) -> Result<Seq<u8>, ElfErrorModel>
    decreases n,
{
    if n <= 0 {
        Ok(text)
    } else {
        match all_relocated(obj, raws, names, symbols, text, n - 1) {
            Err(e) => Err(e),
            Ok(t) => if is_text_rel(raws[n - 1], names[n - 1]) {
                relocated_by(
                    obj,
                    raws[n - 1],
                    symbols,
                    ordered(symbols, symbols.len() as int),
                    t,
                    raws[n - 1].size as int / entry_len(raws[n - 1].entsize, REL_LEN),
                )
            } else {
                Ok(t)
            },
        }
    }
}

/// The maps that the symbols define, by index.
pub open spec fn maps_of(symbols: Seq<SymbolModel>) -> Seq<MapModel> {
    let order = ordered(symbols, symbols.len() as int);
    Seq::new(order.len(), |i: int| map_of_symbol(symbols[order[i]].name))
}

/// The program of an object whose sections have these names and whose symbols
/// are these, or could not be read.
pub open spec fn linked_by_name(
    obj: Seq<u8>,
    raws: Seq<RawSection>,
    names: Seq<Seq<char>>,
    symbols: Result<Seq<SymbolModel>, ElfErrorModel>,
) -> Result<ProgramModel, ElfErrorModel> {
    let at = first_named(names, ".text"@, 0);
    if at >= raws.len() {
        Err(ElfErrorModel::NoText)
    } else if raws[at].offset + raws[at].size > obj.len() {
        Err(ElfErrorModel::Truncated { what: ".text"@ })
    } else {
        match symbols {
            Err(e) => Err(e),
            Ok(symbols) => match all_relocated(
                obj,
                raws,
                names,
                symbols,
                obj.subrange(raws[at].offset as int, raws[at].offset + raws[at].size),
                raws.len() as int,
            ) {
                Err(e) => Err(e),
                Ok(text) => Ok(ProgramModel { text, maps: maps_of(symbols) }),
            },
        }
    }
}

/// The symbols of the object, or why they cannot be read.
pub open spec fn symbols_read(obj: Seq<u8>, raws: Seq<RawSection>) -> Result<
    Seq<SymbolModel>,
    ElfErrorModel,
> {
    match symbols_of(obj, raws) {
        Ok(symbols) => Ok(symbols),
        Err(what) => Err(ElfErrorModel::Truncated { what }),
    }
}

/// The program of an object with these sections, named by section `strndx`.
pub open spec fn linked(obj: Seq<u8>, raws: Seq<RawSection>, strndx: int) -> Result<
    ProgramModel,
    ElfErrorModel,
> {
    if strndx >= raws.len() {
        Err(ElfErrorModel::Truncated { what: "shstrtab"@ })
    } else {
        linked_by_name(
            obj,
            raws,
            section_names(obj, raws, strndx),
            symbols_read(obj, raws),
        )
    }
}

/// The program of an object, or the structural claim that failed.
pub open spec fn loaded(obj: Seq<u8>) -> Result<ProgramModel, ElfErrorModel> {
    if obj.len() < EHDR_LEN || obj.subrange(0, 4) != seq![0x7fu8, 0x45u8, 0x4cu8, 0x46u8] {
        Err(ElfErrorModel::NotElf)
    } else if obj[4] != 2 || obj[5] != 1 {
        Err(ElfErrorModel::NotElf64Le)
    } else if le16(obj, 18) != MACHINE_BPF {
        Err(ElfErrorModel::NotBpf { machine: le16(obj, 18) as u16 })
    } else {
        match raw_sections(obj, le64(obj, 40), le16(obj, 60)) {
            Err(what) => Err(ElfErrorModel::Truncated { what }),
            Ok(raws) => linked(obj, raws, le16(obj, 62)),
        }
    }
}

fn read_names(obj: &[u8], raws: &[RawSection], strndx: usize) -> (r: Vec<String>)
    requires
        strndx < raws@.len(),
    ensures
        texts(r@) == section_names(obj@, raws@, strndx as int),
{
    let mut out: Vec<String> = Vec::new();
    let mut i: usize = 0;
    while i < raws.len()
        invariant
            i <= raws@.len(),
            strndx < raws@.len(),
            out@.len() == i,
            forall|j: int|
                0 <= j < i ==> (#[trigger] out@[j])@ == section_names(
                    obj@,
                    raws@,
                    strndx as int,
                )[j],
        decreases raws.len() - i,
    {
        out.push(name_at(obj, raws[strndx].offset, raws[strndx].size, raws[i].name));
        i += 1;
    }
    assert(texts(out@) =~= section_names(obj@, raws@, strndx as int));
    out
}

fn find_named(names: &[String], name: &str) -> (r: usize)
    ensures
        r == first_named(texts(names@), name@, 0),
        r <= names@.len(),
{
    let mut i: usize = 0;
    while i < names.len() && !same(names[i].as_str(), name)
        invariant
            i <= names@.len(),
            first_named(texts(names@), name@, 0) == first_named(texts(names@), name@, i as int),
        decreases names.len() - i,
    {
        i += 1;
    }
    i
}

fn find_symtab(raws: &[RawSection]) -> (r: usize)
    ensures
        r == first_symtab(raws@, 0),
        r <= raws@.len(),
{
    let mut i: usize = 0;
    while i < raws.len() && raws[i].kind != SHT_SYMTAB
        invariant
            i <= raws@.len(),
            first_symtab(raws@, 0) == first_symtab(raws@, i as int),
        decreases raws.len() - i,
    {
        i += 1;
    }
    i
}

fn read_symbol(obj: &[u8], at: u128, strs: RawSection) -> (r: Result<Symbol, ElfError>)
    requires
        at + 16 <= u128::MAX,
    ensures
        r matches Ok(s) ==> symbol_at(obj@, at as int, strs) == Ok::<SymbolModel, Seq<char>>(s@),
        r matches Err(e) ==> symbol_at(obj@, at as int, strs) is Err && e@ == (
        ElfErrorModel::Truncated { what: symbol_at(obj@, at as int, strs)->Err_0 }),
{
    let len: u128 = obj.len() as u128;
    if at + 4 > len {
        return Err(ElfError::Truncated { what: "st_name" });
    }
    if at + 5 > len {
        return Err(ElfError::Truncated { what: "st_info" });
    }
    if at + 16 > len {
        return Err(ElfError::Truncated { what: "st_value" });
    }
    let at: usize = at as usize;
    let name: u32 = read_le32(obj, at);
    Ok(
        Symbol {
            name: name_at(obj, strs.offset, strs.size, name),
            kind: obj[at + 4] % 16,
            value: read_le64(obj, at + 8),
        },
    )
}

/// The `i`th of the entries that a table's size has room for starts below
/// `2^64`.
proof fn lemma_entry_at(size: u64, len: int, i: int)
    requires
        len > 0,
        0 <= i < size as int / len,
    ensures
        0 <= i * len <= size,
{
    assert(0 <= i * len <= size) by (nonlinear_arith)
        requires
            len > 0,
            0 <= i < size as int / len,
    ;
}

fn read_symbols(obj: &[u8], raws: &[RawSection]) -> (r: Result<Vec<Symbol>, ElfError>)
    ensures
        r matches Ok(s) ==> symbols_of(obj@, raws@) == Ok::<Seq<SymbolModel>, Seq<char>>(
            symbol_models(s@),
        ),
        r matches Err(e) ==> symbols_of(obj@, raws@) is Err && e@ == (ElfErrorModel::Truncated {
            what: symbols_of(obj@, raws@)->Err_0,
        }),
{
    let mut out: Vec<Symbol> = Vec::new();
    assert(symbol_models(out@) =~= Seq::empty());
    let at: usize = find_symtab(raws);
    if at >= raws.len() {
        return Ok(out);
    }
    let sym: RawSection = raws[at];
    if sym.link as u64 >= raws.len() as u64 {
        return Err(ElfError::Truncated { what: "symbol strtab" });
    }
    let strs: RawSection = raws[sym.link as usize];
    let len: u64 = if sym.entsize == 0 {
        SYM_LEN
    } else {
        sym.entsize
    };
    let count: u64 = sym.size / len;
    let mut i: u64 = 0;
    while i < count
        invariant
            i <= count,
            len == entry_len(sym.entsize, SYM_LEN),
            len > 0,
            count == sym.size as int / len as int,
            symbols_of(obj@, raws@) == symbols_in(obj@, sym, strs, count as int),
            symbols_in(obj@, sym, strs, i as int) == Ok::<Seq<SymbolModel>, Seq<char>>(
                symbol_models(out@),
            ),
        ensures
            symbols_in(obj@, sym, strs, count as int) == Ok::<Seq<SymbolModel>, Seq<char>>(
                symbol_models(out@),
            ),
        decreases count - i,
    {
        proof {
            lemma_entry_at(sym.size, len as int, i as int);
        }
        let at: u128 = sym.offset as u128 + i as u128 * len as u128;
        let ghost before = symbol_models(out@);
        match read_symbol(obj, at, strs) {
            Ok(s) => {
                out.push(s);
                assert(symbol_models(out@) =~= before.push(s@));
            },
            Err(e) => {
                proof {
                    lemma_symbols_stop(obj@, sym, strs, i + 1, count as int);
                }
                return Err(e);
            },
        }
        i += 1;
    }
    Ok(out)
}

/// What fails among the first symbols fails for all of them, in the same way.
proof fn lemma_symbols_stop(obj: Seq<u8>, sym: RawSection, strs: RawSection, k: int, n: int)
    requires
        k <= n,
        symbols_in(obj, sym, strs, k) is Err,
    ensures
        symbols_in(obj, sym, strs, n) == symbols_in(obj, sym, strs, k),
    decreases n - k,
{
    if k < n {
        lemma_symbols_stop(obj, sym, strs, k, n - 1);
    }
}

/// The indices in `v`.
pub open spec fn indices(v: Seq<usize>) -> Seq<int> {
    Seq::new(v.len(), |i: int| v[i] as int)
}

fn order_maps(symbols: &[Symbol]) -> (r: Vec<usize>)
    ensures
        indices(r@) == ordered(symbol_models(symbols@), symbols@.len() as int),
        forall|i: int| 0 <= i < r@.len() ==> (#[trigger] r@[i]) < symbols@.len(),
{
    let ghost models = symbol_models(symbols@);
    let mut order: Vec<usize> = Vec::new();
    assert(indices(order@) =~= Seq::<int>::empty());
    let mut n: usize = 0;
    while n < symbols.len()
        invariant
            n <= symbols@.len(),
            models == symbol_models(symbols@),
            indices(order@) == ordered(models, n as int),
            forall|i: int| 0 <= i < order@.len() ==> (#[trigger] order@[i]) < n,
        decreases symbols.len() - n,
    {
        let s: &Symbol = &symbols[n];
        assert(models[n as int] == s@);
        if s.kind == STT_OBJECT && s.name.as_str().unicode_len() > 0 {
            let mut at: usize = order.len();
            assert(indices(order@).subrange(0, at as int) == indices(order@));
            while at > 0 && symbols[order[at - 1]].value > s.value
                invariant
                    at <= order@.len(),
                    n < symbols@.len(),
                    models == symbol_models(symbols@),
                    *s == symbols@[n as int],
                    forall|i: int| 0 <= i < order@.len() ==> (#[trigger] order@[i]) < n,
                    place(models, indices(order@), s.value) == place(
                        models,
                        indices(order@).subrange(0, at as int),
                        s.value,
                    ),
                decreases at,
            {
                proof {
                    let t = indices(order@).subrange(0, at as int);
                    assert(t.last() == order@[at - 1] as int);
                    assert(models[t.last()] == symbols@[order@[at - 1] as int]@);
                    assert(t.drop_last() == indices(order@).subrange(0, at - 1));
                }
                at -= 1;
            }
            proof {
                let t = indices(order@).subrange(0, at as int);
                if at > 0 {
                    assert(t.last() == order@[at - 1] as int);
                    assert(models[t.last()] == symbols@[order@[at - 1] as int]@);
                }
                assert(place(models, indices(order@), s.value) == at);
            }
            let ghost before = order@;
            order.insert(at, n);
            proof {
                assert(indices(order@) =~= indices(before).insert(at as int, n as int));
                assert forall|i: int| 0 <= i < order@.len() implies (#[trigger] order@[i]) < n
                    + 1 by {
                    if i < at {
                        assert(order@[i] == before[i]);
                    } else if i > at {
                        assert(order@[i] == before[i - 1]);
                    }
                }
            }
        }
        n += 1;
    }
    order
}

fn index_of(order: &[usize], sym: u32) -> (r: Option<usize>)
    ensures
        r matches Some(i) ==> map_index(indices(order@), sym as int) == Some(i as int),
        r is None ==> map_index(indices(order@), sym as int) is None,
{
    let ghost all = indices(order@);
    let mut n: usize = order.len();
    assert(all.subrange(0, n as int) == all);
    while n > 0
        invariant
            n <= order@.len(),
            all == indices(order@),
            map_index(all, sym as int) == map_index(all.subrange(0, n as int), sym as int),
        decreases n,
    {
        let ghost t = all.subrange(0, n as int);
        assert(t.last() == order@[n - 1] as int);
        assert(t.drop_last() == all.subrange(0, n - 1));
        if order[n - 1] as u64 % 0x1_0000_0000 == sym as u64 {
            return Some(n - 1);
        }
        n -= 1;
    }
    None
}

/// Only the low four bytes of an index are written.
#[verifier::rlimit(40)]
proof fn lemma_index_bytes(index: int)
    requires
        0 <= index,
    ensures
        le_bytes(index % 0x1_0000_0000, 4) == le_bytes(index, 4),
{
    let x = index % 0x1_0000_0000;
    let q = index / 0x1_0000_0000;
    assert(index == x + q * 0x1_0000_0000);
    let (x1, y1) = (x / 0x100, index / 0x100);
    assert(y1 == x1 + q * 0x100_0000 && x % 0x100 == index % 0x100);
    let (x2, y2) = (x1 / 0x100, y1 / 0x100);
    assert(y2 == x2 + q * 0x1_0000 && x1 % 0x100 == y1 % 0x100);
    let (x3, y3) = (x2 / 0x100, y2 / 0x100);
    assert(y3 == x3 + q * 0x100 && x2 % 0x100 == y2 % 0x100);
    assert(x3 % 0x100 == y3 % 0x100);
    assert(le_bytes(x3 / 0x100, 0) == le_bytes(y3 / 0x100, 0));
    assert(le_bytes(x3, 1) == le_bytes(y3, 1));
    assert(le_bytes(x2, 2) == le_bytes(y2, 2));
    assert(le_bytes(x1, 3) == le_bytes(y1, 3));
}

fn relocate(
    obj: &[u8],
    at: u128,
    symbols: &[Symbol],
    order: &[usize],
    text: &mut Vec<u8>,
) -> (r: Result<(), ElfError>)
    requires
        at + 16 <= u128::MAX,
    ensures
        r is Ok ==> relocated(
            obj@,
            at as int,
            symbol_models(symbols@),
            indices(order@),
            old(text)@,
        ) == Ok::<Seq<u8>, ElfErrorModel>(final(text)@),
        r matches Err(e) ==> relocated(
            obj@,
            at as int,
            symbol_models(symbols@),
            indices(order@),
            old(text)@,
        ) == Err::<Seq<u8>, ElfErrorModel>(e@),
{
    let len: u128 = obj.len() as u128;
    if at + 8 > len {
        return Err(ElfError::Truncated { what: "r_offset" });
    }
    if at + 16 > len {
        return Err(ElfError::Truncated { what: "r_info" });
    }
    let at: usize = at as usize;
    let offset: u64 = read_le64(obj, at);
    let info: u64 = read_le64(obj, at + 8);
    let kind: u32 = (info % 0x1_0000_0000) as u32;
    let sym: u32 = (info / 0x1_0000_0000) as u32;
    if kind != R_BPF_64_64 {
        return Err(ElfError::UnknownRelocation { kind });
    }
    let room: usize = text.len();
    if offset as u128 + 2 * INSN_LEN as u128 > room as u128 {
        return Err(ElfError::RelocationOutOfRange { offset });
    }
    match index_of(order, sym) {
        None => {
            let name: String = if (sym as u64) < symbols.len() as u64 {
                let ghost model = symbol_models(symbols@)[sym as int];
                let name: String = symbols[sym as usize].name.clone();
                assert(name@ == model.name);
                name
            } else {
                let mut out: String = String::new();
                push_dec(&mut out, sym as u64);
                out
            };
            Err(ElfError::UnresolvedSymbol { name })
        },
        Some(index) => {
            let off: usize = offset as usize;
            let low: Vec<u8> = to_le_bytes(index as u64 % 0x1_0000_0000, 4);
            let high: Vec<u8> = to_le_bytes(0, 4);
            proof {
                lemma_index_bytes(index as int);
                lemma_le_bytes_len(index as int, 4);
                lemma_le_bytes_len(0, 4);
            }
            write_at(text.as_mut_slice(), off + 4, low.as_slice());
            write_at(text.as_mut_slice(), off + INSN_LEN + 4, high.as_slice());
            Ok(())
        },
    }
}

fn relocate_by(
    obj: &[u8],
    rel: RawSection,
    symbols: &[Symbol],
    order: &[usize],
    text: &mut Vec<u8>,
) -> (r: Result<(), ElfError>)
    ensures
        r is Ok ==> relocated_by(
            obj@,
            rel,
            symbol_models(symbols@),
            indices(order@),
            old(text)@,
            rel.size as int / entry_len(rel.entsize, REL_LEN),
        ) == Ok::<Seq<u8>, ElfErrorModel>(final(text)@),
        r matches Err(e) ==> relocated_by(
            obj@,
            rel,
            symbol_models(symbols@),
            indices(order@),
            old(text)@,
            rel.size as int / entry_len(rel.entsize, REL_LEN),
        ) == Err::<Seq<u8>, ElfErrorModel>(e@),
{
    let len: u64 = if rel.entsize == 0 {
        REL_LEN
    } else {
        rel.entsize
    };
    let count: u64 = rel.size / len;
    let ghost models = symbol_models(symbols@);
    let ghost places = indices(order@);
    let mut i: u64 = 0;
    while i < count
        invariant
            i <= count,
            len == entry_len(rel.entsize, REL_LEN),
            len > 0,
            count == rel.size as int / len as int,
            models == symbol_models(symbols@),
            places == indices(order@),
            relocated_by(obj@, rel, models, places, old(text)@, i as int) == Ok::<
                Seq<u8>,
                ElfErrorModel,
            >(text@),
        decreases count - i,
    {
        proof {
            lemma_entry_at(rel.size, len as int, i as int);
        }
        let at: u128 = rel.offset as u128 + i as u128 * len as u128;
        match relocate(obj, at, symbols, order, text) {
            Ok(()) => {},
            Err(e) => {
                proof {
                    lemma_relocations_stop(
                        obj@,
                        rel,
                        models,
                        places,
                        old(text)@,
                        i + 1,
                        count as int,
                    );
                }
                return Err(e);
            },
        }
        i += 1;
    }
    Ok(())
}

/// The first relocation that fails decides.
proof fn lemma_relocations_stop(
    obj: Seq<u8>,
    rel: RawSection,
    symbols: Seq<SymbolModel>,
    order: Seq<int>,
    text: Seq<u8>,
    k: int,
    n: int,
)
    requires
        k <= n,
        relocated_by(obj, rel, symbols, order, text, k) is Err,
    ensures
        relocated_by(obj, rel, symbols, order, text, n) == relocated_by(
            obj,
            rel,
            symbols,
            order,
            text,
            k,
        ),
    decreases n - k,
{
    if k < n {
        lemma_relocations_stop(obj, rel, symbols, order, text, k, n - 1);
    }
}

/// The first section whose relocations fail decides.
proof fn lemma_sections_relocated_stop(
    obj: Seq<u8>,
    raws: Seq<RawSection>,
    names: Seq<Seq<char>>,
    symbols: Seq<SymbolModel>,
    text: Seq<u8>,
    k: int,
    n: int,
)
    requires
        k <= n,
        all_relocated(obj, raws, names, symbols, text, k) is Err,
    ensures
        all_relocated(obj, raws, names, symbols, text, n) == all_relocated(
            obj,
            raws,
            names,
            symbols,
            text,
            k,
        ),
    decreases n - k,
{
    if k < n {
        lemma_sections_relocated_stop(obj, raws, names, symbols, text, k, n - 1);
    }
}

/// Apply every relocation against `.text`, section by section.
fn relocate_all(
    obj: &[u8],
    raws: &[RawSection],
    names: &[String],
    symbols: &[Symbol],
    text: &mut Vec<u8>,
) -> (r: Result<(), ElfError>)
    requires
        names@.len() == raws@.len(),
    ensures
        r is Ok ==> all_relocated(
            obj@,
            raws@,
            texts(names@),
            symbol_models(symbols@),
            old(text)@,
            raws@.len() as int,
        ) == Ok::<Seq<u8>, ElfErrorModel>(final(text)@),
        r matches Err(e) ==> all_relocated(
            obj@,
            raws@,
            texts(names@),
            symbol_models(symbols@),
            old(text)@,
            raws@.len() as int,
        ) == Err::<Seq<u8>, ElfErrorModel>(e@),
{
    let order: Vec<usize> = order_maps(symbols);
    let ghost models = symbol_models(symbols@);
    let ghost code = text@;
    let mut n: usize = 0;
    while n < raws.len()
        invariant
            n <= raws@.len(),
            names@.len() == raws@.len(),
            code == old(text)@,
            models == symbol_models(symbols@),
            indices(order@) == ordered(models, models.len() as int),
            all_relocated(obj@, raws@, texts(names@), models, code, n as int) == Ok::<
                Seq<u8>,
                ElfErrorModel,
            >(text@),
        decreases raws.len() - n,
    {
        if raws[n].kind == SHT_REL && same(names[n].as_str(), ".rel.text") {
            match relocate_by(obj, raws[n], symbols, order.as_slice(), text) {
                Ok(()) => {},
                Err(e) => {
                    proof {
                        lemma_sections_relocated_stop(
                            obj@,
                            raws@,
                            texts(names@),
                            models,
                            code,
                            n + 1,
                            raws@.len() as int,
                        );
                    }
                    return Err(e);
                },
            }
        }
        n += 1;
    }
    Ok(())
}

/// The symbols as they were read, as models.
pub open spec fn symbols_given(symbols: Result<Vec<Symbol>, ElfError>) -> Result<
    Seq<SymbolModel>,
    ElfErrorModel,
> {
    match symbols {
        Ok(s) => Ok(symbol_models(s@)),
        Err(e) => Err(e@),
    }
}

fn link(obj: &[u8], raws: &[RawSection], strndx: usize) -> (r: Result<Program, ElfError>)
    ensures
        r matches Ok(p) ==> linked(obj@, raws@, strndx as int) == Ok::<ProgramModel, ElfErrorModel>(
            p@,
        ),
        r matches Err(e) ==> linked(obj@, raws@, strndx as int) == Err::<
            ProgramModel,
            ElfErrorModel,
        >(e@),
{
    if strndx >= raws.len() {
        return Err(ElfError::Truncated { what: "shstrtab" });
    }
    let names: Vec<String> = read_names(obj, raws, strndx);
    assert(texts(names@).len() == raws@.len());
    link_by_name(obj, raws, names.as_slice(), read_symbols(obj, raws))
}

/// Relocate the `.text` of an object whose sections have `names`, one for each,
/// and whose symbols are `symbols`.
///
/// # Errors
/// [`ElfError`] naming the structural claim that failed.
pub fn link_by_name(
    obj: &[u8],
    raws: &[RawSection],
    names: &[String],
    symbols: Result<Vec<Symbol>, ElfError>,
) -> (r: Result<Program, ElfError>)
    requires
        names@.len() == raws@.len(),
    ensures
        r matches Ok(p) ==> linked_by_name(obj@, raws@, texts(names@), symbols_given(symbols))
            == Ok::<ProgramModel, ElfErrorModel>(p@),
        r matches Err(e) ==> linked_by_name(obj@, raws@, texts(names@), symbols_given(symbols))
            == Err::<ProgramModel, ElfErrorModel>(e@),
{
    let at: usize = find_named(names, ".text");
    if at >= raws.len() {
        return Err(ElfError::NoText);
    }
    let sec: RawSection = raws[at];
    if sec.offset as u128 + sec.size as u128 > obj.len() as u128 {
        return Err(ElfError::Truncated { what: ".text" });
    }
    let start: usize = sec.offset as usize;
    let end: usize = (sec.offset as u128 + sec.size as u128) as usize;
    let mut text: Vec<u8> = Vec::new();
    text.extend_from_slice(&obj[start..end]);
    let ghost code = obj@.subrange(start as int, end as int);
    assert(text@ =~= code);
    let symbols: Vec<Symbol> = match symbols {
        Ok(s) => s,
        Err(e) => {
            return Err(e);
        },
    };
    if let Err(e) = relocate_all(obj, raws, names, symbols.as_slice(), &mut text) {
        return Err(e);
    }
    let order: Vec<usize> = order_maps(symbols.as_slice());
    let ghost models = symbol_models(symbols@);
    let mut maps: Vec<MapRef> = Vec::new();
    let mut i: usize = 0;
    while i < order.len()
        invariant
            i <= order@.len(),
            maps@.len() == i,
            models == symbol_models(symbols@),
            indices(order@) == ordered(models, models.len() as int),
            forall|j: int| 0 <= j < order@.len() ==> (#[trigger] order@[j]) < symbols@.len(),
            forall|j: int| 0 <= j < i ==> (#[trigger] maps@[j])@ == maps_of(models)[j],
        decreases order.len() - i,
    {
        let name: String = symbols[order[i]].name.clone();
        assert(indices(order@)[i as int] == order@[i as int] as int);
        assert(models[order@[i as int] as int] == symbols@[order@[i as int] as int]@);
        maps.push(MapRef::new(name));
        i += 1;
    }
    let p = Program { text, maps };
    assert(indices(order@).len() == order@.len());
    assert(p@.maps =~= maps_of(models));
    Ok(p)
}

/// Parse and relocate a BPF object.
pub fn load(obj: &[u8]) -> (r: Result<Program, ElfError>)
    ensures
        r matches Ok(p) ==> loaded(obj@) == Ok::<ProgramModel, ElfErrorModel>(p@),
        r matches Err(e) ==> loaded(obj@) == Err::<ProgramModel, ElfErrorModel>(e@),
{
    if obj.len() < EHDR_LEN {
        return Err(ElfError::NotElf);
    }
    let magic: bool = obj[0] == 0x7f && obj[1] == 0x45 && obj[2] == 0x4c && obj[3] == 0x46;
    proof {
        let want = seq![0x7fu8, 0x45u8, 0x4cu8, 0x46u8];
        let found = obj@.subrange(0, 4);
        if magic {
            assert(found =~= want);
        } else if found == want {
            assert(found[0] == want[0] && found[1] == want[1] && found[2] == want[2] && found[3]
                == want[3]);
        }
    }
    if !magic {
        return Err(ElfError::NotElf);
    }
    if obj[4] != 2 || obj[5] != 1 {
        return Err(ElfError::NotElf64Le);
    }
    let machine: u16 = read_le16(obj, 18);
    if machine != MACHINE_BPF {
        return Err(ElfError::NotBpf { machine });
    }
    let shoff: u64 = read_le64(obj, 40);
    let shnum: u16 = read_le16(obj, 60);
    let strndx: u16 = read_le16(obj, 62);
    match read_sections(obj, shoff, shnum) {
        Ok(raws) => link(obj, raws.as_slice(), strndx as usize),
        Err(e) => Err(e),
    }
}

/// Every relocation names a map: an index is always below the number of maps.
pub proof fn law_relocations_name_maps(symbols: Seq<SymbolModel>, sym: int)
    ensures
        map_index(ordered(symbols, symbols.len() as int), sym) matches Some(i) ==> 0 <= i
            < maps_of(symbols).len(),
{
    lemma_map_index_bound(ordered(symbols, symbols.len() as int), sym);
}

proof fn lemma_map_index_bound(order: Seq<int>, sym: int)
    ensures
        map_index(order, sym) matches Some(i) ==> 0 <= i < order.len() && order[i] % 0x1_0000_0000
            == sym,
    decreases order.len(),
{
    if order.len() > 0 && order.last() % 0x1_0000_0000 != sym {
        lemma_map_index_bound(order.drop_last(), sym);
    }
}

proof fn lemma_place(symbols: Seq<SymbolModel>, order: Seq<int>, value: u64)
    requires
        forall|i: int, j: int|
            0 <= i < j < order.len() ==> symbols[#[trigger] order[i]].value
                <= symbols[#[trigger] order[j]].value,
    ensures
        0 <= place(symbols, order, value) <= order.len(),
        forall|i: int|
            0 <= i < place(symbols, order, value) ==> symbols[#[trigger] order[i]].value <= value,
        forall|i: int|
            place(symbols, order, value) <= i < order.len() ==> value
                < symbols[#[trigger] order[i]].value,
    decreases order.len(),
{
    if order.len() > 0 {
        if symbols[order.last()].value <= value {
            assert forall|i: int| 0 <= i < order.len() implies symbols[#[trigger] order[i]].value
                <= value by {
                if i < order.len() - 1 {
                    assert(symbols[order[i]].value <= symbols[order[order.len() - 1]].value);
                }
            }
        } else {
            let t = order.drop_last();
            assert forall|i: int, j: int| 0 <= i < j < t.len() implies symbols[#[trigger] t[i]].value
                <= symbols[#[trigger] t[j]].value by {
                assert(t[i] == order[i] && t[j] == order[j]);
            }
            lemma_place(symbols, t, value);
            let p = place(symbols, t, value);
            assert forall|i: int| 0 <= i < p implies symbols[#[trigger] order[i]].value <= value by {
                assert(t[i] == order[i]);
            }
            assert forall|i: int| p <= i < order.len() implies value < symbols[#[trigger] order[i]].value by {
                if i < t.len() {
                    assert(t[i] == order[i]);
                }
            }
        }
    }
}

/// Maps are numbered by address, and every map definition gets a number: the
/// order holds each of the map symbols once, and nothing else.
pub proof fn law_maps_are_numbered_by_address(symbols: Seq<SymbolModel>, n: int)
    requires
        0 <= n <= symbols.len(),
    ensures
        forall|i: int, j: int|
            0 <= i < j < ordered(symbols, n).len() ==> symbols[#[trigger] ordered(
                symbols,
                n,
            )[i]].value <= symbols[#[trigger] ordered(symbols, n)[j]].value,
        ordered(symbols, n).no_duplicates(),
        forall|s: int|
            #![trigger ordered(symbols, n).contains(s)]
            ordered(symbols, n).contains(s) <==> 0 <= s < n && symbols[s].is_map(),
    decreases n,
{
    if n > 0 {
        law_maps_are_numbered_by_address(symbols, n - 1);
        let before = ordered(symbols, n - 1);
        let after = ordered(symbols, n);
        if symbols[n - 1].is_map() {
            let v = symbols[n - 1].value;
            lemma_place(symbols, before, v);
            let p = place(symbols, before, v);
            assert(after == before.insert(p, n - 1));
            assert(!before.contains(n - 1));
            assert forall|i: int| 0 <= i < after.len() implies (#[trigger] after[i]) == (if i < p {
                before[i]
            } else if i == p {
                n - 1
            } else {
                before[i - 1]
            }) by {}
            assert forall|i: int, j: int| 0 <= i < j < after.len() implies symbols[#[trigger] after[i]].value
                <= symbols[#[trigger] after[j]].value by {
                if i < p && j < p {
                    assert(symbols[before[i]].value <= symbols[before[j]].value);
                } else if i < p && j > p {
                    assert(symbols[before[i]].value <= v);
                    assert(v < symbols[before[j - 1]].value);
                } else if i == p {
                    assert(v < symbols[before[j - 1]].value);
                } else if j == p {
                    assert(symbols[before[i]].value <= v);
                } else {
                    assert(symbols[before[i - 1]].value <= symbols[before[j - 1]].value);
                }
            }
            assert forall|i: int, j: int| 0 <= i < after.len() && 0 <= j < after.len() && i
                != j implies after[i] != after[j] by {
                let x = if i < p {
                    i
                } else {
                    i - 1
                };
                let y = if j < p {
                    j
                } else {
                    j - 1
                };
                if i == p {
                    assert(before.contains(before[y]));
                } else if j == p {
                    assert(before.contains(before[x]));
                }
            }
            assert forall|s: int| #![trigger after.contains(s)] after.contains(s) <==> 0 <= s < n
                && symbols[s].is_map() by {
                if after.contains(s) {
                    let i = choose|i: int| 0 <= i < after.len() && after[i] == s;
                    if i < p {
                        assert(before.contains(before[i]));
                    } else if i > p {
                        assert(before.contains(before[i - 1]));
                    }
                }
                if 0 <= s < n && symbols[s].is_map() {
                    if s == n - 1 {
                        assert(after[p] == s);
                    } else {
                        assert(before.contains(s));
                        let i = choose|i: int| 0 <= i < before.len() && before[i] == s;
                        if i < p {
                            assert(after[i] == s);
                        } else {
                            assert(after[i + 1] == s);
                        }
                    }
                }
            }
        }
    } else {
        assert(ordered(symbols, n) =~= Seq::<int>::empty());
    }
}

/// What an object must be before anything of it is read: an ELF file with a
/// whole header, 64-bit and little-endian, for the BPF machine.
pub proof fn law_objects_are_checked_first(obj: Seq<u8>)
    ensures
        ({
            let elf = obj.len() >= 64 && obj[0] == 0x7f && obj[1] == 0x45 && obj[2] == 0x4c && obj[3]
                == 0x46;
            let machine = obj[18] + obj[19] * 0x100;
            &&& !elf ==> loaded(obj) == Err::<ProgramModel, ElfErrorModel>(ElfErrorModel::NotElf)
            &&& elf && !(obj[4] == 2 && obj[5] == 1) ==> loaded(obj) == Err::<
                ProgramModel,
                ElfErrorModel,
            >(ElfErrorModel::NotElf64Le)
            &&& elf && obj[4] == 2 && obj[5] == 1 && machine != 247 ==> loaded(obj) == Err::<
                ProgramModel,
                ElfErrorModel,
            >(ElfErrorModel::NotBpf { machine: machine as u16 })
        }),
{
    if obj.len() >= 64 {
        let head = obj.subrange(0, 4);
        let magic = seq![0x7fu8, 0x45u8, 0x4cu8, 0x46u8];
        assert(head[0] == obj[0] && head[1] == obj[1] && head[2] == obj[2] && head[3] == obj[3]);
        if obj[0] == 0x7f && obj[1] == 0x45 && obj[2] == 0x4c && obj[3] == 0x46 {
            assert(head =~= magic);
        } else {
            assert(magic[0] == 0x7f && magic[1] == 0x45 && magic[2] == 0x4c && magic[3] == 0x46);
        }
    }
}

/// A section header is sixty-four bytes, its fields at fixed offsets, least
/// significant byte first.
pub proof fn law_section_headers(obj: Seq<u8>, at: int)
    requires
        0 <= at,
    ensures
        raw_section(obj, at) is Ok <==> at + 64 <= obj.len(),
        raw_section(obj, at) matches Ok(s) ==> {
            &&& s.name == obj[at] + obj[at + 1] * 0x100 + obj[at + 2] * 0x1_0000 + obj[at + 3]
                * 0x100_0000
            &&& s.kind == obj[at + 4] + obj[at + 5] * 0x100 + obj[at + 6] * 0x1_0000 + obj[at + 7]
                * 0x100_0000
            &&& s.offset == le64(obj, at + 24)
            &&& s.size == le64(obj, at + 32)
            &&& s.link == obj[at + 40] + obj[at + 41] * 0x100 + obj[at + 42] * 0x1_0000 + obj[at
                + 43] * 0x100_0000
            &&& s.entsize == le64(obj, at + 56)
        },
{
}

/// A relocation puts the index of its map into the low half of a two-word load
/// and zero into the high half, and leaves every other byte of the code alone.
#[verifier::rlimit(40)]
pub proof fn law_relocations_write_the_map_index(
    obj: Seq<u8>,
    at: int,
    symbols: Seq<SymbolModel>,
    order: Seq<int>,
    text: Seq<u8>,
    index: int,
    i: int,
)
    requires
        0 <= at,
        at + 16 <= obj.len(),
        le64(obj, at) + 16 <= text.len(),
        le64(obj, at + 8) % 0x1_0000_0000 == 1,
        map_index(order, le64(obj, at + 8) / 0x1_0000_0000) == Some(index),
        0 <= index < 0x1_0000_0000,
        0 <= i < text.len(),
    ensures
        relocated(obj, at, symbols, order, text) is Ok,
        ({
            let out = relocated(obj, at, symbols, order, text)->Ok_0;
            let o = le64(obj, at);
            &&& out.len() == text.len()
            &&& out[o + 4] + out[o + 5] * 0x100 + out[o + 6] * 0x1_0000 + out[o + 7] * 0x100_0000
                == index
            &&& out[o + 12] == 0 && out[o + 13] == 0 && out[o + 14] == 0 && out[o + 15] == 0
            &&& !(o + 4 <= i < o + 8) && !(o + 12 <= i < o + 16) ==> out[i] == text[i]
        }),
{
    lemma_le_bytes_len(index, 4);
    lemma_le_bytes_len(0, 4);
    reveal_with_fuel(le_bytes, 5);
    let s = le_bytes(index, 4);
    let z = le_bytes(0, 4);
    let out = relocated(obj, at, symbols, order, text)->Ok_0;
    let o = le64(obj, at);
    assert(out[o + 4] == s[0] && out[o + 5] == s[1] && out[o + 6] == s[2] && out[o + 7] == s[3]);
    assert(out[o + 12] == z[0] && out[o + 13] == z[1] && out[o + 14] == z[2] && out[o + 15]
        == z[3]);
}

/// A relocation of another kind, one outside the code and one against anything
/// but a map are refused, in that order.
pub proof fn law_bad_relocations_are_refused(
    obj: Seq<u8>,
    at: int,
    symbols: Seq<SymbolModel>,
    order: Seq<int>,
    text: Seq<u8>,
)
    requires
        0 <= at,
        at + 16 <= obj.len(),
    ensures
        ({
            let kind = le64(obj, at + 8) % 0x1_0000_0000;
            let sym = le64(obj, at + 8) / 0x1_0000_0000;
            let r = relocated(obj, at, symbols, order, text);
            &&& kind != 1 ==> r == Err::<Seq<u8>, ElfErrorModel>(
                ElfErrorModel::UnknownRelocation { kind: kind as u32 },
            )
            &&& kind == 1 && le64(obj, at) + 16 > text.len() ==> r == Err::<
                Seq<u8>,
                ElfErrorModel,
            >(ElfErrorModel::RelocationOutOfRange { offset: le64(obj, at) as u64 })
            &&& kind == 1 && le64(obj, at) + 16 <= text.len() && map_index(order, sym) is None ==> r
                == Err::<Seq<u8>, ElfErrorModel>(
                ElfErrorModel::UnresolvedSymbol {
                    name: if sym < symbols.len() {
                        symbols[sym].name
                    } else {
                        dec(sym)
                    },
                },
            )
        }),
{
}

/// The index of a map is its place in the order of addresses.
pub proof fn law_a_map_is_found_by_its_symbol(order: Seq<int>, i: int)
    requires
        order.no_duplicates(),
        0 <= i < order.len(),
        forall|k: int| 0 <= k < order.len() ==> 0 <= #[trigger] order[k] < 0x1_0000_0000,
    ensures
        map_index(order, order[i]) == Some(i),
    decreases order.len(),
{
    assert(order[i] % 0x1_0000_0000 == order[i]);
    assert(order[order.len() - 1] % 0x1_0000_0000 == order[order.len() - 1]);
    if i < order.len() - 1 {
        assert(order[i] != order[order.len() - 1]);
        let t = order.drop_last();
        assert forall|k: int| 0 <= k < t.len() implies 0 <= #[trigger] t[k] < 0x1_0000_0000 by {
            assert(t[k] == order[k]);
        }
        assert forall|a: int, b: int| 0 <= a < t.len() && 0 <= b < t.len() && a != b implies t[a]
            != t[b] by {
            assert(order[a] != order[b]);
        }
        law_a_map_is_found_by_its_symbol(t, i);
        assert(t[i] == order[i]);
    }
}

/// What a map's symbol says: behind the name of the control stands that of the
/// table, and a trailing `_defaultAction` makes it the map of the action on a
/// miss.
pub proof fn law_map_symbols_name_their_table(control: Seq<char>, table: Seq<char>)
    requires
        forall|i: int| 0 <= i < control.len() ==> (#[trigger] control[i]) != '_',
    ensures
        ({
            let plain = control.push('_') + table;
            let default = plain + "_defaultAction"@;
            &&& map_of_symbol(default) == (MapModel { symbol: default, table, is_default: true })
            &&& !(plain.len() >= 14 && plain.subrange(plain.len() - 14, plain.len() as int)
                == "_defaultAction"@) ==> map_of_symbol(plain) == (MapModel {
                symbol: plain,
                table,
                is_default: false,
            })
        }),
{
    reveal_strlit("_defaultAction");
    let suffix = "_defaultAction"@;
    assert(suffix.len() == 14);
    let plain = control.push('_') + table;
    let default = plain + suffix;
    let at = control.len() as int;
    assert forall|j: int| 0 <= j < at implies plain[j] != '_' by {
        assert(plain[j] == control[j]);
    }
    assert(plain[at] == '_');
    crate::text::lemma_first_index(plain, '_', at);
    assert(plain.subrange(at + 1, plain.len() as int) =~= table);
    assert(default.subrange(default.len() - 14, default.len() as int) =~= suffix);
    assert(default.subrange(0, default.len() - 14) =~= plain);
}

/// An object whose code needs no relocation is loaded as it is: the program is
/// the bytes of its `.text`, and its maps are those of its symbols.
pub proof fn law_plain_code_is_kept(
    obj: Seq<u8>,
    raws: Seq<RawSection>,
    names: Seq<Seq<char>>,
    symbols: Seq<SymbolModel>,
    at: int,
)
    requires
        names.len() == raws.len(),
        0 <= at < names.len(),
        names[at] == ".text"@,
        forall|i: int| 0 <= i < at ==> (#[trigger] names[i]) != ".text"@,
        raws[at].offset + raws[at].size <= obj.len(),
        forall|i: int| 0 <= i < names.len() ==> (#[trigger] names[i]) != ".rel.text"@,
    ensures
        linked_by_name(obj, raws, names, Ok(symbols)) == Ok::<ProgramModel, ElfErrorModel>(
            ProgramModel {
                text: obj.subrange(raws[at].offset as int, raws[at].offset + raws[at].size),
                maps: maps_of(symbols),
            },
        ),
{
    lemma_first_named(names, ".text"@, 0, at);
    let text = obj.subrange(raws[at].offset as int, raws[at].offset + raws[at].size);
    lemma_nothing_to_relocate(obj, raws, names, symbols, text, raws.len() as int);
}

proof fn lemma_first_named(names: Seq<Seq<char>>, name: Seq<char>, from: int, at: int)
    requires
        0 <= from <= at < names.len(),
        names[at] == name,
        forall|i: int| from <= i < at ==> (#[trigger] names[i]) != name,
    ensures
        first_named(names, name, from) == at,
    decreases at - from,
{
    if from < at {
        lemma_first_named(names, name, from + 1, at);
    }
}

proof fn lemma_nothing_to_relocate(
    obj: Seq<u8>,
    raws: Seq<RawSection>,
    names: Seq<Seq<char>>,
    symbols: Seq<SymbolModel>,
    text: Seq<u8>,
    n: int,
)
    requires
        0 <= n <= raws.len(),
        names.len() == raws.len(),
        forall|i: int| 0 <= i < names.len() ==> (#[trigger] names[i]) != ".rel.text"@,
    ensures
        all_relocated(obj, raws, names, symbols, text, n) == Ok::<Seq<u8>, ElfErrorModel>(text),
    decreases n,
{
    if n > 0 {
        lemma_nothing_to_relocate(obj, raws, names, symbols, text, n - 1);
        assert(names[n - 1] != ".rel.text"@);
    }
}

/// The loadable maps of an object are its named data objects, in the order of
/// their addresses.
pub proof fn law_data_objects_are_maps(symbols: Seq<SymbolModel>, s: int)
    requires
        0 <= s < symbols.len(),
    ensures
        ordered(symbols, symbols.len() as int).contains(s) <==> symbols[s].kind == 1
            && symbols[s].name.len() > 0,
{
    law_maps_are_numbered_by_address(symbols, symbols.len() as int);
    assert(ordered(symbols, symbols.len() as int).contains(s) <==> symbols[s].is_map());
}

/// A symbol: the offset of its name, its kind in the lower half of the fifth
/// byte, and its value eight bytes in.
pub proof fn law_symbols(obj: Seq<u8>, at: int, strs: RawSection)
    requires
        0 <= at,
    ensures
        symbol_at(obj, at, strs) is Ok <==> at + 16 <= obj.len(),
        symbol_at(obj, at, strs) matches Ok(s) ==> {
            &&& s.kind == obj[at + 4] % 16
            &&& s.value == le64(obj, at + 8)
            &&& s.name == name_in(obj, strs.offset as int, strs.size as int, le32(obj, at))
        },
{
}

/// Section headers follow each other, sixty-four bytes each; all of them are
/// read or none.
pub proof fn law_section_tables(obj: Seq<u8>, shoff: int, n: int, i: int)
    requires
        0 <= i < n,
        0 <= shoff,
    ensures
        raw_sections(obj, shoff, n) matches Ok(s) ==> s.len() == n && raw_section(
            obj,
            shoff + i * 64,
        ) == Ok::<RawSection, Seq<char>>(s[i]),
        raw_section(obj, shoff + i * 64) is Err ==> raw_sections(obj, shoff, n) is Err,
    decreases n,
{
    if n > 1 {
        if i < n - 1 {
            law_section_tables(obj, shoff, n - 1, i);
        } else {
            law_section_tables(obj, shoff, n - 1, 0);
        }
    }
    reveal_with_fuel(raw_sections, 2);
}

/// An object whose section headers run past its end is truncated, and so is one
/// whose section names are in a section it does not have.
pub proof fn law_truncated_objects_are_refused(obj: Seq<u8>, i: int)
    requires
        obj.len() >= 64,
        obj[0] == 0x7f && obj[1] == 0x45 && obj[2] == 0x4c && obj[3] == 0x46,
        obj[4] == 2 && obj[5] == 1,
        obj[18] + obj[19] * 0x100 == 247,
        0 <= i < obj[60] + obj[61] * 0x100,
    ensures
        le64(obj, 40) + i * 64 + 64 > obj.len() ==> loaded(obj) is Err
            && loaded(obj)->Err_0 is Truncated,
        raw_sections(obj, le64(obj, 40), obj[60] + obj[61] * 0x100) is Ok && obj[62] + obj[63]
            * 0x100 >= obj[60] + obj[61] * 0x100 ==> loaded(obj) == Err::<
            ProgramModel,
            ElfErrorModel,
        >(ElfErrorModel::Truncated { what: "shstrtab"@ }),
{
    let head = obj.subrange(0, 4);
    let magic = seq![0x7fu8, 0x45u8, 0x4cu8, 0x46u8];
    assert(head =~= magic);
    let shoff = le64(obj, 40);
    let n = le16(obj, 60);
    law_section_tables(obj, shoff, n, i);
    law_section_headers(obj, shoff + i * 64);
    if let Ok(raws) = raw_sections(obj, shoff, n) {
        assert(raws.len() == n);
    }
}

} // verus!
