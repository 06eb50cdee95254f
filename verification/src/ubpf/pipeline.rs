//! A program on the bytecode backend, as a pipeline.
//!
//! Generated code reaches a table through a *host* call, so the tables are the
//! switch's own and sit behind the usual copy-on-write publication. A shard
//! reads a snapshot, the control plane publishes another, and the machine only
//! ever sees the value bytes a lookup produced.
//!
//! What this module owns is the translation at the two edges: the typed
//! control plane into the C struct images that were compiled in, and the
//! machine's output port back into a [`Verdict`].
use crate::catalog::{Backend, Program, Selection};
use crate::engine::Verdict;
use crate::frame::FrameCtx;
use crate::lpm::mask_of;
use crate::named::NamedTexts;
use crate::net::Ipv4Addr;
use crate::ops::{
    canonical, described, dumped_before, entry_models, is_dump, lists_keys, named_params,
    schema_models, Call, Style, SurfaceModel, TableModel, TableOps,
};
use crate::programs::{l2fwd, l3fwd};
use crate::shim::{
    ActionSchema, EntryDesc, KeyKind, SchemaModel, TableError, TableErrorModel, TableSchema,
    TypedKey,
};
use crate::table::Shared;
use crate::text::same;
use crate::ubpf::abi::{
    abi_of, allowed, call_in, carries, field_in, fields_fit, id_of, image_of, key_bytes, key_image,
    key_in, key_of, law_call_round_trip, law_key_round_trip, law_shipped_shapes_carry_their_schemas,
    lemma_image_order, lemma_masked_image, lemma_stored, schema_of, schemas_of, shape_of,
    typed_value, value_bytes, ActionAbi, TableAbi,
};
use crate::bytes::{read_le, read_le32};
use crate::ubpf::elf::{self, loaded, ElfError, ElfErrorModel, MapModel, ProgramModel};
use crate::ubpf::table::{
    contents, covering, in_order, listed_before, masked, Entry, ImageTable, Layout, Match, Table,
};
use crate::ubpf::vm::{result_model, table_models, tables_wf, Outcome, VmError, VmErrorModel, NO_PORT};
use crate::value::{TypedVal, ValKind};
use vstd::prelude::*;

verus! {

/// The output port that means delivery to the control channel.
pub const PUNT_PORT: u32 = 65535;

/// The output port that means every vport but the ingress one.
pub const BROADCAST_PORT: u32 = 65534;

/// Largest frame this backend will hand the machine.
pub const MTU: usize = 2048;

/// Why a program could not be loaded on this backend.
#[derive(Debug)]
pub enum LoadError {
    /// The object does not load.
    Object(ElfError),
    /// The object refers to a table that the program does not have.
    NoShape {
        /// The table.
        table: String,
    },
    /// The object has no map for the table's entries.
    NoEntryMap,
    /// The object has no map for the table's action on a miss.
    NoDefaultMap,
}

/// A [`LoadError`] with its texts as characters.
#[verifier::ext_equal]
pub enum LoadErrorModel {
    Object(ElfErrorModel),
    NoShape { table: Seq<char> },
    NoEntryMap,
    NoDefaultMap,
}

impl View for LoadError {
    type V = LoadErrorModel;

    open spec fn view(&self) -> LoadErrorModel {
        match *self {
            LoadError::Object(e) => LoadErrorModel::Object(e@),
            LoadError::NoShape { table } => LoadErrorModel::NoShape { table: table@ },
            LoadError::NoEntryMap => LoadErrorModel::NoEntryMap,
            LoadError::NoDefaultMap => LoadErrorModel::NoDefaultMap,
        }
    }
}

/// The first map from `from` on with this role, or the number of maps.
pub open spec fn first_map(maps: Seq<MapModel>, is_default: bool, from: int) -> int
    decreases maps.len() - from,
{
    if from < 0 || from >= maps.len() {
        maps.len() as int
    } else if maps[from].is_default == is_default {
        from
    } else {
        first_map(maps, is_default, from + 1)
    }
}

/// The first map from `from` on that belongs to another table than `name`, or
/// the number of maps.
pub open spec fn stranger(maps: Seq<MapModel>, name: Seq<char>, from: int) -> int
    decreases maps.len() - from,
{
    if from < 0 || from >= maps.len() {
        maps.len() as int
    } else if maps[from].table != name {
        from
    } else {
        stranger(maps, name, from + 1)
    }
}

/// What `object` is as `program`, or why it cannot be it.
pub open spec fn accepted(program: Program, object: Seq<u8>) -> Result<
    ProgramModel,
    LoadErrorModel,
> {
    match loaded(object) {
        Err(e) => Err(LoadErrorModel::Object(e)),
        Ok(p) => {
            let other = stranger(p.maps, shape_of(program).name, 0);
            if other < p.maps.len() {
                Err(LoadErrorModel::NoShape { table: p.maps[other].table })
            } else if first_map(p.maps, false, 0) == p.maps.len() {
                Err(LoadErrorModel::NoEntryMap)
            } else if first_map(p.maps, true, 0) == p.maps.len() {
                Err(LoadErrorModel::NoDefaultMap)
            } else {
                Ok(p)
            }
        },
    }
}

/// The call that the source declares for a miss.
pub open spec fn declared_default(program: Program) -> Call {
    Call { action: shape_of(program).default as int, params: Seq::empty() }
}

/// The table that stands behind a map before the control plane touches it. A
/// default-action map always answers, with the declared action; an entry map
/// answers nothing.
pub open spec fn initial_table(program: Program, map: MapModel) -> ImageTable {
    let shape = shape_of(program);
    if map.is_default {
        ImageTable {
            matching: Match::Exact,
            layout: Layout {
                key: 4,
                value: shape.layout.value,
                action_at: 0,
                params_at: shape.layout.params_at,
                match_at: 0,
                match_len: 4,
            },
            entries: Map::empty(),
            default: Some(image_of(shape, declared_default(program))),
        }
    } else {
        ImageTable {
            matching: shape.matching,
            layout: shape.layout,
            entries: Map::empty(),
            default: None,
        }
    }
}

/// The entries of an entry map, as the control plane sees them.
pub open spec fn calls(program: Program, images: Map<(u8, Seq<u8>), Seq<u8>>) -> Map<
    TypedKey,
    Call,
> {
    Map::new(
        |k: TypedKey|
            k.spec_kind() == schema_of(program).key && images.contains_key(
                id_of(shape_of(program), k),
            ),
        |k: TypedKey|
            call_in(shape_of(program), schema_of(program), images[id_of(shape_of(program), k)]),
    )
}

/// A value image that encodes a call the schema allows.
pub open spec fn value_ok(program: Program, image: Seq<u8>) -> bool {
    let call = call_in(shape_of(program), schema_of(program), image);
    allowed(schema_of(program), call) && image_of(shape_of(program), call) == image
}

/// What an entry of the map is found by is what a key the control plane can
/// install is found by.
pub open spec fn id_ok(program: Program, id: (u8, Seq<u8>)) -> bool {
    let key = key_of(shape_of(program), schema_of(program).key, id);
    canonical(schema_of(program).key, key) == Some(key) && id_of(shape_of(program), key) == id
}

/// Every entry of the map is one that the control plane can install.
pub open spec fn entries_ok(program: Program, images: Map<(u8, Seq<u8>), Seq<u8>>) -> bool {
    forall|id: (u8, Seq<u8>)| #[trigger]
        images.contains_key(id) ==> id_ok(program, id) && value_ok(program, images[id])
}

/// What the control plane sees of the two maps of a table.
pub open spec fn table_of(program: Program, entry: ImageTable, default: ImageTable) -> TableModel {
    TableModel {
        style: Style::Image,
        schema: schema_of(program),
        entries: calls(program, entry.entries),
        default: call_in(shape_of(program), schema_of(program), default.default->0),
    }
}

/// The two maps of a table are in order.
pub open spec fn maps_ok(program: Program, entry: ImageTable, default: ImageTable) -> bool {
    &&& entry.matching == shape_of(program).matching
    &&& entry.layout == shape_of(program).layout
    &&& entry.default is None
    &&& entries_ok(program, entry.entries)
    &&& default.matching is Exact
    &&& default.layout == initial_table(
        program,
        MapModel { symbol: Seq::empty(), table: Seq::empty(), is_default: true },
    ).layout
    &&& default.entries == Map::<(u8, Seq<u8>), Seq<u8>>::empty()
    &&& default.default is Some
    &&& value_ok(program, default.default->0)
}

/// The name of a program on this backend.
pub open spec fn name_of(program: Program) -> Seq<char> {
    (Selection::P4 { program, backend: Backend::Ubpf }).spec_name()
}

/// A loaded pipeline of this backend.
#[derive(Debug)]
pub struct UbpfPipeline {
    which: Program,
    program: elf::Program,
    tables: Shared<Vec<Table>>,
    entry: usize,
    default: usize,
}

proof fn lemma_first_map(maps: Seq<MapModel>, is_default: bool, from: int)
    requires
        0 <= from <= maps.len(),
    ensures
        from <= first_map(maps, is_default, from) <= maps.len(),
        first_map(maps, is_default, from) < maps.len() ==> maps[first_map(
            maps,
            is_default,
            from,
        )].is_default == is_default,
    decreases maps.len() - from,
{
    if from < maps.len() && maps[from].is_default != is_default {
        lemma_first_map(maps, is_default, from + 1);
    }
}

proof fn lemma_declared_default(program: Program)
    ensures
        allowed(schema_of(program), declared_default(program)),
        value_ok(program, image_of(shape_of(program), declared_default(program))),
        call_in(
            shape_of(program),
            schema_of(program),
            image_of(shape_of(program), declared_default(program)),
        ) == declared_default(program),
{
    law_shipped_shapes_carry_their_schemas(program);
    law_call_round_trip(program, declared_default(program));
}

/// Installing an image under what a key is found by installs the call under
/// that key.
proof fn lemma_calls_insert(
    program: Program,
    images: Map<(u8, Seq<u8>), Seq<u8>>,
    key: TypedKey,
    call: Call,
)
    requires
        entries_ok(program, images),
        canonical(schema_of(program).key, key) == Some(key),
        allowed(schema_of(program), call),
    ensures
        ({
            let next = images.insert(
                id_of(shape_of(program), key),
                image_of(shape_of(program), call),
            );
            &&& entries_ok(program, next)
            &&& calls(program, next) == calls(program, images).insert(key, call)
        }),
{
    let id = id_of(shape_of(program), key);
    let image = image_of(shape_of(program), call);
    let next = images.insert(id, image);
    law_key_round_trip(program, key);
    law_call_round_trip(program, call);
    assert(id_ok(program, id));
    assert(value_ok(program, image));
    assert forall|k: TypedKey| #[trigger] calls(program, next).contains_key(k) == calls(
        program,
        images,
    ).insert(key, call).contains_key(k) && (calls(program, next).contains_key(k) ==> calls(
        program,
        next,
    )[k] == calls(program, images).insert(key, call)[k]) by {
        if k.spec_kind() == schema_of(program).key {
            law_key_round_trip(program, k);
        }
    }
    assert(calls(program, next) =~= calls(program, images).insert(key, call));
}

proof fn lemma_calls_remove(
    program: Program,
    images: Map<(u8, Seq<u8>), Seq<u8>>,
    key: TypedKey,
)
    requires
        entries_ok(program, images),
        canonical(schema_of(program).key, key) == Some(key),
    ensures
        ({
            let next = images.remove(id_of(shape_of(program), key));
            &&& entries_ok(program, next)
            &&& calls(program, next) == calls(program, images).remove(key)
        }),
{
    let next = images.remove(id_of(shape_of(program), key));
    law_key_round_trip(program, key);
    assert forall|k: TypedKey| #[trigger] calls(program, next).contains_key(k) == calls(
        program,
        images,
    ).remove(key).contains_key(k) by {
        if k.spec_kind() == schema_of(program).key {
            law_key_round_trip(program, k);
        }
    }
    assert(calls(program, next) =~= calls(program, images).remove(key));
}

/// The control plane sees as many entries as the map holds.
proof fn lemma_calls_size(program: Program, images: Map<(u8, Seq<u8>), Seq<u8>>)
    requires
        entries_ok(program, images),
        images.dom().finite(),
    ensures
        calls(program, images).dom().finite(),
        calls(program, images).dom().len() == images.dom().len(),
{
    let kind = schema_of(program).key;
    let shape = shape_of(program);
    let f = |id: (u8, Seq<u8>)| key_of(shape, kind, id);
    assert(images.dom().map(f) =~= calls(program, images).dom()) by {
        assert forall|k: TypedKey| calls(program, images).dom().contains(k) == #[trigger] images.dom().map(f).contains(k) by {
            if calls(program, images).dom().contains(k) {
                law_key_round_trip(program, k);
                assert(images.dom().contains(id_of(shape, k)));
                assert(f(id_of(shape, k)) == k);
            }
            if images.dom().map(f).contains(k) {
                let id = choose|id: (u8, Seq<u8>)| images.dom().contains(id) && f(id) == k;
                assert(images.contains_key(id));
                assert(id_ok(program, id));
            }
        }
    }
    assert forall|a: (u8, Seq<u8>), b: (u8, Seq<u8>)|
        images.dom().contains(a) && images.dom().contains(b) && #[trigger] f(a) == #[trigger] f(
            b,
        ) implies a == b by {
        assert(images.contains_key(a) && images.contains_key(b));
        assert(id_ok(program, a) && id_ok(program, b));
    }
    vstd::set_lib::lemma_map_size(images.dom(), calls(program, images).dom(), f);
}

/// The maps of a pipeline are in order.
spec fn pipeline_ok(p: UbpfPipeline) -> bool {
    let images = table_models(p.tables.value()@);
    &&& tables_wf(p.tables.value()@)
    &&& images.len() == p.program@.maps.len()
    &&& p.entry < images.len()
    &&& p.default < images.len()
    &&& p.entry != p.default
    &&& maps_ok(p.which, images[p.entry as int], images[p.default as int])
}

/// The tables, again.
fn copied(tables: &[Table]) -> (r: Vec<Table>)
    requires
        tables_wf(tables@),
    ensures
        tables_wf(r@),
        table_models(r@) == table_models(tables@),
        r@.len() == tables@.len(),
{
    let mut out: Vec<Table> = Vec::new();
    let mut i: usize = 0;
    while i < tables.len()
        invariant
            i <= tables@.len(),
            out@.len() == i,
            tables_wf(tables@),
            tables_wf(out@),
            forall|j: int| 0 <= j < i ==> (#[trigger] out@[j])@ == tables@[j]@,
        decreases tables.len() - i,
    {
        assert(tables@[i as int].wf());
        out.push(tables[i].clone());
        i += 1;
    }
    assert(table_models(out@) =~= table_models(tables@));
    out
}

impl UbpfPipeline {
    /// Which program it is.
    pub closed spec fn spec_which(&self) -> Program {
        self.which
    }

    /// The loaded object.
    pub closed spec fn spec_program(&self) -> ProgramModel {
        self.program@
    }

    /// The tables that the bytecode's lookups are answered from, in the order
    /// of the map indices in its instructions.
    pub closed spec fn images(&self) -> Seq<ImageTable> {
        table_models(self.tables.value()@)
    }

    /// The index of the map of the table's entries.
    pub closed spec fn entry_map(&self) -> int {
        self.entry as int
    }

    /// The index of the map of the table's action on a miss.
    pub closed spec fn default_map(&self) -> int {
        self.default as int
    }

    /// Load `object` as a program.
    ///
    /// # Errors
    /// [`LoadError`] if the object does not load, or does not have the maps
    /// that the program's table needs.
    fn new(which: Program, object: &[u8]) -> (r: Result<Self, LoadError>)
        ensures
            r matches Ok(p) ==> {
                &&& accepted(which, object@) == Ok::<ProgramModel, LoadErrorModel>(p.spec_program())
                &&& p.inv()
                &&& p.generation() == 0
                &&& p.spec_which() == which
                &&& p.entry_map() == first_map(p.spec_program().maps, false, 0)
                &&& p.default_map() == first_map(p.spec_program().maps, true, 0)
                &&& p.images() == Seq::new(
                    p.spec_program().maps.len(),
                    |i: int| initial_table(which, p.spec_program().maps[i]),
                )
                &&& p.surface() == (SurfaceModel {
                    owner: name_of(which),
                    table: Some(
                        TableModel::fresh(Style::Image, schema_of(which), declared_default(which)),
                    ),
                })
            },
            r matches Err(e) ==> accepted(which, object@) == Err::<ProgramModel, LoadErrorModel>(
                e@,
            ),
    {
        let program: elf::Program = match elf::load(object) {
            Ok(p) => p,
            Err(e) => {
                return Err(LoadError::Object(e));
            },
        };
        let abi: &'static TableAbi = abi_of(which);
        let ghost maps = program@.maps;
        let ghost shape = shape_of(which);
        let n: usize = program.maps.len();
        proof {
            law_shipped_shapes_carry_their_schemas(which);
            lemma_declared_default(which);
            assert(fields_fit(shape, schema_of(which), shape.default as int));
        }
        let mut tables: Vec<Table> = Vec::new();
        let mut entry: usize = n;
        let mut default: usize = n;
        let mut i: usize = 0;
        while i < n
            invariant
                i <= n,
                n == program.maps@.len() == maps.len(),
                maps == program@.maps,
                abi@ == shape,
                shape == shape_of(which),
                carries(shape, schema_of(which)),
                fields_fit(shape, schema_of(which), shape.default as int),
                accepted(which, object@) == (match loaded(object@) {
                    Ok(p) => accepted(which, object@),
                    Err(e) => Err(LoadErrorModel::Object(e)),
                }),
                loaded(object@) == Ok::<ProgramModel, ElfErrorModel>(program@),
                stranger(maps, shape.name, 0) == stranger(maps, shape.name, i as int),
                entry <= n,
                default <= n,
                entry < n ==> entry < i && first_map(maps, false, 0) == entry,
                entry == n ==> first_map(maps, false, 0) == first_map(maps, false, i as int),
                default < n ==> default < i && first_map(maps, true, 0) == default,
                default == n ==> first_map(maps, true, 0) == first_map(maps, true, i as int),
                tables_wf(tables@),
                tables@.len() == i,
                forall|j: int|
                    0 <= j < i ==> (#[trigger] tables@[j])@ == initial_table(which, maps[j]),
            decreases n - i,
        {
            let map: &elf::MapRef = &program.maps[i];
            assert(map@ == maps[i as int]);
            if !same(map.table.as_str(), abi.name) {
                return Err(LoadError::NoShape { table: map.table.clone() });
            }
            if map.is_default {
                let layout: Layout = Layout::explicit(
                    4,
                    abi.layout.value,
                    abi.layout.params_at,
                    0,
                    4,
                );
                let none: Vec<TypedVal> = Vec::new();
                assert(none@ =~= Seq::empty());
                let image: Vec<u8> = value_bytes(abi, abi.default, none.as_slice());
                tables.push(Table::new(Match::Exact, layout, Some(image)));
                if default == n {
                    default = i;
                }
            } else {
                tables.push(Table::new(abi.matching, abi.layout, None));
                if entry == n {
                    entry = i;
                }
            }
            i += 1;
        }
        if entry == n {
            return Err(LoadError::NoEntryMap);
        }
        if default == n {
            return Err(LoadError::NoDefaultMap);
        }
        proof {
            lemma_first_map(maps, false, 0);
            lemma_first_map(maps, true, 0);
        }
        let r = UbpfPipeline { which, program, tables: Shared::new(tables), entry, default };
        proof {
            assert(r.images() =~= Seq::new(maps.len(), |i: int| initial_table(which, maps[i])));
            assert(calls(which, Map::empty()) =~= Map::empty());
        }
        Ok(r)
    }

    /// The `l2fwd` program on this backend.
    ///
    /// # Errors
    /// [`LoadError`] if `object` cannot be that program.
    pub fn l2fwd(object: &[u8]) -> (r: Result<Self, LoadError>)
        ensures
            r matches Ok(p) ==> {
                &&& accepted(Program::L2Fwd, object@) == Ok::<ProgramModel, LoadErrorModel>(
                    p.spec_program(),
                )
                &&& p.inv()
                &&& p.generation() == 0
                &&& p.spec_which() == Program::L2Fwd
                &&& p.entry_map() == first_map(p.spec_program().maps, false, 0)
                &&& p.default_map() == first_map(p.spec_program().maps, true, 0)
                &&& p.images() == Seq::new(
                    p.spec_program().maps.len(),
                    |i: int| initial_table(Program::L2Fwd, p.spec_program().maps[i]),
                )
                &&& p.surface() == (SurfaceModel {
                    owner: "l2fwd/ubpf"@,
                    table: Some(
                        TableModel::fresh(
                            Style::Image,
                            l2fwd::schema_model(),
                            l2fwd::Action::Broadcast.call(),
                        ),
                    ),
                })
            },
            r matches Err(e) ==> accepted(Program::L2Fwd, object@) == Err::<
                ProgramModel,
                LoadErrorModel,
            >(e@),
    {
        UbpfPipeline::new(Program::L2Fwd, object)
    }

    /// The `l3fwd` program on this backend.
    ///
    /// # Errors
    /// [`LoadError`] if `object` cannot be that program.
    pub fn l3fwd(object: &[u8]) -> (r: Result<Self, LoadError>)
        ensures
            r matches Ok(p) ==> {
                &&& accepted(Program::L3Fwd, object@) == Ok::<ProgramModel, LoadErrorModel>(
                    p.spec_program(),
                )
                &&& p.inv()
                &&& p.generation() == 0
                &&& p.spec_which() == Program::L3Fwd
                &&& p.entry_map() == first_map(p.spec_program().maps, false, 0)
                &&& p.default_map() == first_map(p.spec_program().maps, true, 0)
                &&& p.images() == Seq::new(
                    p.spec_program().maps.len(),
                    |i: int| initial_table(Program::L3Fwd, p.spec_program().maps[i]),
                )
                &&& p.surface() == (SurfaceModel {
                    owner: "l3fwd/ubpf"@,
                    table: Some(
                        TableModel::fresh(
                            Style::Image,
                            l3fwd::schema_model(),
                            l3fwd::Action::Drop.call(),
                        ),
                    ),
                })
            },
            r matches Err(e) ==> accepted(Program::L3Fwd, object@) == Err::<
                ProgramModel,
                LoadErrorModel,
            >(e@),
    {
        UbpfPipeline::new(Program::L3Fwd, object)
    }

    /// Program name, as selected.
    #[must_use]
    pub fn name(&self) -> (r: &'static str)
        ensures
            r@ == self.surface().owner,
    {
        (Selection::P4 { program: self.which, backend: Backend::Ubpf }).name()
    }

    /// The loaded object.
    #[must_use]
    pub fn program(&self) -> (r: &elf::Program)
        ensures
            r@ == self.spec_program(),
    {
        &self.program
    }

    /// The published tables.
    #[must_use]
    pub fn published(&self) -> (r: &Shared<Vec<Table>>)
        ensures
            table_models(r.value()@) == self.images(),
            r.spec_version() == self.generation(),
            self.inv() ==> tables_wf(r.value()@),
    {
        &self.tables
    }

    fn own_schema(&self, table: &str) -> (r: Result<&'static TableSchema, TableError>)
        requires
            self.inv(),
        ensures
            r matches Ok(s) ==> s@ == schema_of(self.which) && table@ == s@.name,
            r matches Err(e) ==> self.surface().table(table@) == Err::<
                TableModel,
                TableErrorModel,
            >(e@),
    {
        self.schema(table)
    }

    /// Replace the published tables by the same with one of them changed.
    fn publish(&mut self, next: Vec<Table>)
        requires
            tables_wf(next@),
        ensures
            final(self).images() == table_models(next@),
            final(self).which == old(self).which,
            final(self).program == old(self).program,
            final(self).entry == old(self).entry,
            final(self).default == old(self).default,
            tables_wf(final(self).tables.value()@),
            old(self).generation() < u64::MAX ==> final(self).tables.continues(&old(self).tables)
                && final(self).generation() == old(self).generation() + 1,
    {
        self.tables.publish(next);
    }
}

impl TableOps for UbpfPipeline {
    closed spec fn inv(&self) -> bool {
        pipeline_ok(*self)
    }

    closed spec fn surface(&self) -> SurfaceModel {
        SurfaceModel {
            owner: name_of(self.which),
            table: Some(
                table_of(
                    self.which,
                    self.images()[self.entry as int],
                    self.images()[self.default as int],
                ),
            ),
        }
    }

    closed spec fn generation(&self) -> u64 {
        self.tables.spec_version()
    }

    open spec fn same_program(&self, before: &Self) -> bool {
        &&& self.spec_program() == before.spec_program()
        &&& self.spec_which() == before.spec_which()
        &&& self.entry_map() == before.entry_map()
        &&& self.default_map() == before.default_map()
        &&& self.images().len() == before.images().len()
        &&& forall|i: int|
            0 <= i < self.images().len() && i != self.entry_map() && i != self.default_map()
                ==> #[trigger] self.images()[i] == before.images()[i]
    }

    closed spec fn continues(&self, before: &Self) -> bool {
        self.same_program(before) && self.tables.continues(&before.tables)
    }

    proof fn lemma_continues(a: &Self, b: &Self, c: &Self) {
        if b.same_program(a) && c.same_program(b) {
            assert forall|i: int|
                0 <= i < c.images().len() && i != c.entry_map() && i
                    != c.default_map() implies #[trigger] c.images()[i] == a.images()[i] by {
                assert(b.images()[i] == a.images()[i]);
            }
        }
    }

    fn schemas(&self) -> (r: &'static [TableSchema]) {
        let r: &'static [TableSchema] = schemas_of(self.which);
        assert(schema_models(r@) =~= self.surface().schemas());
        r
    }

    fn table_add(&mut self, table: &str, key: TypedKey, action: &str, params: &[TypedVal]) -> (r:
        Result<(), TableError>) {
        let schema: &'static TableSchema = match self.own_schema(table) {
            Ok(s) => s,
            Err(e) => {
                return Err(e);
            },
        };
        if let Err(e) = check_key(schema, key) {
            return Err(e);
        }
        let place: usize = match checked_action(schema, action, params) {
            Ok(place) => place,
            Err(e) => {
                return Err(e);
            },
        };
        let abi: &'static TableAbi = abi_of(self.which);
        let ghost shape = shape_of(self.which);
        let ghost call = Call { action: place as int, params: params@ };
        let ghost stored = canonical(schema@.key, key)->0;
        let ghost before = self.images();
        proof {
            law_shipped_shapes_carry_their_schemas(self.which);
            assert(fields_fit(shape, schema@, place as int));
        }
        let image: Vec<u8> = key_bytes(abi, key.value());
        let prefix: u8 = prefix_of(key);
        let value: Vec<u8> = value_bytes(abi, place, params);
        let mut next: Vec<Table> = copied(self.tables.load().as_slice());
        let at: usize = self.entry;
        proof {
            assert(table_models(next@)[at as int] == next@[at as int]@);
            assert(before[at as int] == next@[at as int]@);
            lemma_canonical_stable(schema@.key, key);
            lemma_stored(self.which, before[at as int], key, prefix);
            lemma_calls_insert(self.which, before[at as int].entries, stored, call);
        }
        next[at].insert(image.as_slice(), prefix, value);
        let ghost models = table_models(next@);
        self.publish(next);
        proof {
            assert(models =~= before.update(at as int, models[at as int]));
            assert(self.images()[self.default as int] == before[self.default as int]);
        }
        Ok(())
    }

    fn table_remove(&mut self, table: &str, key: TypedKey) -> (r: Result<(), TableError>) {
        let schema: &'static TableSchema = match self.own_schema(table) {
            Ok(s) => s,
            Err(e) => {
                return Err(e);
            },
        };
        if let Err(e) = check_key(schema, key) {
            return Err(e);
        }
        let abi: &'static TableAbi = abi_of(self.which);
        let ghost stored = canonical(schema@.key, key)->0;
        let ghost before = self.images();
        proof {
            law_shipped_shapes_carry_their_schemas(self.which);
        }
        let image: Vec<u8> = key_bytes(abi, key.value());
        let prefix: u8 = prefix_of(key);
        let mut next: Vec<Table> = copied(self.tables.load().as_slice());
        let at: usize = self.entry;
        proof {
            assert(table_models(next@)[at as int] == next@[at as int]@);
            lemma_canonical_stable(schema@.key, key);
            lemma_stored(self.which, before[at as int], key, prefix);
            lemma_calls_remove(self.which, before[at as int].entries, stored);
        }
        let removed: bool = next[at].remove(image.as_slice(), prefix);
        let ghost models = table_models(next@);
        self.publish(next);
        let ghost entries = calls(self.which, before[at as int].entries);
        proof {
            assert(models =~= before.update(at as int, models[at as int]));
            assert(self.images()[self.default as int] == before[self.default as int]);
            assert(removed == entries.contains_key(stored));
        }
        if removed {
            Ok(())
        } else {
            assert(entries.remove(stored) =~= entries);
            Err(TableError::NotFound { table: schema.name, key: stored_key(schema, key).to_text() })
        }
    }

    fn table_dump(&self, table: &str) -> (r: Result<Vec<EntryDesc>, TableError>) {
        let schema: &'static TableSchema = match self.own_schema(table) {
            Ok(s) => s,
            Err(e) => {
                return Err(e);
            },
        };
        let abi: &'static TableAbi = abi_of(self.which);
        let snapshot = self.tables.load();
        let ghost entry = self.images()[self.entry as int];
        let ghost m = self.surface().table->0;
        assert(snapshot@[self.entry as int]@ == entry);
        assert(snapshot@[self.entry as int].wf());
        let list: &[Entry] = snapshot[self.entry].iter();
        let ghost keys: Seq<TypedKey> = Seq::new(
            list@.len(),
            |i: int| key_of(shape_of(self.which), schema@.key, list@[i].id()),
        );
        let mut out: Vec<EntryDesc> = Vec::new();
        let mut i: usize = 0;
        while i < list.len()
            invariant
                i <= list@.len(),
                out@.len() == i,
                schema@ == schema_of(self.which),
                abi@ == shape_of(self.which),
                in_order(list@),
                contents(list@) == entry.entries,
                entries_ok(self.which, entry.entries),
                m.style == Style::Image,
                m.schema == schema_of(self.which),
                m.entries == calls(self.which, entry.entries),
                keys == Seq::new(
                    list@.len(),
                    |i: int| key_of(shape_of(self.which), schema@.key, list@[i].id()),
                ),
                forall|j: int|
                    0 <= j < i ==> (#[trigger] out@[j])@ == described(
                        m.schema,
                        keys[j].spec_text(),
                        m.entries[keys[j]],
                    ),
            decreases list.len() - i,
        {
            let e: &Entry = &list[i];
            proof {
                lemma_entry(self.which, list@, i as int);
            }
            let key: TypedKey = key_in(abi, schema.key, e.prefix, e.key.as_slice());
            out.push(describe(self.which, schema, key.to_text(), e.value.as_slice()));
            i += 1;
        }
        proof {
            lemma_dump(self.which, list@, keys);
            assert(is_dump(m, entry_models(out@), keys));
        }
        Ok(out)
    }

    fn table_default(&self, table: &str) -> (r: Result<EntryDesc, TableError>) {
        let schema: &'static TableSchema = match self.own_schema(table) {
            Ok(s) => s,
            Err(e) => {
                return Err(e);
            },
        };
        let snapshot = self.tables.load();
        let ghost default = self.images()[self.default as int];
        assert(snapshot@[self.default as int]@ == default);
        assert(snapshot@[self.default as int].wf());
        let key: [u8; 4] = [0, 0, 0, 0];
        match snapshot[self.default].lookup(key.as_slice()) {
            Some(value) => {
                assert(value@ == default.default->0);
                Ok(describe(self.which, schema, "*".to_owned(), value))
            },
            None => {
                assert(default.answer(key@) is Some);
                Err(TableError::NoTables { pipeline: self.name() })
            },
        }
    }

    fn table_set_default(&mut self, table: &str, action: &str, params: &[TypedVal]) -> (r: Result<
        (),
        TableError,
    >) {
        let schema: &'static TableSchema = match self.own_schema(table) {
            Ok(s) => s,
            Err(e) => {
                return Err(e);
            },
        };
        let place: usize = match checked_action(schema, action, params) {
            Ok(place) => place,
            Err(e) => {
                return Err(e);
            },
        };
        let abi: &'static TableAbi = abi_of(self.which);
        let ghost call = Call { action: place as int, params: params@ };
        let ghost before = self.images();
        proof {
            law_shipped_shapes_carry_their_schemas(self.which);
            assert(fields_fit(shape_of(self.which), schema@, place as int));
            law_call_round_trip(self.which, call);
        }
        let value: Vec<u8> = value_bytes(abi, place, params);
        let mut next: Vec<Table> = copied(self.tables.load().as_slice());
        let at: usize = self.default;
        proof {
            assert(table_models(next@)[at as int] == next@[at as int]@);
        }
        next[at].set_default(value);
        let ghost models = table_models(next@);
        self.publish(next);
        proof {
            assert(models =~= before.update(at as int, models[at as int]));
            assert(self.images()[self.entry as int] == before[self.entry as int]);
        }
        Ok(())
    }

    fn table_clear(&mut self, table: &str) -> (r: Result<usize, TableError>) {
        if let Err(e) = self.own_schema(table) {
            return Err(e);
        }
        let ghost before = self.images();
        let mut next: Vec<Table> = copied(self.tables.load().as_slice());
        let at: usize = self.entry;
        proof {
            assert(table_models(next@)[at as int] == next@[at as int]@);
        }
        let n: usize = next[at].len();
        proof {
            lemma_calls_size(self.which, before[at as int].entries);
        }
        next[at].clear();
        let ghost models = table_models(next@);
        self.publish(next);
        proof {
            assert(models =~= before.update(at as int, models[at as int]));
            assert(self.images()[self.default as int] == before[self.default as int]);
            assert(calls(self.which, Map::empty()) =~= Map::empty());
        }
        Ok(n)
    }
}

/// Whether a table of this schema stores keys like this one.
fn check_key(schema: &TableSchema, key: TypedKey) -> (r: Result<(), TableError>)
    ensures
        r is Ok <==> canonical(schema@.key, key) is Some,
        r matches Err(e) ==> e@ == (TableErrorModel::KeyKindMismatch {
            table: schema@.name,
            want: schema@.key,
            got: key.spec_kind(),
        }),
{
    let ok: bool = key.kind() == schema.key && match key {
        TypedKey::Exact(_) => true,
        TypedKey::Lpm { value, prefix_len } => prefix_len <= value.kind().width(),
    };
    if ok {
        Ok(())
    } else {
        Err(TableError::KeyKindMismatch { table: schema.name, want: schema.key, got: key.kind() })
    }
}

/// The prefix length of a key; an exact key has none.
fn prefix_of(key: TypedKey) -> (r: u8)
    ensures
        key matches TypedKey::Lpm { value, prefix_len } ==> r == prefix_len,
{
    match key {
        TypedKey::Exact(_) => 0,
        TypedKey::Lpm { value: _, prefix_len } => prefix_len,
    }
}

/// The place of the action that a call names, if the schema allows the call.
fn checked_action(schema: &TableSchema, action: &str, params: &[TypedVal]) -> (r: Result<
    usize,
    TableError,
>)
    ensures
        r matches Ok(i) ==> schema@.checked(action@, params@) == Ok::<int, TableErrorModel>(
            i as int,
        ) && allowed(schema@, (Call { action: i as int, params: params@ })),
        r matches Err(e) ==> schema@.checked(action@, params@) == Err::<int, TableErrorModel>(e@),
{
    if let Err(e) = schema.check(action, params) {
        return Err(e);
    }
    let mut i: usize = 0;
    let ghost want = schema@.action_from(action@, 0)->0;
    while i < schema.actions.len()
        invariant
            i <= schema.actions@.len(),
            schema@.action_from(action@, 0) == schema@.action_from(action@, i as int),
            schema@.action_from(action@, 0) is Some,
            want == schema@.action_from(action@, 0)->0,
            schema@.checked(action@, params@) == Ok::<int, TableErrorModel>(want),
        decreases schema.actions.len() - i,
    {
        assert(schema@.actions[i as int].name == schema.actions@[i as int].name@);
        if same(schema.actions[i].name, action) {
            proof {
                lemma_kinds(schema@.actions[i as int], params@, 0);
            }
            return Ok(i);
        }
        i += 1;
    }
    Ok(i)
}

proof fn lemma_kinds(sig: crate::shim::ActionModel, params: Seq<TypedVal>, from: int)
    requires
        0 <= from <= params.len(),
        SchemaModel::mismatch_from(sig, params, from) >= params.len(),
    ensures
        forall|j: int|
            from <= j < params.len() ==> (#[trigger] params[j]).spec_kind() == sig.params[j].kind,
    decreases params.len() - from,
{
    if from < params.len() {
        lemma_kinds(sig, params, from + 1);
    }
}

/// A stored key is stored as itself.
proof fn lemma_canonical_stable(kind: KeyKind, key: TypedKey)
    requires
        canonical(kind, key) is Some,
        kind matches KeyKind::Lpm(k) ==> k == ValKind::Ipv4,
    ensures
        canonical(kind, canonical(kind, key)->0) == canonical(kind, key),
{
    if let TypedKey::Lpm { value, prefix_len } = key {
        let a = value->Ipv4_0.bits;
        let m = crate::lpm::mask_bits(prefix_len);
        assert((a & m) & m == a & m) by (bit_vector);
    }
}

/// An entry of the map is one that the control plane sees.
proof fn lemma_entry(program: Program, list: Seq<Entry>, i: int)
    requires
        in_order(list),
        entries_ok(program, contents(list)),
        0 <= i < list.len(),
    ensures
        ({
            let key = key_of(shape_of(program), schema_of(program).key, list[i].id());
            &&& list[i].key@.len() == shape_of(program).layout.key
            &&& shape_of(program).layout.match_at + shape_of(program).layout.match_len
                <= shape_of(program).layout.key
            &&& shape_of(program).layout.match_len <= 8
            &&& id_of(shape_of(program), key) == list[i].id()
            &&& canonical(schema_of(program).key, key) == Some(key)
            &&& value_ok(program, list[i].value@)
            &&& calls(program, contents(list)).contains_key(key)
            &&& calls(program, contents(list))[key] == call_in(
                shape_of(program),
                schema_of(program),
                list[i].value@,
            )
        }),
{
    law_shipped_shapes_carry_their_schemas(program);
    crate::ubpf::table::lemma_place(list, i);
    let id = list[i].id();
    assert(contents(list).contains_key(id));
    assert(id_ok(program, id));
    let key = key_of(shape_of(program), schema_of(program).key, id);
    assert(key_image(shape_of(program), key.spec_value()).len() == shape_of(program).layout.key);
}

/// A listing of the map is a dump of the table.
proof fn lemma_dump(program: Program, list: Seq<Entry>, keys: Seq<TypedKey>)
    requires
        in_order(list),
        entries_ok(program, contents(list)),
        keys == Seq::new(
            list.len(),
            |i: int| key_of(shape_of(program), schema_of(program).key, list[i].id()),
        ),
    ensures
        lists_keys(Style::Image, keys, calls(program, contents(list))),
{
    let entries = calls(program, contents(list));
    let shape = shape_of(program);
    assert forall|i: int| 0 <= i < keys.len() implies entries.contains_key(#[trigger] keys[i]) by {
        lemma_entry(program, list, i);
    }
    assert forall|i: int, j: int| 0 <= i < j < keys.len() implies dumped_before(
        Style::Image,
        #[trigger] keys[i],
        #[trigger] keys[j],
    ) by {
        lemma_entry(program, list, i);
        lemma_entry(program, list, j);
        assert(listed_before(list[i].id(), list[j].id()));
        lemma_image_order(program, keys[i].spec_value(), keys[j].spec_value());
    }
    assert forall|k: TypedKey| #[trigger] entries.contains_key(k) implies keys.contains(k) by {
        let id = id_of(shape, k);
        assert(contents(list).contains_key(id));
        let i = crate::ubpf::table::place(list, id);
        assert(list[i].id() == id);
        law_key_round_trip(program, k);
        assert(keys[i] == k);
    }
}

/// The key under which a table stores `key`.
fn stored_key(schema: &TableSchema, key: TypedKey) -> (r: TypedKey)
    requires
        canonical(schema@.key, key) is Some,
    ensures
        canonical(schema@.key, key) == Some(r),
{
    match key {
        TypedKey::Lpm { value: TypedVal::Ipv4(addr), prefix_len } => {
            let bits: u32 = addr.bits & mask_of(prefix_len);
            TypedKey::Lpm { value: TypedVal::Ipv4(Ipv4Addr { bits }), prefix_len }
        },
        other => other,
    }
}

/// The call in a value image, rendered under `key`.
fn describe(program: Program, schema: &TableSchema, key: String, value: &[u8]) -> (r: EntryDesc)
    requires
        schema@ == schema_of(program),
        value_ok(program, value@),
    ensures
        r@ == described(
            schema_of(program),
            key@,
            call_in(shape_of(program), schema_of(program), value@),
        ),
{
    let abi: &'static TableAbi = abi_of(program);
    let ghost shape = shape_of(program);
    let ghost call = call_in(shape, schema@, value@);
    proof {
        law_shipped_shapes_carry_their_schemas(program);
        law_call_round_trip(program, call);
        assert(fields_fit(shape, schema@, call.action));
    }
    let action: usize = read_le32(value, 0) as usize;
    let sig: &ActionSchema = &schema.actions[action];
    let act: &ActionAbi = &abi.actions[action];
    assert(sig@ == schema@.actions[action as int]);
    assert(act@ == shape.actions[action as int]);
    let mut params: NamedTexts = NamedTexts::new();
    let mut i: usize = 0;
    while i < sig.params.len()
        invariant
            i <= sig.params@.len(),
            sig.params@.len() == call.params.len(),
            act.fields@ == shape.actions[call.action].fields,
            sig@ == schema@.actions[call.action],
            fields_fit(shape, schema@, call.action),
            value@.len() == shape.layout.value,
            params.wf(),
            params@ == named_params(sig@.params, call.params, i as int),
            call == call_in(shape, schema@, value@),
        decreases sig.params.len() - i,
    {
        let (at, width) = act.fields[i];
        assert(act.fields@[i as int] == (at, width));
        let n: u64 = read_le(value, at, width);
        assert(n == field_in(act.fields@, value@, i as int));
        let value: TypedVal = typed_value(sig.params[i].kind, n);
        assert(sig@.params[i as int] == sig.params@[i as int]@);
        assert(value == call.params[i as int]);
        params.insert(sig.params[i].name.to_owned(), value.to_text());
        i += 1;
    }
    EntryDesc { key, action: sig.name.to_owned(), params }
}

/// The verdict of an execution. A refused helper or a fault is a decision to
/// drop, and so is a result whose port was never set.
pub open spec fn verdict_of(out: Result<Outcome, VmErrorModel>) -> Verdict {
    match out {
        Err(_) => Verdict::Drop,
        Ok(o) => if !o.pass || o.output_port == NO_PORT {
            Verdict::Drop
        } else if o.output_port == PUNT_PORT {
            Verdict::Punt
        } else if o.output_port == BROADCAST_PORT {
            Verdict::Broadcast
        } else {
            Verdict::Forward((o.output_port % 0x1_0000) as u16)
        },
    }
}

/// Overwrite `dst` with the front of `src`.
fn fill(dst: &mut [u8], src: &[u8])
    requires
        old(dst)@.len() <= src@.len(),
    ensures
        final(dst)@ == src@.subrange(0, old(dst)@.len() as int),
{
    let n: usize = dst.len();
    let mut i: usize = 0;
    while i < n
        invariant
            i <= n <= src@.len(),
            dst@.len() == n,
            forall|j: int| 0 <= j < i ==> dst@[j] == src@[j],
        decreases n - i,
    {
        dst[i] = src[i];
        i += 1;
    }
    assert(dst@ =~= src@.subrange(0, n as int));
}

/// Turn the outcome of an execution into a verdict, and take over the frame
/// where it is forwarded.
///
/// The frame's length is invariant: a program cannot resize the packet, so the
/// deparser rewrites headers in place. The length in the metadata is *not*
/// that length, because the program adds the deparsed headers to it.
pub fn conclude(out: &Result<Outcome, VmError>, packet: &[u8], f: &mut FrameCtx<'_>) -> (v: Verdict)
    requires
        old(f).wf(),
        old(f).bytes().len() <= packet@.len(),
    ensures
        v == verdict_of(result_model(*out)),
        final(f).wf(),
        final(f).bytes() == (if v is Forward {
            packet@.subrange(0, old(f).bytes().len() as int)
        } else {
            old(f).bytes()
        }),
        final(f).slot().len() == old(f).slot().len(),
        final(f).same_window(old(f)),
        final(final(f).buf)@ == final(old(f).buf)@,
{
    let o: &Outcome = match out {
        Ok(o) => o,
        Err(_) => {
            return Verdict::Drop;
        },
    };
    if !o.pass || o.output_port == NO_PORT {
        return Verdict::Drop;
    }
    if o.output_port == PUNT_PORT {
        return Verdict::Punt;
    }
    if o.output_port == BROADCAST_PORT {
        return Verdict::Broadcast;
    }
    let window: &mut [u8] = f.frame_mut();
    fill(window, packet);
    Verdict::Forward((o.output_port % 0x1_0000) as u16)
}

/// A lookup in the entry map answers what the control plane installed: in an
/// exact table, the entry of the looked-up key.
pub proof fn law_exact_lookups_see_the_entries(program: Program, table: ImageTable, v: TypedVal)
    requires
        entries_ok(program, table.entries),
        table.matching is Exact,
        schema_of(program).key == KeyKind::Exact(v.spec_kind()),
    ensures
        ({
            let seen = calls(program, table.entries);
            let found = table.matched(key_image(shape_of(program), v));
            &&& found is Some <==> seen.contains_key(TypedKey::Exact(v))
            &&& found is Some ==> found->0 == image_of(
                shape_of(program),
                seen[TypedKey::Exact(v)],
            )
        }),
{
    let id = id_of(shape_of(program), TypedKey::Exact(v));
    if table.entries.contains_key(id) {
        assert(value_ok(program, table.entries[id]));
    }
}

/// A lookup of an address in a prefix table answers the route that the control
/// plane's view of the table sends the address to, and nothing where there is
/// none.
pub proof fn law_prefix_lookups_see_the_routes(table: ImageTable, addr: u32, default: Call)
    requires
        entries_ok(Program::L3Fwd, table.entries),
        table.matching is Lpm,
    ensures
        ({
            let seen = calls(Program::L3Fwd, table.entries);
            let image = key_image(
                shape_of(Program::L3Fwd),
                TypedVal::Ipv4(crate::net::Ipv4Addr { bits: addr }),
            );
            match table.matched(image) {
                Some(v) => v == image_of(
                    shape_of(Program::L3Fwd),
                    l3fwd::routed(seen, default, addr, 32),
                ),
                None => l3fwd::routed(seen, default, addr, 32) == default,
            }
        }),
{
    let shape = shape_of(Program::L3Fwd);
    let image = key_image(shape, TypedVal::Ipv4(crate::net::Ipv4Addr { bits: addr }));
    assert forall|l: int| 32 < l <= 255 implies !(#[trigger] table.entries.contains_key(
        (l as u8, masked(image, l)),
    )) by {
        let id = (l as u8, masked(image, l));
        if table.entries.contains_key(id) {
            assert(id_ok(Program::L3Fwd, id));
        }
    }
    crate::ubpf::table::lemma_covering_skips(table.entries, image, 255, 32);
    lemma_routes(table, addr, default, 32);
}

proof fn lemma_routes(table: ImageTable, addr: u32, default: Call, len: int)
    requires
        entries_ok(Program::L3Fwd, table.entries),
        -1 <= len <= 32,
    ensures
        ({
            let seen = calls(Program::L3Fwd, table.entries);
            let image = key_image(
                shape_of(Program::L3Fwd),
                TypedVal::Ipv4(crate::net::Ipv4Addr { bits: addr }),
            );
            match covering(table.entries, image, len) {
                Some(v) => v == image_of(
                    shape_of(Program::L3Fwd),
                    l3fwd::routed(seen, default, addr, len),
                ),
                None => l3fwd::routed(seen, default, addr, len) == default,
            }
        }),
    decreases len + 1,
{
    if len >= 0 {
        let shape = shape_of(Program::L3Fwd);
        let image = key_image(shape, TypedVal::Ipv4(crate::net::Ipv4Addr { bits: addr }));
        lemma_masked_image(Program::L3Fwd, addr, len as u8);
        let id = (len as u8, masked(image, len));
        let key = l3fwd::route_key(len as u8, addr & crate::lpm::mask_bits(len as u8));
        assert(id_of(shape, key) == id);
        if table.entries.contains_key(id) {
            assert(value_ok(Program::L3Fwd, table.entries[id]));
        } else {
            lemma_routes(table, addr, default, len - 1);
        }
    }
}

/// The control plane's view of a loaded pipeline is that of its two maps, all
/// of whose entries it could have installed: what the machine looks up there
/// is what an operator sees.
pub proof fn law_the_surface_is_the_maps(p: UbpfPipeline)
    requires
        p.inv(),
    ensures
        0 <= p.entry_map() < p.images().len(),
        0 <= p.default_map() < p.images().len(),
        p.entry_map() != p.default_map(),
        maps_ok(p.spec_which(), p.images()[p.entry_map()], p.images()[p.default_map()]),
        entries_ok(p.spec_which(), p.images()[p.entry_map()].entries),
        p.surface() == (SurfaceModel {
            owner: name_of(p.spec_which()),
            table: Some(
                table_of(
                    p.spec_which(),
                    p.images()[p.entry_map()],
                    p.images()[p.default_map()],
                ),
            ),
        }),
{
}

/// An execution that passed is forwarded to the port it names, port zero and
/// every other below 65534 included; 65534 floods and 65535 punts. It is a drop
/// exactly where the execution failed, did not pass, or never set a port.
pub proof fn law_the_output_port_is_the_verdict(out: Result<Outcome, VmErrorModel>)
    ensures
        out is Err ==> verdict_of(out) == Verdict::Drop,
        out matches Ok(o) ==> {
            &&& verdict_of(out) == Verdict::Drop <==> !o.pass || o.output_port == 0xffff_ffff
            &&& o.pass && o.output_port < 65534 ==> verdict_of(out) == Verdict::Forward(
                o.output_port as u16,
            )
            &&& o.pass && o.output_port == 65534 ==> verdict_of(out) == Verdict::Broadcast
            &&& o.pass && o.output_port == 65535 ==> verdict_of(out) == Verdict::Punt
            &&& o.pass && 65535 < o.output_port < 0xffff_ffff ==> verdict_of(out)
                == Verdict::Forward((o.output_port % 0x1_0000) as u16)
        },
{
}

proof fn lemma_stranger(maps: Seq<MapModel>, name: Seq<char>, from: int)
    requires
        0 <= from <= maps.len(),
    ensures
        ({
            let i = stranger(maps, name, from);
            &&& from <= i <= maps.len()
            &&& forall|k: int| from <= k < i ==> (#[trigger] maps[k]).table == name
            &&& i < maps.len() ==> maps[i].table != name
        }),
    decreases maps.len() - from,
{
    if from < maps.len() && maps[from].table == name {
        lemma_stranger(maps, name, from + 1);
    }
}

proof fn lemma_no_map_before(maps: Seq<MapModel>, is_default: bool, from: int)
    requires
        0 <= from <= maps.len(),
    ensures
        forall|k: int|
            from <= k < first_map(maps, is_default, from) ==> (#[trigger] maps[k]).is_default
                != is_default,
    decreases maps.len() - from,
{
    if from < maps.len() && maps[from].is_default != is_default {
        lemma_no_map_before(maps, is_default, from + 1);
    }
}

/// Which objects are taken for a program: those whose maps all belong to the
/// program's own table, and which have one for its entries and one for its
/// action on a miss. Any other is refused with what is wrong.
pub proof fn law_objects_fit_their_program(program: Program, object: Seq<u8>, k: int)
    requires
        loaded(object) is Ok,
        0 <= k < loaded(object)->Ok_0.maps.len(),
    ensures
        ({
            let maps = loaded(object)->Ok_0.maps;
            let name = match program {
                Program::L2Fwd => "mac_dst"@,
                Program::L3Fwd => "ipv4_lpm"@,
            };
            let own = forall|i: int| 0 <= i < maps.len() ==> (#[trigger] maps[i]).table == name;
            let entries = exists|i: int| 0 <= i < maps.len() && !(#[trigger] maps[i]).is_default;
            let miss = exists|i: int| 0 <= i < maps.len() && (#[trigger] maps[i]).is_default;
            let r = accepted(program, object);
            &&& r is Ok <==> own && entries && miss
            &&& r is Ok ==> r == Ok::<ProgramModel, LoadErrorModel>(loaded(object)->Ok_0)
            &&& maps[k].table != name && (forall|i: int|
                0 <= i < k ==> (#[trigger] maps[i]).table == name) ==> r == Err::<
                ProgramModel,
                LoadErrorModel,
            >(LoadErrorModel::NoShape { table: maps[k].table })
            &&& own && !entries ==> r == Err::<ProgramModel, LoadErrorModel>(
                LoadErrorModel::NoEntryMap,
            )
            &&& own && entries && !miss ==> r == Err::<ProgramModel, LoadErrorModel>(
                LoadErrorModel::NoDefaultMap,
            )
        }),
{
    let maps = loaded(object)->Ok_0.maps;
    let name = shape_of(program).name;
    lemma_stranger(maps, name, 0);
    lemma_first_map(maps, false, 0);
    lemma_first_map(maps, true, 0);
    lemma_no_map_before(maps, false, 0);
    lemma_no_map_before(maps, true, 0);
    let s = stranger(maps, name, 0);
    if maps[k].table != name && (forall|i: int| 0 <= i < k ==> (#[trigger] maps[i]).table == name) {
        assert(s == k);
    }
    let (e, d) = (first_map(maps, false, 0), first_map(maps, true, 0));
    if e < maps.len() {
        assert(!maps[e].is_default);
    }
    if d < maps.len() {
        assert(maps[d].is_default);
    }
}

/// An object that does not load is refused for that.
pub proof fn law_broken_objects_are_refused(program: Program, object: Seq<u8>)
    ensures
        loaded(object) matches Err(e) ==> accepted(program, object) == Err::<
            ProgramModel,
            LoadErrorModel,
        >(LoadErrorModel::Object(e)),
{
}

/// What the bytecode finds before anyone configures it: nothing in the map of
/// the entries, whatever it looks up, and the declared action in the map of
/// the misses: to flood for the switch, to drop for the router.
pub proof fn law_fresh_maps_answer_the_declared_action(program: Program, map: MapModel, key: Seq<u8>)
    ensures
        !map.is_default ==> initial_table(program, map).answer(key) is None,
        map.is_default ==> {
            let a = initial_table(program, map).answer(key);
            &&& a is Some
            &&& program == Program::L2Fwd ==> a->0 == seq![1u8, 0, 0, 0, 0, 0, 0, 0]
            &&& program == Program::L3Fwd ==> a->0.len() == 24 && a->0[0] == 2
        },
{
    let t = initial_table(program, map);
    if map.is_default {
        crate::ubpf::abi::law_l2_value_images(0);
        crate::ubpf::abi::law_l3_value_images(
            0,
            crate::value::MacAddr { hi: 0, lo: 0 },
            0,
        );
        assert(declared_default(program).params =~= Seq::empty());
        assert(t.matched(key) is None);
    } else {
        assert forall|l: int| 0 <= l <= 255 implies !(#[trigger] t.entries.contains_key(
            (l as u8, masked(key, l)),
        )) by {}
        crate::ubpf::table::law_misses_answer_the_default(t, key);
    }
}

/// The compiled program starts with the tables that the native one starts
/// with: no entries, and the same action on a miss.
pub proof fn law_backends_start_alike(program: Program, entry: MapModel, default: MapModel)
    requires
        !entry.is_default,
        default.is_default,
    ensures
        ({
            let t = table_of(
                program,
                initial_table(program, entry),
                initial_table(program, default),
            );
            let native = match program {
                Program::L2Fwd => l2fwd::initial(),
                Program::L3Fwd => l3fwd::initial(),
            };
            &&& t.schema == native.schema
            &&& t.entries == native.entries
            &&& t.default == native.default
        }),
{
    lemma_declared_default(program);
    let images = initial_table(program, entry).entries;
    assert(calls(program, images) =~= Map::empty());
    assert(declared_default(program).params =~= Seq::empty());
}

} // verus!
