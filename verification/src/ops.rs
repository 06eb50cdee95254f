//! What the control plane may ask of a pipeline's tables, and what each
//! operation does.
//!
//! A pipeline shows the control plane at most one table: its schema, its
//! entries by key, and the action taken on a miss. Every pipeline answers the
//! same calls the same way, whatever it stores its entries in.
use crate::bytes::le_bytes;
use crate::lpm::mask_bits;
use crate::named::NamedTexts;
use crate::net::Ipv4Addr;
use crate::shim::{
    ActionSchema, EntryDesc, EntryModel, KeyKind, ParamModel, SchemaModel, TableError,
    TableErrorModel, TableSchema, TypedKey,
};
use crate::text::{same, texts};
use crate::ubpf::table::bytes_before;
use crate::value::TypedVal;
use vstd::prelude::*;

verus! {

/// An action of a table with its parameters: the action by its place in the
/// schema.
#[verifier::ext_equal]
pub struct Call {
    pub action: int,
    pub params: Seq<TypedVal>,
}

/// How a pipeline keeps its entries, where the control plane can tell.
pub enum Style {
    /// As typed values, listed by value.
    Typed,
    /// As byte images, listed by image.
    Image,
}

/// A table as the control plane sees it.
#[verifier::ext_equal]
pub struct TableModel {
    pub style: Style,
    pub schema: SchemaModel,
    pub entries: Map<TypedKey, Call>,
    pub default: Call,
}

/// `value` with everything behind its first `len` bits cleared.
pub open spec fn masked(value: TypedVal, len: u8) -> TypedVal {
    match value {
        TypedVal::Ipv4(a) => TypedVal::Ipv4(Ipv4Addr { bits: a.bits & mask_bits(len) }),
        other => other,
    }
}

/// The key under which a table of `kind` stores `key`: a prefix without its
/// host bits. A key of another kind, or a prefix longer than its value, has
/// none.
pub open spec fn canonical(kind: KeyKind, key: TypedKey) -> Option<TypedKey> {
    if key.spec_kind() != kind {
        None
    } else {
        match key {
            TypedKey::Exact(_) => Some(key),
            TypedKey::Lpm { value, prefix_len } => if prefix_len > value.spec_kind().spec_width() {
                None
            } else {
                Some(TypedKey::Lpm { value: masked(value, prefix_len), prefix_len })
            },
        }
    }
}

/// The bits of a value as one number.
pub open spec fn value_bits(v: TypedVal) -> int {
    match v {
        TypedVal::U8(n) => n as int,
        TypedVal::U16(n) => n as int,
        TypedVal::U32(n) => n as int,
        TypedVal::Mac(m) => m.spec_bits(),
        TypedVal::Ipv4(a) => a.bits as int,
    }
}

/// The bits of a value as bytes, least significant first.
pub open spec fn value_image(v: TypedVal) -> Seq<u8> {
    le_bytes(value_bits(v), 8)
}

/// The order of a dump. Typed entries: exact keys by value; prefixes longest
/// first, and by value among equals. Images: prefixes shortest first, and
/// byte by byte among equals.
pub open spec fn dumped_before(style: Style, a: TypedKey, b: TypedKey) -> bool {
    match (style, a, b) {
        (Style::Typed, TypedKey::Exact(x), TypedKey::Exact(y)) => value_bits(x) < value_bits(y),
        (
            Style::Typed,
            TypedKey::Lpm { value: x, prefix_len: m },
            TypedKey::Lpm { value: y, prefix_len: n },
        ) => m > n || (m == n && value_bits(x) < value_bits(y)),
        (Style::Image, TypedKey::Exact(x), TypedKey::Exact(y)) => bytes_before(
            value_image(x),
            value_image(y),
        ),
        (
            Style::Image,
            TypedKey::Lpm { value: x, prefix_len: m },
            TypedKey::Lpm { value: y, prefix_len: n },
        ) => m < n || (m == n && bytes_before(value_image(x), value_image(y))),
        _ => false,
    }
}

/// `keys` holds each key of `entries` once, in the order of a dump.
pub open spec fn lists_keys(
    style: Style,
    keys: Seq<TypedKey>,
    entries: Map<TypedKey, Call>,
) -> bool {
    &&& forall|i: int| 0 <= i < keys.len() ==> entries.contains_key(#[trigger] keys[i])
    &&& forall|i: int, j: int|
        0 <= i < j < keys.len() ==> dumped_before(style, #[trigger] keys[i], #[trigger] keys[j])
    &&& forall|k: TypedKey| #[trigger] entries.contains_key(k) ==> keys.contains(k)
}

/// The first `n` parameters by name, as text.
pub open spec fn named_params(sig: Seq<ParamModel>, values: Seq<TypedVal>, n: int) -> Map<
    Seq<char>,
    Seq<char>,
>
    decreases n,
{
    if n <= 0 {
        Map::empty()
    } else {
        named_params(sig, values, n - 1).insert(sig[n - 1].name, values[n - 1].spec_text())
    }
}

/// A call rendered under `key`.
pub open spec fn described(schema: SchemaModel, key: Seq<char>, call: Call) -> EntryModel {
    let sig = schema.actions[call.action];
    EntryModel {
        key,
        action: sig.name,
        params: named_params(sig.params, call.params, call.params.len() as int),
    }
}

/// `list` is the dump of the table.
pub open spec fn dumps(table: TableModel, list: Seq<EntryModel>) -> bool {
    exists|keys: Seq<TypedKey>| #[trigger] is_dump(table, list, keys)
}

/// `list` renders the entries under `keys`, which are all there are.
pub open spec fn is_dump(table: TableModel, list: Seq<EntryModel>, keys: Seq<TypedKey>) -> bool {
    &&& lists_keys(table.style, keys, table.entries)
    &&& list.len() == keys.len()
    &&& forall|i: int|
        0 <= i < list.len() ==> (#[trigger] list[i]) == described(
            table.schema,
            keys[i].spec_text(),
            table.entries[keys[i]],
        )
}

/// The views of `v`.
pub open spec fn entry_models(v: Seq<EntryDesc>) -> Seq<EntryModel> {
    Seq::new(v.len(), |i: int| v[i]@)
}

impl TableModel {
    /// The table is the one called `name`.
    pub open spec fn named(self, name: Seq<char>) -> Result<TableModel, TableErrorModel> {
        if self.schema.name == name {
            Ok(self)
        } else {
            Err(TableErrorModel::UnknownTable { name, known: seq![self.schema.name] })
        }
    }

    /// The key under which the table stores `key`, or its refusal.
    pub open spec fn stored_key(self, key: TypedKey) -> Result<TypedKey, TableErrorModel> {
        match canonical(self.schema.key, key) {
            Some(k) => Ok(k),
            None => Err(
                TableErrorModel::KeyKindMismatch {
                    table: self.schema.name,
                    want: self.schema.key,
                    got: key.spec_kind(),
                },
            ),
        }
    }

    /// The table with an entry installed or replaced.
    pub open spec fn added(
        self,
        key: TypedKey,
        action: Seq<char>,
        params: Seq<TypedVal>,
    ) -> Result<TableModel, TableErrorModel> {
        match (self.stored_key(key), self.schema.checked(action, params)) {
            (Err(e), _) => Err(e),
            (_, Err(e)) => Err(e),
            (Ok(k), Ok(i)) => Ok(
                TableModel { entries: self.entries.insert(k, Call { action: i, params }), ..self },
            ),
        }
    }

    /// The table with an entry removed.
    pub open spec fn removed(self, key: TypedKey) -> Result<TableModel, TableErrorModel> {
        match self.stored_key(key) {
            Err(e) => Err(e),
            Ok(k) => if self.entries.contains_key(k) {
                Ok(TableModel { entries: self.entries.remove(k), ..self })
            } else {
                Err(TableErrorModel::NotFound { table: self.schema.name, key: k.spec_text() })
            },
        }
    }

    /// The table with another action on a miss.
    pub open spec fn with_default(self, action: Seq<char>, params: Seq<TypedVal>) -> Result<
        TableModel,
        TableErrorModel,
    > {
        match self.schema.checked(action, params) {
            Err(e) => Err(e),
            Ok(i) => Ok(TableModel { default: Call { action: i, params }, ..self }),
        }
    }

    /// The table without entries.
    pub open spec fn cleared(self) -> TableModel {
        TableModel { entries: Map::empty(), ..self }
    }

    /// The table as it is before the control plane touches it.
    pub open spec fn fresh(style: Style, schema: SchemaModel, default: Call) -> TableModel {
        TableModel { style, schema, entries: Map::empty(), default }
    }
}

/// What the control plane sees of a pipeline: its name and its table, where it
/// has one.
#[verifier::ext_equal]
pub struct SurfaceModel {
    pub owner: Seq<char>,
    pub table: Option<TableModel>,
}

impl SurfaceModel {
    /// The schemas it publishes.
    pub open spec fn schemas(self) -> Seq<SchemaModel> {
        match self.table {
            Some(t) => seq![t.schema],
            None => Seq::empty(),
        }
    }

    /// The schema of the table called `name`.
    pub open spec fn schema(self, name: Seq<char>) -> Result<SchemaModel, TableErrorModel> {
        match self.table {
            Some(t) if t.schema.name == name => Ok(t.schema),
            Some(t) => Err(TableErrorModel::UnknownTable { name, known: seq![t.schema.name] }),
            None => Err(TableErrorModel::UnknownTable { name, known: Seq::empty() }),
        }
    }

    /// The table called `name`, for an operation on it.
    pub open spec fn table(self, name: Seq<char>) -> Result<TableModel, TableErrorModel> {
        match self.table {
            Some(t) => t.named(name),
            None => Err(TableErrorModel::NoTables { pipeline: self.owner }),
        }
    }

    /// The surface after an operation turned its table into `table`, or after
    /// the operation was refused.
    pub open spec fn after(self, table: Result<TableModel, TableErrorModel>) -> SurfaceModel {
        match table {
            Ok(t) => SurfaceModel { table: Some(t), ..self },
            Err(_) => self,
        }
    }

    /// What installing an entry makes of the table.
    pub open spec fn added(
        self,
        table: Seq<char>,
        key: TypedKey,
        action: Seq<char>,
        params: Seq<TypedVal>,
    ) -> Result<TableModel, TableErrorModel> {
        match self.table(table) {
            Ok(t) => t.added(key, action, params),
            Err(e) => Err(e),
        }
    }

    /// What removing an entry makes of the table.
    pub open spec fn removed(self, table: Seq<char>, key: TypedKey) -> Result<
        TableModel,
        TableErrorModel,
    > {
        match self.table(table) {
            Ok(t) => t.removed(key),
            Err(e) => Err(e),
        }
    }

    /// What setting the default action makes of the table.
    pub open spec fn with_default(
        self,
        table: Seq<char>,
        action: Seq<char>,
        params: Seq<TypedVal>,
    ) -> Result<TableModel, TableErrorModel> {
        match self.table(table) {
            Ok(t) => t.with_default(action, params),
            Err(e) => Err(e),
        }
    }

    /// What clearing makes of the table.
    pub open spec fn cleared(self, table: Seq<char>) -> Result<TableModel, TableErrorModel> {
        match self.table(table) {
            Ok(t) => Ok(t.cleared()),
            Err(e) => Err(e),
        }
    }
}

/// `r` is the reply to an operation that makes `table` of a table.
pub open spec fn replies(r: Result<(), TableError>, table: Result<TableModel, TableErrorModel>) -> bool {
    match r {
        Ok(_) => table is Ok,
        Err(e) => table == Err::<TableModel, TableErrorModel>(e@),
    }
}

/// A pipeline's control-plane surface.
///
/// An operation is atomic with respect to packets in flight: a frame sees the
/// table entirely before or entirely after each call. A *sequence* of calls is
/// not atomic.
pub trait TableOps {
    /// The pipeline's tables are in order.
    spec fn inv(&self) -> bool;

    /// What the control plane sees.
    spec fn surface(&self) -> SurfaceModel;

    /// How often the tables were replaced, modulo 2^64.
    spec fn generation(&self) -> u64;

    /// Everything but the tables is as it was in `before`.
    spec fn same_program(&self, before: &Self) -> bool;

    /// This is the pipeline that `before` was, with the tables that it had or
    /// with ones that were published later. Engines of `before` see them.
    spec fn continues(&self, before: &Self) -> bool;

    /// A pipeline continues itself, and what continues its continuation
    /// continues it.
    proof fn lemma_continues(a: &Self, b: &Self, c: &Self)
        ensures
            a.continues(a),
            a.same_program(a),
            b.continues(a) && c.continues(b) ==> c.continues(a),
            b.same_program(a) && c.same_program(b) ==> c.same_program(a),
            b.continues(a) ==> a.generation() <= b.generation(),
    ;

    /// Every table this pipeline exposes.
    fn schemas(&self) -> (r: &'static [TableSchema])
        requires
            self.inv(),
        ensures
            schema_models(r@) == self.surface().schemas(),
    ;

    /// Install or replace an entry.
    fn table_add(&mut self, table: &str, key: TypedKey, action: &str, params: &[TypedVal]) -> (r:
        Result<(), TableError>)
        requires
            old(self).inv(),
        ensures
            final(self).inv(),
            final(self).same_program(old(self)),
            old(self).generation() < u64::MAX ==> final(self).continues(old(self))
                && final(self).generation() <= old(self).generation() + 1,
            replies(r, old(self).surface().added(table@, key, action@, params@)),
            final(self).surface() == old(self).surface().after(
                old(self).surface().added(table@, key, action@, params@),
            ),
    ;

    /// Remove an entry.
    fn table_remove(&mut self, table: &str, key: TypedKey) -> (r: Result<(), TableError>)
        requires
            old(self).inv(),
        ensures
            final(self).inv(),
            final(self).same_program(old(self)),
            old(self).generation() < u64::MAX ==> final(self).continues(old(self))
                && final(self).generation() <= old(self).generation() + 1,
            replies(r, old(self).surface().removed(table@, key)),
            final(self).surface() == old(self).surface().after(
                old(self).surface().removed(table@, key),
            ),
    ;

    /// Every installed entry, in a deterministic order.
    fn table_dump(&self, table: &str) -> (r: Result<Vec<EntryDesc>, TableError>)
        requires
            self.inv(),
        ensures
            r matches Ok(list) ==> self.surface().table(table@) is Ok && dumps(
                self.surface().table(table@)->Ok_0,
                entry_models(list@),
            ),
            r matches Err(e) ==> self.surface().table(table@) == Err::<
                TableModel,
                TableErrorModel,
            >(e@),
    ;

    /// The action taken on a miss, described the same way an entry is. Its key
    /// renders as `*`, which is not a key an operator can install.
    fn table_default(&self, table: &str) -> (r: Result<EntryDesc, TableError>)
        requires
            self.inv(),
        ensures
            r matches Ok(entry) ==> self.surface().table(table@) is Ok && entry@ == described(
                self.surface().table(table@)->Ok_0.schema,
                "*"@,
                self.surface().table(table@)->Ok_0.default,
            ),
            r matches Err(e) ==> self.surface().table(table@) == Err::<
                TableModel,
                TableErrorModel,
            >(e@),
    ;

    /// Replace the action taken on a miss.
    fn table_set_default(&mut self, table: &str, action: &str, params: &[TypedVal]) -> (r: Result<
        (),
        TableError,
    >)
        requires
            old(self).inv(),
        ensures
            final(self).inv(),
            final(self).same_program(old(self)),
            old(self).generation() < u64::MAX ==> final(self).continues(old(self))
                && final(self).generation() <= old(self).generation() + 1,
            replies(r, old(self).surface().with_default(table@, action@, params@)),
            final(self).surface() == old(self).surface().after(
                old(self).surface().with_default(table@, action@, params@),
            ),
    ;

    /// Remove every entry, returning how many were removed.
    fn table_clear(&mut self, table: &str) -> (r: Result<usize, TableError>)
        requires
            old(self).inv(),
        ensures
            final(self).inv(),
            final(self).same_program(old(self)),
            old(self).generation() < u64::MAX ==> final(self).continues(old(self))
                && final(self).generation() <= old(self).generation() + 1,
            r matches Ok(n) ==> old(self).surface().cleared(table@) is Ok && n == old(
                self,
            ).surface().table(table@)->Ok_0.entries.dom().len(),
            r matches Err(e) ==> old(self).surface().cleared(table@) == Err::<
                TableModel,
                TableErrorModel,
            >(e@),
            final(self).surface() == old(self).surface().after(
                old(self).surface().cleared(table@),
            ),
    ;

    /// The schema for `table`.
    fn schema(&self, table: &str) -> (r: Result<&'static TableSchema, TableError>)
        requires
            self.inv(),
        ensures
            r matches Ok(s) ==> self.surface().schema(table@) == Ok::<
                SchemaModel,
                TableErrorModel,
            >(s@),
            r matches Err(e) ==> self.surface().schema(table@) == Err::<
                SchemaModel,
                TableErrorModel,
            >(e@),
    {
        let all: &'static [TableSchema] = self.schemas();
        let ghost models = self.surface().schemas();
        assert(all@.len() == models.len());
        let mut known: Vec<String> = Vec::new();
        if all.len() > 0 {
            assert(models[0] == all@[0]@);
            if same(all[0].name, table) {
                return Ok(&all[0]);
            }
            known.push(all[0].name.to_owned());
        }
        proof {
            assert(texts(known@) =~= match self.surface().table {
                Some(t) => seq![t.schema.name],
                None => Seq::empty(),
            });
        }
        Err(TableError::UnknownTable { name: table.to_owned(), known })
    }
}

/// The views of `v`.
pub open spec fn schema_models(v: Seq<TableSchema>) -> Seq<SchemaModel> {
    Seq::new(v.len(), |i: int| v[i]@)
}

/// Render a call under `key`.
pub(crate) fn describe_call(sig: &ActionSchema, key: String, values: &[TypedVal]) -> (r: EntryDesc)
    requires
        sig@.params.len() == values@.len(),
    ensures
        r@.key == key@,
        r@.action == sig@.name,
        r@.params == named_params(sig@.params, values@, values@.len() as int),
        r.params.wf(),
{
    let mut params: NamedTexts = NamedTexts::new();
    let mut i: usize = 0;
    while i < values.len()
        invariant
            i <= values@.len(),
            sig.params@.len() == values@.len(),
            params.wf(),
            params@ == named_params(sig@.params, values@, i as int),
        decreases values.len() - i,
    {
        params.insert(sig.params[i].name.to_owned(), values[i].to_text());
        i += 1;
    }
    EntryDesc { key, action: sig.name.to_owned(), params }
}

/// The table surface of a pipeline that has none: the control channel answers
/// "engine has no tables" rather than pretending to succeed.
#[derive(Clone, Copy, Debug)]
pub struct NoTables(pub &'static str);

impl TableOps for NoTables {
    open spec fn inv(&self) -> bool {
        true
    }

    open spec fn surface(&self) -> SurfaceModel {
        SurfaceModel { owner: self.0@, table: None }
    }

    open spec fn generation(&self) -> u64 {
        0
    }

    open spec fn same_program(&self, before: &Self) -> bool {
        self.0 == before.0
    }

    open spec fn continues(&self, before: &Self) -> bool {
        self.same_program(before)
    }

    proof fn lemma_continues(a: &Self, b: &Self, c: &Self) {
    }

    fn schemas(&self) -> (r: &'static [TableSchema]) {
        let none: &'static [TableSchema] = &[];
        assert(schema_models(none@) =~= Seq::empty());
        none
    }

    fn table_add(&mut self, table: &str, key: TypedKey, action: &str, params: &[TypedVal]) -> (r:
        Result<(), TableError>) {
        Err(TableError::NoTables { pipeline: self.0 })
    }

    fn table_remove(&mut self, table: &str, key: TypedKey) -> (r: Result<(), TableError>) {
        Err(TableError::NoTables { pipeline: self.0 })
    }

    fn table_dump(&self, table: &str) -> (r: Result<Vec<EntryDesc>, TableError>) {
        Err(TableError::NoTables { pipeline: self.0 })
    }

    fn table_default(&self, table: &str) -> (r: Result<EntryDesc, TableError>) {
        Err(TableError::NoTables { pipeline: self.0 })
    }

    fn table_set_default(&mut self, table: &str, action: &str, params: &[TypedVal]) -> (r: Result<
        (),
        TableError,
    >) {
        Err(TableError::NoTables { pipeline: self.0 })
    }

    fn table_clear(&mut self, table: &str) -> (r: Result<usize, TableError>) {
        Err(TableError::NoTables { pipeline: self.0 })
    }
}

/// Pipelines that publish the same tables take the same writes, whatever they
/// keep their entries in: each of these is accepted by both or by neither.
pub proof fn law_same_tables_take_the_same_writes(
    a: SurfaceModel,
    b: SurfaceModel,
    table: Seq<char>,
    key: TypedKey,
    action: Seq<char>,
    params: Seq<TypedVal>,
)
    requires
        a.schemas() == b.schemas(),
    ensures
        a.added(table, key, action, params) is Ok <==> b.added(table, key, action, params) is Ok,
        a.with_default(table, action, params) is Ok <==> b.with_default(
            table,
            action,
            params,
        ) is Ok,
        a.cleared(table) is Ok <==> b.cleared(table) is Ok,
        a.table matches Some(t) ==> b.table matches Some(u) && (t.entries == u.entries ==> (
        a.removed(table, key) is Ok <==> b.removed(table, key) is Ok)),
{
    assert(a.schemas().len() == if a.table is Some { 1nat } else { 0nat });
    assert(b.schemas().len() == if b.table is Some { 1nat } else { 0nat });
    if let (Some(t), Some(u)) = (a.table, b.table) {
        assert(a.schemas()[0] == t.schema && b.schemas()[0] == u.schema);
        assert(t.stored_key(key) == u.stored_key(key));
        assert(t.schema.checked(action, params) == u.schema.checked(action, params));
        assert(t.added(key, action, params) is Ok <==> u.added(key, action, params) is Ok);
    }
}

/// Installing an entry and removing it again leaves the table without it, and
/// otherwise as it was.
pub proof fn law_removal_undoes_installation(
    table: TableModel,
    key: TypedKey,
    action: Seq<char>,
    params: Seq<TypedVal>,
)
    requires
        table.added(key, action, params) is Ok,
    ensures
        table.added(key, action, params)->Ok_0.removed(key) is Ok,
        ({
            let k = table.stored_key(key)->Ok_0;
            table.added(key, action, params)->Ok_0.removed(key)->Ok_0 == (TableModel {
                entries: table.entries.remove(k),
                ..table
            })
        }),
{
    let k = table.stored_key(key)->Ok_0;
    let i = table.schema.checked(action, params)->Ok_0;
    assert(table.entries.insert(k, Call { action: i, params }).remove(k) =~= table.entries.remove(
        k,
    ));
}

/// When a table takes an entry: its key is of the table's kind, a prefix is no
/// longer than its value, and the schema takes the call.
pub proof fn law_when_an_entry_is_taken(
    table: TableModel,
    key: TypedKey,
    action: Seq<char>,
    params: Seq<TypedVal>,
)
    ensures
        ({
            let fits = match key {
                TypedKey::Exact(v) => table.schema.key == KeyKind::Exact(v.spec_kind()),
                TypedKey::Lpm { value, prefix_len } => table.schema.key == KeyKind::Lpm(
                    value.spec_kind(),
                ) && prefix_len <= value.spec_kind().spec_width(),
            };
            let refusal = TableErrorModel::KeyKindMismatch {
                table: table.schema.name,
                want: table.schema.key,
                got: key.spec_kind(),
            };
            &&& table.added(key, action, params) is Ok <==> fits && table.schema.checked(
                action,
                params,
            ) is Ok
            &&& !fits ==> table.added(key, action, params) == Err::<TableModel, TableErrorModel>(
                refusal,
            )
            &&& !fits ==> table.removed(key) == Err::<TableModel, TableErrorModel>(refusal)
            &&& fits ==> (table.schema.checked(action, params) matches Err(e) ==> table.added(
                key,
                action,
                params,
            ) == Err::<TableModel, TableErrorModel>(e))
        }),
{
}

/// What a write changes: the entry under the key, and nothing else of the
/// table.
pub proof fn law_a_write_changes_one_entry(
    table: TableModel,
    key: TypedKey,
    other: TypedKey,
    action: Seq<char>,
    params: Seq<TypedVal>,
)
    requires
        table.added(key, action, params) is Ok,
    ensures
        ({
            let k = match key {
                TypedKey::Exact(v) => key,
                TypedKey::Lpm { value, prefix_len } => TypedKey::Lpm {
                    value: masked(value, prefix_len),
                    prefix_len,
                },
            };
            let t = table.added(key, action, params)->Ok_0;
            let i = table.schema.checked(action, params)->Ok_0;
            &&& t.entries.contains_key(k)
            &&& t.entries[k].action == i
            &&& t.entries[k].params == params
            &&& other != k ==> (t.entries.contains_key(other) <==> table.entries.contains_key(
                other,
            ))
            &&& other != k && table.entries.contains_key(other) ==> t.entries[other]
                == table.entries[other]
            &&& t.default == table.default
            &&& t.schema == table.schema
            &&& t.style == table.style
        }),
{
}

/// What a removal changes: the entry is gone and every other is there. There
/// is nothing to remove but what is installed.
pub proof fn law_a_removal_takes_one_entry(table: TableModel, key: TypedKey, other: TypedKey)
    requires
        table.stored_key(key) is Ok,
    ensures
        ({
            let k = table.stored_key(key)->Ok_0;
            let r = table.removed(key);
            &&& r is Ok <==> table.entries.contains_key(k)
            &&& r is Err ==> r == Err::<TableModel, TableErrorModel>(
                TableErrorModel::NotFound { table: table.schema.name, key: k.spec_text() },
            )
            &&& r matches Ok(t) ==> !t.entries.contains_key(k) && t.default == table.default
                && t.schema == table.schema && t.style == table.style && (other != k ==> (
            t.entries.contains_key(other) <==> table.entries.contains_key(other)) && (
            table.entries.contains_key(other) ==> t.entries[other] == table.entries[other]))
        }),
{
}

/// Setting the default changes the default, and clearing takes every entry and
/// leaves the default.
pub proof fn law_defaults_and_entries_are_apart(
    table: TableModel,
    action: Seq<char>,
    params: Seq<TypedVal>,
    k: TypedKey,
)
    ensures
        table.with_default(action, params) is Ok <==> table.schema.checked(action, params) is Ok,
        table.with_default(action, params) matches Ok(t) ==> t.entries == table.entries && t.schema
            == table.schema && t.default.params == params && t.default.action
            == table.schema.checked(action, params)->Ok_0,
        !table.cleared().entries.contains_key(k),
        table.cleared().default == table.default,
        table.cleared().schema == table.schema,
        TableModel::fresh(table.style, table.schema, table.default).entries.dom().len() == 0,
{
}

/// The stored form of a prefix keeps its leading bits and clears the others,
/// so every address of a network names the same entry.
pub proof fn law_prefixes_are_stored_by_their_network(a: Ipv4Addr, b: Ipv4Addr, len: u8)
    requires
        len <= 32,
    ensures
        ({
            let kind = KeyKind::Lpm(crate::value::ValKind::Ipv4);
            let x = canonical(kind, TypedKey::Lpm { value: TypedVal::Ipv4(a), prefix_len: len });
            let y = canonical(kind, TypedKey::Lpm { value: TypedVal::Ipv4(b), prefix_len: len });
            &&& x is Some && y is Some
            &&& x == y <==> (a.bits as u64) >> ((32 - len) as u64) == (b.bits as u64) >> ((32
                - len) as u64)
            &&& x->0.spec_kind() == kind
        }),
{
    crate::lpm::law_masks_select_leading_bits(a.bits, b.bits, len);
}

/// A write to a pipeline reaches its table under the table's name; under any
/// other name it is refused, and a pipeline without tables refuses them all.
pub proof fn law_tables_are_addressed_by_name(
    s: SurfaceModel,
    name: Seq<char>,
    key: TypedKey,
    action: Seq<char>,
    params: Seq<TypedVal>,
)
    ensures
        s.table matches Some(t) ==> {
            let refusal = TableErrorModel::UnknownTable { name, known: seq![t.schema.name] };
            if name == t.schema.name {
                &&& s.table(name) == Ok::<TableModel, TableErrorModel>(t)
                &&& s.schema(name) == Ok::<SchemaModel, TableErrorModel>(t.schema)
                &&& s.added(name, key, action, params) == t.added(key, action, params)
                &&& s.removed(name, key) == t.removed(key)
                &&& s.with_default(name, action, params) == t.with_default(action, params)
                &&& s.cleared(name) == Ok::<TableModel, TableErrorModel>(t.cleared())
            } else {
                &&& s.table(name) == Err::<TableModel, TableErrorModel>(refusal)
                &&& s.schema(name) == Err::<SchemaModel, TableErrorModel>(refusal)
                &&& s.added(name, key, action, params) == Err::<TableModel, TableErrorModel>(
                    refusal,
                )
                &&& s.removed(name, key) == Err::<TableModel, TableErrorModel>(refusal)
                &&& s.with_default(name, action, params) == Err::<TableModel, TableErrorModel>(
                    refusal,
                )
                &&& s.cleared(name) == Err::<TableModel, TableErrorModel>(refusal)
            }
        },
        s.table is None ==> {
            let refusal = TableErrorModel::NoTables { pipeline: s.owner };
            &&& s.schemas().len() == 0
            &&& s.table(name) == Err::<TableModel, TableErrorModel>(refusal)
            &&& s.added(name, key, action, params) == Err::<TableModel, TableErrorModel>(refusal)
            &&& s.removed(name, key) == Err::<TableModel, TableErrorModel>(refusal)
            &&& s.with_default(name, action, params) == Err::<TableModel, TableErrorModel>(refusal)
            &&& s.cleared(name) == Err::<TableModel, TableErrorModel>(refusal)
        },
{
}

/// A refused write leaves what the control plane sees as it was, and a write
/// that is taken replaces the table and keeps the name of its owner.
pub proof fn law_only_taken_writes_show(
    s: SurfaceModel,
    written: Result<TableModel, TableErrorModel>,
)
    ensures
        written is Err ==> s.after(written) == s,
        written matches Ok(t) ==> s.after(written).table == Some(t) && s.after(written).owner
            == s.owner,
{
}

/// A dump shows every entry once, under the text of its key, with the name of
/// its action: nothing is left out, nothing is shown twice.
pub proof fn law_dumps_are_complete(
    table: TableModel,
    list: Seq<EntryModel>,
    keys: Seq<TypedKey>,
    k: TypedKey,
    i: int,
    j: int,
)
    requires
        is_dump(table, list, keys),
    ensures
        list.len() == keys.len(),
        table.entries.contains_key(k) ==> exists|n: int|
            0 <= n < list.len() && keys[n] == k && (#[trigger] list[n]).key == k.spec_text()
                && list[n].action == table.schema.actions[table.entries[k].action].name,
        0 <= i < list.len() ==> table.entries.contains_key(keys[i]) && list[i].key
            == keys[i].spec_text(),
        0 <= i < j < list.len() ==> keys[i] != keys[j],
{
    if table.entries.contains_key(k) {
        let n = choose|n: int| 0 <= n < keys.len() && keys[n] == k;
        assert(list[n].key == k.spec_text());
    }
    if 0 <= i < j < list.len() && keys[i] == keys[j] {
        assert(dumped_before(table.style, keys[i], keys[j]));
        lemma_not_before_itself(table.style, keys[i]);
    }
}

proof fn lemma_not_before_itself(style: Style, k: TypedKey)
    ensures
        !dumped_before(style, k, k),
{
    lemma_bytes_not_before_themselves(value_image(k.spec_value()));
}

proof fn lemma_bytes_not_before_themselves(b: Seq<u8>)
    ensures
        !bytes_before(b, b),
    decreases b.len(),
{
    if b.len() > 0 {
        lemma_bytes_not_before_themselves(b.subrange(1, b.len() as int));
    }
}

/// The order of a dump of typed entries: addresses and numbers ascend, and of
/// two prefixes the longer comes first.
pub proof fn law_typed_dumps_are_ordered(x: TypedVal, y: TypedVal, m: u8, n: u8)
    ensures
        dumped_before(Style::Typed, TypedKey::Exact(x), TypedKey::Exact(y)) <==> value_bits(x)
            < value_bits(y),
        m > n ==> dumped_before(
            Style::Typed,
            TypedKey::Lpm { value: x, prefix_len: m },
            TypedKey::Lpm { value: y, prefix_len: n },
        ),
        m < n ==> !dumped_before(
            Style::Typed,
            TypedKey::Lpm { value: x, prefix_len: m },
            TypedKey::Lpm { value: y, prefix_len: n },
        ),
        m == n ==> (dumped_before(
            Style::Typed,
            TypedKey::Lpm { value: x, prefix_len: m },
            TypedKey::Lpm { value: y, prefix_len: n },
        ) <==> value_bits(x) < value_bits(y)),
        x matches TypedVal::Mac(a) ==> value_bits(x) == a.hi * 0x1_0000_0000 + a.lo,
        x matches TypedVal::Ipv4(a) ==> value_bits(x) == a.bits,
        x matches TypedVal::U16(a) ==> value_bits(x) == a,
{
}

/// An entry shows each parameter under its name, as text.
pub proof fn law_entries_show_their_parameters(
    schema: SchemaModel,
    key: Seq<char>,
    call: Call,
    i: int,
)
    requires
        call.params.len() == schema.actions[call.action].params.len(),
        0 <= i < call.params.len(),
        forall|a: int, b: int|
            0 <= a < b < call.params.len() ==> (#[trigger] schema.actions[call.action].params[a]).name
                != (#[trigger] schema.actions[call.action].params[b]).name,
    ensures
        ({
            let e = described(schema, key, call);
            let name = schema.actions[call.action].params[i].name;
            &&& e.key == key
            &&& e.action == schema.actions[call.action].name
            &&& e.params.contains_key(name)
            &&& e.params[name] == call.params[i].spec_text()
        }),
{
    lemma_named_param(
        schema.actions[call.action].params,
        call.params,
        call.params.len() as int,
        i,
    );
}

proof fn lemma_named_param(sig: Seq<ParamModel>, values: Seq<TypedVal>, n: int, i: int)
    requires
        0 <= i < n <= sig.len(),
        forall|a: int, b: int|
            0 <= a < b < n ==> (#[trigger] sig[a]).name != (#[trigger] sig[b]).name,
    ensures
        named_params(sig, values, n).contains_key(sig[i].name),
        named_params(sig, values, n)[sig[i].name] == values[i].spec_text(),
    decreases n,
{
    if i < n - 1 {
        lemma_named_param(sig, values, n - 1, i);
        assert(sig[i].name != sig[n - 1].name);
    }
}

/// The order of a dump of images: of two prefixes the shorter comes first, and
/// of two images of one length the one whose first differing byte is smaller.
pub proof fn law_image_dumps_are_ordered(x: TypedVal, y: TypedVal, m: u8, n: u8, k: int)
    requires
        0 <= k < 8,
        forall|i: int| 0 <= i < k ==> value_image(x)[i] == value_image(y)[i],
        value_image(x)[k] < value_image(y)[k],
    ensures
        value_image(x).len() == 8,
        dumped_before(Style::Image, TypedKey::Exact(x), TypedKey::Exact(y)),
        m <= n ==> dumped_before(
            Style::Image,
            TypedKey::Lpm { value: x, prefix_len: m },
            TypedKey::Lpm { value: y, prefix_len: n },
        ),
        m > n ==> !dumped_before(
            Style::Image,
            TypedKey::Lpm { value: x, prefix_len: m },
            TypedKey::Lpm { value: y, prefix_len: n },
        ),
{
    crate::bytes::lemma_le_bytes_len(value_bits(x), 8);
    crate::bytes::lemma_le_bytes_len(value_bits(y), 8);
    lemma_first_difference(value_image(x), value_image(y), k);
}

proof fn lemma_first_difference(a: Seq<u8>, b: Seq<u8>, k: int)
    requires
        0 <= k < a.len(),
        k < b.len(),
        forall|i: int| 0 <= i < k ==> a[i] == b[i],
        a[k] < b[k],
    ensures
        bytes_before(a, b),
    decreases k,
{
    if k > 0 {
        let (s, t) = (a.subrange(1, a.len() as int), b.subrange(1, b.len() as int));
        assert forall|i: int| 0 <= i < k - 1 implies s[i] == t[i] by {
            assert(a[i + 1] == b[i + 1]);
        }
        lemma_first_difference(s, t, k - 1);
    }
}

} // verus!
