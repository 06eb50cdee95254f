//! The table shim: the one interface between the control channel and a
//! pipeline's tables.
//!
//! The shim is *typed and self-describing*. A table publishes a
//! [`TableSchema`] naming its key field, its match kind, and every action with
//! its parameters, so the control tool can tell an operator what to type,
//! reject a bad entry before it reaches the datapath, and print a dump that
//! reads like the program source. Nothing here accepts an untyped byte string.
use crate::named::NamedTexts;
use crate::text::{
    at_most, chars_of, debug_text, dec, find_char, first_index, join, joined, lemma_dec_spells,
    lemma_first_index, number, parse_number, push_dec, quoted, same, string_of, texts,
};
use crate::value::{
    law_value_text_round_trip, lemma_value_text_is_slashless, TypedVal, ValKind, ValueError,
    ValueErrorModel,
};
use vstd::prelude::*;

verus! {

/// How a table matches its key.
#[derive(Clone, Copy, Debug, PartialEq, Eq, Structural)]
pub enum KeyKind {
    /// Exact match.
    Exact(ValKind),
    /// Longest-prefix match, written `value/prefix_len`.
    Lpm(ValKind),
}

impl KeyKind {
    /// The kind of the key's value.
    pub open spec fn spec_value_kind(self) -> ValKind {
        match self {
            KeyKind::Exact(k) => k,
            KeyKind::Lpm(k) => k,
        }
    }

    /// The kind of the key's value.
    #[must_use]
    pub fn value_kind(self) -> (r: ValKind)
        ensures
            r == self.spec_value_kind(),
    {
        match self {
            KeyKind::Exact(k) => k,
            KeyKind::Lpm(k) => k,
        }
    }

    /// How to spell a key of this kind.
    pub open spec fn spec_syntax(self) -> Seq<char> {
        match self {
            KeyKind::Exact(k) => k.spec_syntax(),
            KeyKind::Lpm(k) => k.spec_syntax() + "/prefix_len"@,
        }
    }

    /// How to spell a key of this kind, for help text.
    #[must_use]
    pub fn syntax(self) -> (r: String)
        ensures
            r@ == self.spec_syntax(),
    {
        match self {
            KeyKind::Exact(k) => k.syntax().to_owned(),
            KeyKind::Lpm(k) => {
                let mut out: String = k.syntax().to_owned();
                out.append("/prefix_len");
                out
            },
        }
    }
}

/// A table key, refined to the table's match kind.
#[derive(Clone, Copy, Debug, PartialEq, Eq, Structural)]
pub enum TypedKey {
    /// An exact key.
    Exact(TypedVal),
    /// A prefix key.
    Lpm {
        /// The prefix's base value.
        value: TypedVal,
        /// Significant leading bits.
        prefix_len: u8,
    },
}

impl TypedKey {
    /// The key of `kind` that `s` spells, or the text that is malformed.
    ///
    /// A prefix key is a value, and behind a slash its length; a bare value
    /// means a host route.
    pub open spec fn spelled(kind: KeyKind, s: Seq<char>) -> Result<TypedKey, Seq<char>> {
        match kind {
            KeyKind::Exact(vk) => match TypedVal::spelled(vk, s) {
                Some(v) => Ok(TypedKey::Exact(v)),
                None => Err(s),
            },
            KeyKind::Lpm(vk) => {
                let slash = first_index(s, '/');
                let base = s.subrange(0, slash);
                let len = if slash < s.len() {
                    at_most(number(s.subrange(slash + 1, s.len() as int), 10), u8::MAX as int)
                } else {
                    Some(vk.spec_width())
                };
                match (len, TypedVal::spelled(vk, base)) {
                    (None, _) => Err(s),
                    (_, None) => Err(base),
                    (Some(l), Some(v)) => if l > vk.spec_width() {
                        Err(s)
                    } else {
                        Ok(TypedKey::Lpm { value: v, prefix_len: l as u8 })
                    },
                }
            },
        }
    }

    /// Parse `text` as a key of `kind`. The single text gate for keys.
    ///
    /// Prefix keys accept a bare value as a host route (`/32` for IPv4), which
    /// is what an operator means when they type one.
    pub fn parse(kind: KeyKind, text: &str) -> (r: Result<Self, ValueError>)
        ensures
            r matches Ok(k) ==> TypedKey::spelled(kind, text@) == Ok::<TypedKey, Seq<char>>(k)
                && k.spec_kind() == kind,
            r matches Err(e) ==> TypedKey::spelled(kind, text@) is Err && e@ == (
            ValueErrorModel::Malformed {
                kind: kind.spec_value_kind(),
                text: TypedKey::spelled(kind, text@)->Err_0,
            }),
    {
        match kind {
            KeyKind::Exact(vk) => match TypedVal::parse(vk, text) {
                Ok(v) => Ok(TypedKey::Exact(v)),
                Err(e) => Err(e),
            },
            KeyKind::Lpm(vk) => {
                let s: Vec<char> = chars_of(text);
                let chars: &[char] = s.as_slice();
                let slash: usize = find_char(chars, '/');
                let mut prefix_len: u8 = vk.width();
                if slash < chars.len() {
                    match parse_number(&chars[slash + 1..chars.len()], 10) {
                        Some(l) if l <= u8::MAX as u64 => {
                            prefix_len = l as u8;
                        },
                        _ => {
                            return Err(ValueError::Malformed { kind: vk, text: text.to_owned() });
                        },
                    }
                }
                let base: String = string_of(&chars[0..slash]);
                let value: TypedVal = match TypedVal::parse(vk, base.as_str()) {
                    Ok(v) => v,
                    Err(e) => {
                        return Err(e);
                    },
                };
                if prefix_len > vk.width() {
                    return Err(ValueError::Malformed { kind: vk, text: text.to_owned() });
                }
                Ok(TypedKey::Lpm { value, prefix_len })
            },
        }
    }

    /// The key's value, whatever its match kind.
    pub open spec fn spec_value(self) -> TypedVal {
        match self {
            TypedKey::Exact(v) => v,
            TypedKey::Lpm { value, prefix_len: _ } => value,
        }
    }

    /// The key's value, whatever its match kind.
    #[must_use]
    pub fn value(self) -> (r: TypedVal)
        ensures
            r == self.spec_value(),
    {
        match self {
            TypedKey::Exact(v) => v,
            TypedKey::Lpm { value, prefix_len: _ } => value,
        }
    }

    /// The match kind this key was built for.
    pub open spec fn spec_kind(self) -> KeyKind {
        match self {
            TypedKey::Exact(v) => KeyKind::Exact(v.spec_kind()),
            TypedKey::Lpm { value, prefix_len: _ } => KeyKind::Lpm(value.spec_kind()),
        }
    }

    /// The match kind this key was built for.
    #[must_use]
    pub fn kind(self) -> (r: KeyKind)
        ensures
            r == self.spec_kind(),
    {
        match self {
            TypedKey::Exact(v) => KeyKind::Exact(v.kind()),
            TypedKey::Lpm { value, prefix_len: _ } => KeyKind::Lpm(value.kind()),
        }
    }

    /// The key as an operator would type it.
    pub open spec fn spec_text(self) -> Seq<char> {
        match self {
            TypedKey::Exact(v) => v.spec_text(),
            TypedKey::Lpm { value, prefix_len } => value.spec_text().push('/') + dec(
                prefix_len as int,
            ),
        }
    }

    /// The key as an operator would type it.
    #[must_use]
    pub fn to_text(&self) -> (r: String)
        ensures
            r@ == self.spec_text(),
    {
        match *self {
            TypedKey::Exact(v) => v.to_text(),
            TypedKey::Lpm { value, prefix_len } => {
                let mut out: String = value.to_text();
                out.push('/');
                push_dec(&mut out, prefix_len as u64);
                out
            },
        }
    }
}

/// A key reads back from what it is shown as: what a dump prints can be typed
/// again.
pub proof fn law_key_text_round_trip(key: TypedKey)
    requires
        key matches TypedKey::Lpm { value, prefix_len } ==> prefix_len
            <= value.spec_kind().spec_width(),
    ensures
        TypedKey::spelled(key.spec_kind(), key.spec_text()) == Ok::<TypedKey, Seq<char>>(key),
{
    law_value_text_round_trip(key.spec_value());
    if let TypedKey::Lpm { value, prefix_len } = key {
        let s = key.spec_text();
        let at = value.spec_text().len() as int;
        lemma_value_text_is_slashless(value);
        lemma_dec_spells(prefix_len as int);
        assert forall|j: int| 0 <= j < at implies s[j] != '/' by {
            assert(s[j] == value.spec_text()[j]);
        }
        assert(s[at] == '/');
        lemma_first_index(s, '/', at);
        assert(s.subrange(0, at) =~= value.spec_text());
        assert(s.subrange(at + 1, s.len() as int) =~= dec(prefix_len as int));
    }
}

/// One action parameter's name and kind.
#[derive(Clone, Copy, Debug, PartialEq, Eq)]
pub struct ParamSchema {
    /// Parameter name, as written in the action signature.
    pub name: &'static str,
    /// Parameter kind.
    pub kind: ValKind,
}

/// One action's signature.
#[derive(Clone, Copy, Debug, PartialEq, Eq)]
pub struct ActionSchema {
    /// Action name, as written in the program source.
    pub name: &'static str,
    /// Parameters, in declaration order.
    pub params: &'static [ParamSchema],
}

/// A table's control-plane contract.
#[derive(Clone, Copy, Debug, PartialEq, Eq)]
pub struct TableSchema {
    /// Table name, as written in the program source.
    pub name: &'static str,
    /// The key field's name, for help text and dumps.
    pub key_field: &'static str,
    /// How the key matches.
    pub key: KeyKind,
    /// Every action the table may run.
    pub actions: &'static [ActionSchema],
}

/// An owned rendering of a [`TableSchema`], for the control-plane wire.
#[derive(Clone, Debug, PartialEq, Eq)]
pub struct SchemaDesc {
    /// Table name.
    pub name: String,
    /// Key field name.
    pub key_field: String,
    /// Match kind and value kind.
    pub key: KeyKind,
    /// Actions, in declaration order.
    pub actions: Vec<ActionDesc>,
}

/// An owned rendering of an [`ActionSchema`].
#[derive(Clone, Debug, PartialEq, Eq)]
pub struct ActionDesc {
    /// Action name.
    pub name: String,
    /// Parameters, in declaration order.
    pub params: Vec<ParamDesc>,
}

/// An owned rendering of a [`ParamSchema`].
#[derive(Clone, Debug, PartialEq, Eq)]
pub struct ParamDesc {
    /// Parameter name.
    pub name: String,
    /// Parameter kind.
    pub kind: ValKind,
}

/// A parameter's name and kind, with the name as characters.
pub struct ParamModel {
    pub name: Seq<char>,
    pub kind: ValKind,
}

/// An action's signature, with its names as characters.
#[verifier::ext_equal]
pub struct ActionModel {
    pub name: Seq<char>,
    pub params: Seq<ParamModel>,
}

/// A table's contract, with its names as characters.
#[verifier::ext_equal]
pub struct SchemaModel {
    pub name: Seq<char>,
    pub key_field: Seq<char>,
    pub key: KeyKind,
    pub actions: Seq<ActionModel>,
}

impl View for ParamSchema {
    type V = ParamModel;

    open spec fn view(&self) -> ParamModel {
        ParamModel { name: self.name@, kind: self.kind }
    }
}

impl View for ActionSchema {
    type V = ActionModel;

    open spec fn view(&self) -> ActionModel {
        ActionModel {
            name: self.name@,
            params: Seq::new(self.params@.len(), |i: int| self.params@[i]@),
        }
    }
}

impl View for TableSchema {
    type V = SchemaModel;

    open spec fn view(&self) -> SchemaModel {
        SchemaModel {
            name: self.name@,
            key_field: self.key_field@,
            key: self.key,
            actions: Seq::new(self.actions@.len(), |i: int| self.actions@[i]@),
        }
    }
}

impl View for ParamDesc {
    type V = ParamModel;

    open spec fn view(&self) -> ParamModel {
        ParamModel { name: self.name@, kind: self.kind }
    }
}

impl View for ActionDesc {
    type V = ActionModel;

    open spec fn view(&self) -> ActionModel {
        ActionModel {
            name: self.name@,
            params: Seq::new(self.params@.len(), |i: int| self.params@[i]@),
        }
    }
}

impl View for SchemaDesc {
    type V = SchemaModel;

    open spec fn view(&self) -> SchemaModel {
        SchemaModel {
            name: self.name@,
            key_field: self.key_field@,
            key: self.key,
            actions: Seq::new(self.actions@.len(), |i: int| self.actions@[i]@),
        }
    }
}

impl SchemaModel {
    /// The first action from `from` on that is called `name`.
    pub open spec fn action_from(self, name: Seq<char>, from: int) -> Option<int>
        decreases self.actions.len() - from,
    {
        if from < 0 || from >= self.actions.len() {
            None
        } else if self.actions[from].name == name {
            Some(from)
        } else {
            self.action_from(name, from + 1)
        }
    }

    /// The names of the actions.
    pub open spec fn action_names(self) -> Seq<Seq<char>> {
        Seq::new(self.actions.len(), |i: int| self.actions[i].name)
    }

    /// The first place from `from` on where a parameter is not of the kind
    /// that the signature declares, or the number of parameters.
    pub open spec fn mismatch_from(sig: ActionModel, params: Seq<TypedVal>, from: int) -> int
        decreases params.len() - from,
    {
        if from < 0 || from >= params.len() || params[from].spec_kind() != sig.params[from].kind {
            from
        } else {
            SchemaModel::mismatch_from(sig, params, from + 1)
        }
    }

    /// The action that a call names, or why the call is refused: the action
    /// must exist, with as many parameters as it declares, each of its kind.
    pub open spec fn checked(self, action: Seq<char>, params: Seq<TypedVal>) -> Result<
        int,
        TableErrorModel,
    > {
        match self.action_from(action, 0) {
            None => Err(
                TableErrorModel::UnknownAction {
                    table: self.name,
                    action,
                    known: self.action_names(),
                },
            ),
            Some(i) => {
                let sig = self.actions[i];
                let bad = SchemaModel::mismatch_from(sig, params, 0);
                if params.len() != sig.params.len() {
                    Err(
                        TableErrorModel::Arity {
                            table: self.name,
                            action: sig.name,
                            want: sig.params.len(),
                            got: params.len(),
                        },
                    )
                } else if bad < params.len() {
                    Err(
                        TableErrorModel::Value(
                            ValueErrorModel::Mismatched {
                                expected: sig.params[bad].kind,
                                got: params[bad].spec_kind(),
                            },
                        ),
                    )
                } else {
                    Ok(i)
                }
            },
        }
    }
}

fn describe_params(params: &[ParamSchema]) -> (r: Vec<ParamDesc>)
    ensures
        r@.len() == params@.len(),
        forall|i: int| 0 <= i < r@.len() ==> (#[trigger] r@[i])@ == params@[i]@,
{
    let mut out: Vec<ParamDesc> = Vec::new();
    let mut i: usize = 0;
    while i < params.len()
        invariant
            i <= params@.len(),
            out@.len() == i,
            forall|j: int| 0 <= j < i ==> (#[trigger] out@[j])@ == params@[j]@,
        decreases params.len() - i,
    {
        let p: &ParamSchema = &params[i];
        out.push(ParamDesc { name: p.name.to_owned(), kind: p.kind });
        i += 1;
    }
    out
}

impl TableSchema {
    /// Render this contract for the wire.
    #[must_use]
    pub fn describe(&self) -> (r: SchemaDesc)
        ensures
            r@ == self@,
    {
        let mut actions: Vec<ActionDesc> = Vec::new();
        let mut i: usize = 0;
        while i < self.actions.len()
            invariant
                i <= self.actions@.len(),
                actions@.len() == i,
                forall|j: int| 0 <= j < i ==> (#[trigger] actions@[j])@ == self.actions@[j]@,
            decreases self.actions.len() - i,
        {
            let a: &ActionSchema = &self.actions[i];
            let desc = ActionDesc { name: a.name.to_owned(), params: describe_params(a.params) };
            assert(desc@.params =~= a@.params);
            actions.push(desc);
            i += 1;
        }
        let r = SchemaDesc {
            name: self.name.to_owned(),
            key_field: self.key_field.to_owned(),
            key: self.key,
            actions,
        };
        assert(r@.actions =~= self@.actions);
        r
    }

    /// Look an action up by name.
    #[must_use]
    pub fn action(&self, name: &str) -> (r: Option<&'static ActionSchema>)
        ensures
            r is Some <==> self@.action_from(name@, 0) is Some,
            r matches Some(a) ==> a@ == self@.actions[self@.action_from(name@, 0)->0],
    {
        let mut i: usize = 0;
        let actions: &'static [ActionSchema] = self.actions;
        while i < actions.len()
            invariant
                i <= actions@.len(),
                actions@ == self.actions@,
                self@.action_from(name@, 0) == self@.action_from(name@, i as int),
            decreases actions.len() - i,
        {
            assert(self@.actions[i as int].name == actions@[i as int].name@);
            if same(actions[i].name, name) {
                return Some(&actions[i]);
            }
            i += 1;
        }
        None
    }

    /// The names of the actions, for a refusal.
    pub fn action_names(&self) -> (r: Vec<String>)
        ensures
            texts(r@) == self@.action_names(),
    {
        let mut known: Vec<String> = Vec::new();
        let mut i: usize = 0;
        while i < self.actions.len()
            invariant
                i <= self.actions@.len(),
                known@.len() == i,
                forall|j: int| 0 <= j < i ==> (#[trigger] known@[j])@ == self.actions@[j].name@,
            decreases self.actions.len() - i,
        {
            known.push(self.actions[i].name.to_owned());
            i += 1;
        }
        assert(texts(known@) =~= self@.action_names());
        known
    }

    /// Refine `params` against `action`'s signature, checking arity and kinds.
    ///
    /// Every control-plane write passes through here: an action reaches a
    /// pipeline only with the parameters its signature declares.
    pub fn check(&self, action: &str, params: &[TypedVal]) -> (r: Result<
        &'static ActionSchema,
        TableError,
    >)
        ensures
            r matches Ok(a) ==> self@.checked(action@, params@) is Ok && a@
                == self@.actions[self@.checked(action@, params@)->Ok_0],
            r matches Err(e) ==> self@.checked(action@, params@) == Err::<int, TableErrorModel>(
                e@,
            ),
    {
        let schema: &'static ActionSchema = match self.action(action) {
            Some(schema) => schema,
            None => {
                return Err(
                    TableError::UnknownAction {
                        table: self.name,
                        action: action.to_owned(),
                        known: self.action_names(),
                    },
                );
            },
        };
        if params.len() != schema.params.len() {
            return Err(
                TableError::Arity {
                    table: self.name,
                    action: schema.name,
                    want: schema.params.len(),
                    got: params.len(),
                },
            );
        }
        let mut i: usize = 0;
        while i < params.len()
            invariant
                i <= params@.len(),
                params@.len() == schema.params@.len(),
                self@.action_from(action@, 0) is Some,
                schema@ == self@.actions[self@.action_from(action@, 0)->0],
                SchemaModel::mismatch_from(schema@, params@, 0) == SchemaModel::mismatch_from(
                    schema@,
                    params@,
                    i as int,
                ),
            decreases params.len() - i,
        {
            assert(schema@.params[i as int].kind == schema.params@[i as int].kind);
            match params[i].require(schema.params[i].kind) {
                Ok(_) => {},
                Err(e) => {
                    return Err(TableError::Value(e));
                },
            }
            i += 1;
        }
        Ok(schema)
    }
}

/// One installed entry, rendered for a dump.
#[derive(Clone, Debug, PartialEq, Eq)]
pub struct EntryDesc {
    /// The key, in the syntax an operator would type.
    pub key: String,
    /// The action name.
    pub action: String,
    /// Action parameters by name.
    pub params: NamedTexts,
}

/// An [`EntryDesc`] with its texts as characters.
pub struct EntryModel {
    pub key: Seq<char>,
    pub action: Seq<char>,
    pub params: Map<Seq<char>, Seq<char>>,
}

impl View for EntryDesc {
    type V = EntryModel;

    open spec fn view(&self) -> EntryModel {
        EntryModel { key: self.key@, action: self.action@, params: self.params@ }
    }
}

/// Why a control-plane table operation was refused.
#[allow(inconsistent_fields)]
#[derive(Clone, Debug, PartialEq, Eq)]
pub enum TableError {
    /// The pipeline has no table by that name.
    UnknownTable {
        /// Name that was asked for.
        name: String,
        /// Names that exist.
        known: Vec<String>,
    },
    /// The table has no action by that name.
    UnknownAction {
        /// Table the action was sought in.
        table: &'static str,
        /// Name that was asked for.
        action: String,
        /// Names that exist.
        known: Vec<String>,
    },
    /// The key's match kind or value kind does not match the table's.
    KeyKindMismatch {
        /// Table whose contract was violated.
        table: &'static str,
        /// What the table declares.
        want: KeyKind,
        /// What was supplied.
        got: KeyKind,
    },
    /// Wrong number of action parameters.
    Arity {
        /// Table the action belongs to.
        table: &'static str,
        /// Action whose signature was violated.
        action: &'static str,
        /// Parameters the signature declares.
        want: usize,
        /// Parameters supplied.
        got: usize,
    },
    /// A parameter or key value was malformed or of the wrong kind.
    Value(ValueError),
    /// The entry to remove is not installed.
    NotFound {
        /// Table that was searched.
        table: &'static str,
        /// Key that was not found.
        key: String,
    },
    /// This pipeline has no tables at all.
    NoTables {
        /// The pipeline that was addressed.
        pipeline: &'static str,
    },
}

/// A [`TableError`] with its texts as characters.
#[allow(inconsistent_fields)]
#[verifier::ext_equal]
pub enum TableErrorModel {
    UnknownTable { name: Seq<char>, known: Seq<Seq<char>> },
    UnknownAction { table: Seq<char>, action: Seq<char>, known: Seq<Seq<char>> },
    KeyKindMismatch { table: Seq<char>, want: KeyKind, got: KeyKind },
    Arity { table: Seq<char>, action: Seq<char>, want: nat, got: nat },
    Value(ValueErrorModel),
    NotFound { table: Seq<char>, key: Seq<char> },
    NoTables { pipeline: Seq<char> },
}

impl View for TableError {
    type V = TableErrorModel;

    open spec fn view(&self) -> TableErrorModel {
        match *self {
            TableError::UnknownTable { name, known } => TableErrorModel::UnknownTable {
                name: name@,
                known: texts(known@),
            },
            TableError::UnknownAction { table, action, known } => TableErrorModel::UnknownAction {
                table: table@,
                action: action@,
                known: texts(known@),
            },
            TableError::KeyKindMismatch { table, want, got } => TableErrorModel::KeyKindMismatch {
                table: table@,
                want,
                got,
            },
            TableError::Arity { table, action, want, got } => TableErrorModel::Arity {
                table: table@,
                action: action@,
                want: want as nat,
                got: got as nat,
            },
            TableError::Value(e) => TableErrorModel::Value(e@),
            TableError::NotFound { table, key } => TableErrorModel::NotFound {
                table: table@,
                key: key@,
            },
            TableError::NoTables { pipeline } => TableErrorModel::NoTables { pipeline: pipeline@ },
        }
    }
}

impl From<ValueError> for TableError {
    fn from(e: ValueError) -> (r: Self) {
        TableError::Value(e)
    }
}

impl vstd::std_specs::convert::FromSpecImpl<ValueError> for TableError {
    open spec fn obeys_from_spec() -> bool {
        true
    }

    open spec fn from_spec(e: ValueError) -> TableError {
        TableError::Value(e)
    }
}

impl TableErrorModel {
    /// What the error says.
    pub open spec fn message(self) -> Seq<char> {
        match self {
            TableErrorModel::UnknownTable { name, known } => "no table "@ + quoted(name)
                + " (have: "@ + joined(known, ", "@) + ")"@,
            TableErrorModel::UnknownAction { table, action, known } => "table "@ + table
                + " has no action "@ + quoted(action) + " (have: "@ + joined(known, ", "@) + ")"@,
            TableErrorModel::KeyKindMismatch { table, want, got } => "table "@ + table
                + " expects a "@ + want.spec_syntax() + " key, got "@ + got.spec_syntax(),
            TableErrorModel::Arity { table, action, want, got } => table + "."@ + action
                + " takes "@ + dec(want as int) + " parameter(s), got "@ + dec(got as int),
            TableErrorModel::Value(e) => e.message(),
            TableErrorModel::NotFound { table, key } => "table "@ + table + " has no entry "@ + key,
            TableErrorModel::NoTables { pipeline } => "engine "@ + pipeline + " has no tables"@,
        }
    }
}

impl TableError {
    /// What the error says, for the operator.
    pub fn message(&self) -> (r: String)
        ensures
            r@ == self@.message(),
    {
        match self {
            TableError::UnknownTable { name, known } => {
                let mut out: String = "no table ".to_owned();
                out.append(debug_text(name.as_str()).as_str());
                out.append(" (have: ");
                out.append(join(known.as_slice(), ", ").as_str());
                out.append(")");
                out
            },
            TableError::UnknownAction { table, action, known } => {
                let mut out: String = "table ".to_owned();
                out.append(table);
                out.append(" has no action ");
                out.append(debug_text(action.as_str()).as_str());
                out.append(" (have: ");
                out.append(join(known.as_slice(), ", ").as_str());
                out.append(")");
                out
            },
            TableError::KeyKindMismatch { table, want, got } => {
                let mut out: String = "table ".to_owned();
                out.append(table);
                out.append(" expects a ");
                out.append(want.syntax().as_str());
                out.append(" key, got ");
                out.append(got.syntax().as_str());
                out
            },
            TableError::Arity { table, action, want, got } => {
                let mut out: String = (*table).to_owned();
                out.append(".");
                out.append(action);
                out.append(" takes ");
                push_dec(&mut out, *want as u64);
                out.append(" parameter(s), got ");
                push_dec(&mut out, *got as u64);
                out
            },
            TableError::Value(e) => e.message(),
            TableError::NotFound { table, key } => {
                let mut out: String = "table ".to_owned();
                out.append(table);
                out.append(" has no entry ");
                out.append(key.as_str());
                out
            },
            TableError::NoTables { pipeline } => {
                let mut out: String = "engine ".to_owned();
                out.append(pipeline);
                out.append(" has no tables");
                out
            },
        }
    }
}

/// A prefix key without a length is a host route: all of its bits count.
pub proof fn law_a_bare_value_is_a_host_route(kind: ValKind, s: Seq<char>)
    requires
        forall|i: int| 0 <= i < s.len() ==> (#[trigger] s[i]) != '/',
    ensures
        TypedKey::spelled(KeyKind::Lpm(kind), s) == (match TypedVal::spelled(kind, s) {
            Some(v) => Ok::<TypedKey, Seq<char>>(
                TypedKey::Lpm { value: v, prefix_len: kind.spec_width() as u8 },
            ),
            None => Err(s),
        }),
{
    lemma_first_index(s, '/', s.len() as int);
    assert(s.subrange(0, s.len() as int) =~= s);
}

/// A prefix key with a length is the value in front of its slash and the
/// number behind it, which must not exceed the value's width.
pub proof fn law_prefix_keys_are_value_and_length(kind: ValKind, base: Seq<char>, len: Seq<char>)
    requires
        forall|i: int| 0 <= i < base.len() ==> (#[trigger] base[i]) != '/',
    ensures
        ({
            let s = base.push('/') + len;
            let n = number(len, 10);
            let v = TypedVal::spelled(kind, base);
            &&& TypedKey::spelled(KeyKind::Lpm(kind), s) is Ok <==> v is Some && n is Some && n->0
                <= kind.spec_width()
            &&& v is Some && n is Some && n->0 <= kind.spec_width() ==> TypedKey::spelled(
                KeyKind::Lpm(kind),
                s,
            ) == Ok::<TypedKey, Seq<char>>(TypedKey::Lpm { value: v->0, prefix_len: n->0 as u8 })
        }),
{
    let s = base.push('/') + len;
    let at = base.len() as int;
    assert forall|j: int| 0 <= j < at implies s[j] != '/' by {
        assert(s[j] == base[j]);
    }
    assert(s[at] == '/');
    lemma_first_index(s, '/', at);
    assert(s.subrange(0, at) =~= base);
    assert(s.subrange(at + 1, s.len() as int) =~= len);
}

impl SchemaModel {
    proof fn lemma_action(self, name: Seq<char>, from: int)
        requires
            0 <= from <= self.actions.len(),
        ensures
            self.action_from(name, from) is None <==> (forall|i: int|
                from <= i < self.actions.len() ==> (#[trigger] self.actions[i]).name != name),
            self.action_from(name, from) matches Some(i) ==> from <= i < self.actions.len()
                && self.actions[i].name == name && forall|j: int|
                from <= j < i ==> (#[trigger] self.actions[j]).name != name,
        decreases self.actions.len() - from,
    {
        if from < self.actions.len() {
            self.lemma_action(name, from + 1);
        }
    }

    proof fn lemma_mismatch(sig: ActionModel, params: Seq<TypedVal>, from: int)
        requires
            0 <= from <= params.len(),
        ensures
            ({
                let bad = SchemaModel::mismatch_from(sig, params, from);
                &&& from <= bad <= params.len()
                &&& forall|i: int|
                    from <= i < bad ==> (#[trigger] params[i]).spec_kind() == sig.params[i].kind
                &&& bad < params.len() ==> params[bad].spec_kind() != sig.params[bad].kind
            }),
        decreases params.len() - from,
    {
        if from < params.len() && params[from].spec_kind() == sig.params[from].kind {
            SchemaModel::lemma_mismatch(sig, params, from + 1);
        }
    }

    /// The values of a call that is taken are of the declared kinds.
    pub proof fn lemma_checked_kinds(self, action: Seq<char>, params: Seq<TypedVal>)
        requires
            self.checked(action, params) is Ok,
        ensures
            self.action_from(action, 0) is Some,
            ({
                let sig = self.actions[self.action_from(action, 0)->0];
                &&& sig.name == action
                &&& params.len() == sig.params.len()
                &&& forall|i: int|
                    0 <= i < params.len() ==> (#[trigger] params[i]).spec_kind()
                        == sig.params[i].kind
            }),
    {
        self.lemma_action(action, 0);
        SchemaModel::lemma_mismatch(self.actions[self.action_from(action, 0)->0], params, 0);
    }

    /// A call is taken where its action exists and every parameter the action
    /// declares is given, of its kind. Otherwise it is refused for the first of
    /// these that fails: an action no one knows, a wrong number of parameters,
    /// the first parameter of another kind.
    pub proof fn law_calls_are_checked(self, action: Seq<char>, params: Seq<TypedVal>, at: int)
        requires
            0 <= at < self.actions.len(),
            self.actions[at].name == action,
            forall|j: int| 0 <= j < at ==> (#[trigger] self.actions[j]).name != action,
        ensures
            ({
                let sig = self.actions[at];
                let r = self.checked(action, params);
                let fits = params.len() == sig.params.len() && forall|i: int|
                    0 <= i < params.len() ==> (#[trigger] params[i]).spec_kind()
                        == sig.params[i].kind;
                &&& r is Ok <==> fits
                &&& fits ==> r == Ok::<int, TableErrorModel>(at)
                &&& params.len() != sig.params.len() ==> r == Err::<int, TableErrorModel>(
                    TableErrorModel::Arity {
                        table: self.name,
                        action,
                        want: sig.params.len(),
                        got: params.len(),
                    },
                )
                &&& params.len() == sig.params.len() && !fits ==> (r matches Err(
                    TableErrorModel::Value(ValueErrorModel::Mismatched { expected, got }),
                ) && exists|i: int|
                    0 <= i < params.len() && expected == sig.params[i].kind && got == (
                    #[trigger] params[i]).spec_kind() && expected != got)
            }),
    {
        let sig = self.actions[at];
        self.lemma_action(action, 0);
        SchemaModel::lemma_mismatch(sig, params, 0);
    }

    /// An action that the table does not have is refused, with those it has.
    pub proof fn law_unknown_actions_are_refused(self, action: Seq<char>, params: Seq<TypedVal>)
        requires
            forall|j: int| 0 <= j < self.actions.len() ==> (#[trigger] self.actions[j]).name != action,
        ensures
            self.checked(action, params) matches Err(
                TableErrorModel::UnknownAction { table, action: a, known },
            ) && table == self.name && a == action && known.len() == self.actions.len() && forall|
                i: int,
            |
                0 <= i < known.len() ==> (#[trigger] known[i]) == self.actions[i].name,
    {
        self.lemma_action(action, 0);
    }
}

/// A refusal says what was wanted before what came, and names the table it
/// speaks of.
pub proof fn law_refusals_say_what_was_wanted(
    table: Seq<char>,
    action: Seq<char>,
    want: nat,
    got: nat,
    key: Seq<char>,
    a: KeyKind,
    b: KeyKind,
)
    ensures
        (TableErrorModel::Arity { table, action, want, got }).message() == table + "."@ + action
            + " takes "@ + dec(want as int) + " parameter(s), got "@ + dec(got as int),
        (TableErrorModel::KeyKindMismatch { table, want: a, got: b }).message() == "table "@ + table
            + " expects a "@ + a.spec_syntax() + " key, got "@ + b.spec_syntax(),
        (TableErrorModel::NotFound { table, key }).message() == "table "@ + table
            + " has no entry "@ + key,
        (TableErrorModel::NoTables { pipeline: table }).message() == "engine "@ + table
            + " has no tables"@,
        (TableErrorModel::UnknownTable { name: key, known: seq![table] }).message() == "no table "@
            + quoted(key) + " (have: "@ + table + ")"@,
        (TableErrorModel::UnknownAction { table, action, known: seq![key] }).message() == "table "@
            + table + " has no action "@ + quoted(action) + " (have: "@ + key + ")"@,
{
    assert(joined(seq![table], ", "@) == table);
    assert(joined(seq![key], ", "@) == key);
}

} // verus!
