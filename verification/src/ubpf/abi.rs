//! The shapes that were compiled into the shipped programs: where a key, an
//! action and its parameters stand in the byte images that cross into the
//! machine.
//!
//! Stated as data rather than packed by a formula: a C union aligns to its
//! widest member, so an action of a 16-bit and a 48-bit parameter leaves a
//! hole that a formula would fill wrongly.
use crate::bytes::{
    le32, le_bytes, le_value, lemma_le_bytes_len, lemma_le_round_trip, lemma_le_value_injective,
    lemma_le_value_shifted, read_le, to_le_bytes,
};
use crate::catalog::Program;
use crate::lpm::mask_bits;
use crate::net::Ipv4Addr;
use crate::ops::{canonical, value_bits, value_image, Call};
use crate::programs::{l2fwd, l3fwd};
use crate::shim::{KeyKind, SchemaModel, TableSchema, TypedKey};
use crate::ubpf::table::{
    bytes_before, host_bits, masked, overlaid, overlay, zeroed, zeros, ImageTable, Layout, Match,
};
use crate::value::{MacAddr, TypedVal, ValKind};
use vstd::arithmetic::power2::{
    lemma2_to64, lemma2_to64_rest, lemma_pow2_adds, lemma_pow2_pos, pow2,
};
use vstd::prelude::*;

verus! {

/// One action, as the compiled program encodes it.
#[derive(Clone, Copy, Debug)]
pub struct ActionAbi {
    /// The action's name, as in the schema.
    pub name: &'static str,
    /// Its position in the compiled enumeration.
    pub disc: u32,
    /// Where each parameter sits inside the value image, and how wide it is.
    pub fields: &'static [(usize, usize)],
}

/// One table's compiled shape.
#[derive(Clone, Copy, Debug)]
pub struct TableAbi {
    /// The table's name, as in the schema.
    pub name: &'static str,
    /// How it matches.
    pub matching: Match,
    /// Where its key and value stand.
    pub layout: Layout,
    /// Its actions, in the order of the schema.
    pub actions: &'static [ActionAbi],
    /// The place of the action that the source declares for a miss. It takes
    /// no parameters.
    pub default: usize,
}

/// An [`ActionAbi`] over sequences.
#[verifier::ext_equal]
pub struct ActionShape {
    pub name: Seq<char>,
    pub disc: u32,
    pub fields: Seq<(usize, usize)>,
}

/// A [`TableAbi`] over sequences.
#[verifier::ext_equal]
pub struct Shape {
    pub name: Seq<char>,
    pub matching: Match,
    pub layout: Layout,
    pub actions: Seq<ActionShape>,
    pub default: usize,
}

impl View for ActionAbi {
    type V = ActionShape;

    open spec fn view(&self) -> ActionShape {
        ActionShape { name: self.name@, disc: self.disc, fields: self.fields@ }
    }
}

impl View for TableAbi {
    type V = Shape;

    open spec fn view(&self) -> Shape {
        Shape {
            name: self.name@,
            matching: self.matching,
            layout: self.layout,
            actions: Seq::new(self.actions@.len(), |i: int| self.actions@[i]@),
            default: self.default,
        }
    }
}

/// The control-plane contract of a program's table.
pub open spec fn schema_of(program: Program) -> SchemaModel {
    match program {
        Program::L2Fwd => l2fwd::schema_model(),
        Program::L3Fwd => l3fwd::schema_model(),
    }
}

/// The control-plane contract of a program's table.
pub fn schemas_of(program: Program) -> (r: &'static [TableSchema])
    ensures
        r@.len() == 1,
        r@[0]@ == schema_of(program),
{
    match program {
        Program::L2Fwd => l2fwd::table_schemas(),
        Program::L3Fwd => l3fwd::table_schemas(),
    }
}

/// The compiled shape of a program's table.
pub open spec fn shape_of(program: Program) -> Shape {
    match program {
        // The key is one 64-bit number, the value a discriminant and a 16-bit
        // port.
        Program::L2Fwd => Shape {
            name: "mac_dst"@,
            matching: Match::Exact,
            layout: Layout {
                key: 8,
                value: 8,
                action_at: 0,
                params_at: 4,
                match_at: 0,
                match_len: 8,
            },
            actions: seq![
                ActionShape { name: "forward"@, disc: 0, fields: seq![(4usize, 2usize)] },
                ActionShape { name: "broadcast"@, disc: 1, fields: Seq::empty() },
                ActionShape { name: "drop"@, disc: 2, fields: Seq::empty() },
            ],
            default: 1,
        },
        // The key is a prefix length, which the program leaves zero, and a
        // 32-bit address, so the matched field is the second word. The value's
        // union aligns to 8 because it holds a 64-bit address, so parameters
        // start at 8 and the address stands at 16.
        Program::L3Fwd => Shape {
            name: "ipv4_lpm"@,
            matching: Match::Lpm,
            layout: Layout {
                key: 8,
                value: 24,
                action_at: 0,
                params_at: 8,
                match_at: 4,
                match_len: 4,
            },
            actions: seq![
                ActionShape {
                    name: "forward"@,
                    disc: 0,
                    fields: seq![(8usize, 2usize), (16usize, 8usize)],
                },
                ActionShape { name: "punt"@, disc: 1, fields: Seq::empty() },
                ActionShape { name: "drop"@, disc: 2, fields: Seq::empty() },
            ],
            default: 2,
        },
    }
}

/// The compiled shape of a program's table.
pub fn abi_of(program: Program) -> (r: &'static TableAbi)
    ensures
        r@ == shape_of(program),
{
    let r: &'static TableAbi = match program {
        Program::L2Fwd => &TableAbi {
            name: "mac_dst",
            matching: Match::Exact,
            layout: Layout {
                key: 8,
                value: 8,
                action_at: 0,
                params_at: 4,
                match_at: 0,
                match_len: 8,
            },
            actions: &[
                ActionAbi { name: "forward", disc: 0, fields: &[(4, 2)] },
                ActionAbi { name: "broadcast", disc: 1, fields: &[] },
                ActionAbi { name: "drop", disc: 2, fields: &[] },
            ],
            default: 1,
        },
        Program::L3Fwd => &TableAbi {
            name: "ipv4_lpm",
            matching: Match::Lpm,
            layout: Layout {
                key: 8,
                value: 24,
                action_at: 0,
                params_at: 8,
                match_at: 4,
                match_len: 4,
            },
            actions: &[
                ActionAbi { name: "forward", disc: 0, fields: &[(8, 2), (16, 8)] },
                ActionAbi { name: "punt", disc: 1, fields: &[] },
                ActionAbi { name: "drop", disc: 2, fields: &[] },
            ],
            default: 2,
        },
    };
    proof {
        let m = shape_of(program);
        assert(r@.actions[0].fields =~= m.actions[0].fields);
        assert(r@.actions[1].fields =~= m.actions[1].fields);
        assert(r@.actions[2].fields =~= m.actions[2].fields);
        assert(r@.actions =~= m.actions);
    }
    r
}

/// Whether a value of `kind` fits in `width` bytes.
pub open spec fn fits(kind: ValKind, width: int) -> bool {
    kind.spec_width() <= 8 * width
}

/// Whether the fields of an action have room in the value image: behind the
/// discriminant, one behind the other, each wide enough for its parameter.
pub open spec fn fields_fit(shape: Shape, schema: SchemaModel, action: int) -> bool {
    let fields = shape.actions[action].fields;
    let params = schema.actions[action].params;
    &&& fields.len() == params.len()
    &&& forall|j: int|
        0 <= j < fields.len() ==> {
            &&& 4 <= (#[trigger] fields[j]).0
            &&& fields[j].1 <= 8
            &&& fields[j].0 + fields[j].1 <= shape.layout.value
            &&& fits(params[j].kind, fields[j].1 as int)
        }
    &&& forall|i: int, j: int|
        0 <= i < j < fields.len() ==> (#[trigger] fields[i]).0 + fields[i].1 <= (
        #[trigger] fields[j]).0
}

/// Whether a shape can carry everything that a schema allows.
pub open spec fn carries(shape: Shape, schema: SchemaModel) -> bool {
    &&& shape.name == schema.name
    &&& shape.actions.len() == schema.actions.len()
    &&& shape.default < shape.actions.len()
    &&& schema.actions[shape.default as int].params.len() == 0
    &&& shape.layout.action_at == 0
    &&& 4 <= shape.layout.value
    &&& shape.layout.match_at + shape.layout.match_len <= shape.layout.key
    &&& shape.layout.match_len <= 8
    &&& fits(schema.key.spec_value_kind(), shape.layout.match_len as int)
    &&& match schema.key {
        KeyKind::Exact(_) => shape.matching == Match::Exact,
        KeyKind::Lpm(kind) => {
            &&& shape.matching == Match::Lpm
            &&& kind == ValKind::Ipv4
            &&& shape.layout.match_at + shape.layout.match_len == shape.layout.key
            &&& shape.layout.match_len == 4
        },
    }
    &&& forall|i: int| 0 <= i < shape.actions.len() ==> #[trigger] fields_fit(shape, schema, i)
    &&& forall|i: int|
        0 <= i < shape.actions.len() ==> (#[trigger] shape.actions[i]).disc == i
            && shape.actions[i].name == schema.actions[i].name
}

/// The shipped shapes carry everything that their schemas allow: no two
/// parameters of an action overlap, and every value fits its field.
pub proof fn law_shipped_shapes_carry_their_schemas(program: Program)
    ensures
        carries(shape_of(program), schema_of(program)),
{
    let shape = shape_of(program);
    let schema = schema_of(program);
    assert forall|i: int| 0 <= i < shape.actions.len() implies #[trigger] fields_fit(
        shape,
        schema,
        i,
    ) by {
        assert(i == 0 || i == 1 || i == 2);
    }
    assert forall|i: int| 0 <= i < shape.actions.len() implies (#[trigger] shape.actions[i]).disc
        == i && shape.actions[i].name == schema.actions[i].name by {
        assert(i == 0 || i == 1 || i == 2);
    }
}

/// Every value image of a shipped program fits the buffer that a lookup
/// answers through.
pub proof fn law_the_arena_holds_every_value(program: Program)
    ensures
        shape_of(program).layout.value <= crate::ubpf::vm::ARENA,
        shape_of(program).layout.key <= crate::ubpf::vm::ARENA,
{
}

/// A value read as a big-endian number, which the program holds in native
/// byte order: `aa:bb:cc:dd:ee:ff` on the wire is `0x0000_aabb_ccdd_eeff`. The
/// same rule governs an IPv4 address and an action's parameter.
pub fn as_number(v: TypedVal) -> (r: u64)
    ensures
        r == value_bits(v),
{
    match v {
        TypedVal::U8(x) => x as u64,
        TypedVal::U16(x) => x as u64,
        TypedVal::U32(x) => x as u64,
        TypedVal::Mac(m) => m.to_bits(),
        TypedVal::Ipv4(a) => a.bits as u64,
    }
}

/// The value of `kind` that `n` is the number of.
pub open spec fn typed(kind: ValKind, n: int) -> TypedVal {
    match kind {
        ValKind::U8 => TypedVal::U8((n % 0x100) as u8),
        ValKind::U16 => TypedVal::U16((n % 0x1_0000) as u16),
        ValKind::U32 => TypedVal::U32((n % 0x1_0000_0000) as u32),
        ValKind::Mac => TypedVal::Mac(
            MacAddr {
                hi: (n / 0x1_0000_0000 % 0x1_0000) as u16,
                lo: (n % 0x1_0000_0000) as u32,
            },
        ),
        ValKind::Ipv4 => TypedVal::Ipv4(Ipv4Addr { bits: (n % 0x1_0000_0000) as u32 }),
    }
}

/// The value of `kind` that `n` is the number of.
pub fn typed_value(kind: ValKind, n: u64) -> (r: TypedVal)
    ensures
        r == typed(kind, n as int),
{
    match kind {
        ValKind::U8 => TypedVal::U8((n % 0x100) as u8),
        ValKind::U16 => TypedVal::U16((n % 0x1_0000) as u16),
        ValKind::U32 => TypedVal::U32((n % 0x1_0000_0000) as u32),
        ValKind::Mac => TypedVal::Mac(
            MacAddr {
                hi: (n / 0x1_0000_0000 % 0x1_0000) as u16,
                lo: (n % 0x1_0000_0000) as u32,
            },
        ),
        ValKind::Ipv4 => TypedVal::Ipv4(Ipv4Addr { bits: (n % 0x1_0000_0000) as u32 }),
    }
}

/// A value is read back from its number, and its number fits where the value
/// does.
pub proof fn lemma_typed(v: TypedVal, width: int)
    requires
        fits(v.spec_kind(), width),
        width <= 8,
    ensures
        typed(v.spec_kind(), value_bits(v)) == v,
        0 <= value_bits(v) < pow2((8 * width) as nat),
{
    lemma2_to64();
    lemma2_to64_rest();
    assert(width == 1 || width == 2 || width == 3 || width == 4 || width == 5 || width == 6
        || width == 7 || width == 8);
}

/// The key image that the compiled program constructs for `v`.
pub open spec fn key_image(shape: Shape, v: TypedVal) -> Seq<u8> {
    overlaid(
        zeros(shape.layout.key as nat),
        shape.layout.match_at as int,
        le_bytes(value_bits(v), shape.layout.match_len as nat),
    )
}

/// Build the key image the compiled program will construct for this value.
pub fn key_bytes(abi: &TableAbi, v: TypedVal) -> (r: Vec<u8>)
    requires
        abi.layout.match_at + abi.layout.match_len <= abi.layout.key,
    ensures
        r@ == key_image(abi@, v),
{
    let mut img: Vec<u8> = zeroed(abi.layout.key);
    let n: Vec<u8> = to_le_bytes(as_number(v), abi.layout.match_len);
    proof {
        lemma_le_bytes_len(value_bits(v), abi.layout.match_len as nat);
        assert(n@.subrange(0, n@.len() as int) =~= n@);
    }
    overlay(&mut img, abi.layout.match_at, n.as_slice(), abi.layout.match_len);
    img
}

/// What an entry for `key` is found by.
pub open spec fn id_of(shape: Shape, key: TypedKey) -> (u8, Seq<u8>) {
    match key {
        TypedKey::Exact(v) => (0, key_image(shape, v)),
        TypedKey::Lpm { value, prefix_len } => (prefix_len, key_image(shape, value)),
    }
}

/// The value in a key image.
pub open spec fn value_in(shape: Shape, kind: ValKind, image: Seq<u8>) -> TypedVal {
    typed(
        kind,
        le_value(
            image.subrange(
                shape.layout.match_at as int,
                shape.layout.match_at + shape.layout.match_len,
            ),
        ),
    )
}

/// The key of the entry that is found by `id`.
pub open spec fn key_of(shape: Shape, kind: KeyKind, id: (u8, Seq<u8>)) -> TypedKey {
    match kind {
        KeyKind::Exact(k) => TypedKey::Exact(value_in(shape, k, id.1)),
        KeyKind::Lpm(k) => TypedKey::Lpm {
            value: value_in(shape, k, id.1),
            prefix_len: id.0,
        },
    }
}

/// The key of an entry.
pub fn key_in(abi: &TableAbi, kind: KeyKind, prefix: u8, image: &[u8]) -> (r: TypedKey)
    requires
        abi.layout.match_at + abi.layout.match_len <= image@.len(),
        abi.layout.match_len <= 8,
    ensures
        r == key_of(abi@, kind, (prefix, image@)),
{
    let n: u64 = read_le(image, abi.layout.match_at, abi.layout.match_len);
    match kind {
        KeyKind::Exact(k) => TypedKey::Exact(typed_value(k, n)),
        KeyKind::Lpm(k) => TypedKey::Lpm { value: typed_value(k, n), prefix_len: prefix },
    }
}

/// A key is read back from what its entry is found by. So no two keys of one
/// kind are found by the same.
pub proof fn law_key_round_trip(program: Program, key: TypedKey)
    requires
        key.spec_kind() == schema_of(program).key,
    ensures
        key_of(shape_of(program), schema_of(program).key, id_of(shape_of(program), key)) == key,
{
    let shape = shape_of(program);
    law_shipped_shapes_carry_their_schemas(program);
    let v = key.spec_value();
    let n = shape.layout.match_len as nat;
    lemma_typed(v, n as int);
    lemma_le_round_trip(value_bits(v), n);
    lemma_le_bytes_len(value_bits(v), n);
    let at = shape.layout.match_at as int;
    assert(key_image(shape, v).subrange(at, at + n) =~= le_bytes(value_bits(v), n));
}

/// The first `n` parameters written into `image`.
pub open spec fn with_params(
    fields: Seq<(usize, usize)>,
    params: Seq<TypedVal>,
    image: Seq<u8>,
    n: int,
) -> Seq<u8>
    decreases n,
{
    if n <= 0 {
        image
    } else {
        overlaid(
            with_params(fields, params, image, n - 1),
            fields[n - 1].0 as int,
            le_bytes(value_bits(params[n - 1]), fields[n - 1].1 as nat),
        )
    }
}

/// The value image of a call.
pub open spec fn image_of(shape: Shape, call: Call) -> Seq<u8> {
    with_params(
        shape.actions[call.action].fields,
        call.params,
        overlaid(
            zeros(shape.layout.value as nat),
            shape.layout.action_at as int,
            le_bytes(shape.actions[call.action].disc as int, 4),
        ),
        call.params.len() as int,
    )
}

/// Whether a schema allows a call.
pub open spec fn allowed(schema: SchemaModel, call: Call) -> bool {
    &&& 0 <= call.action < schema.actions.len()
    &&& call.params.len() == schema.actions[call.action].params.len()
    &&& forall|j: int|
        0 <= j < call.params.len() ==> (#[trigger] call.params[j]).spec_kind()
            == schema.actions[call.action].params[j].kind
}

/// The call that a value image encodes.
pub open spec fn call_in(shape: Shape, schema: SchemaModel, image: Seq<u8>) -> Call {
    let action = le32(image, 0);
    Call {
        action,
        params: Seq::new(
            schema.actions[action].params.len(),
            |j: int|
                typed(
                    schema.actions[action].params[j].kind,
                    field_in(shape.actions[action].fields, image, j),
                ),
        ),
    }
}

/// The number in field `j` of an image.
pub open spec fn field_in(fields: Seq<(usize, usize)>, image: Seq<u8>, j: int) -> int {
    le_value(image.subrange(fields[j].0 as int, fields[j].0 + fields[j].1))
}

/// Build the value image for a call of the action at `action`.
pub fn value_bytes(abi: &TableAbi, action: usize, params: &[TypedVal]) -> (r: Vec<u8>)
    requires
        action < abi@.actions.len(),
        abi.layout.action_at + 4 <= abi.layout.value,
        params@.len() <= abi@.actions[action as int].fields.len(),
        forall|j: int|
            0 <= j < abi@.actions[action as int].fields.len() ==> (
            #[trigger] abi@.actions[action as int].fields[j]).0 + abi@.actions[action as int].fields[j].1
                <= abi.layout.value,
    ensures
        r@ == image_of(abi@, (Call { action: action as int, params: params@ })),
        r@.len() == abi.layout.value,
{
    let act: &ActionAbi = &abi.actions[action];
    let ghost fields = abi@.actions[action as int].fields;
    assert(act@ == abi@.actions[action as int]);
    let mut v: Vec<u8> = zeroed(abi.layout.value);
    let disc: Vec<u8> = to_le_bytes(act.disc as u64, 4);
    proof {
        lemma_le_bytes_len(act.disc as int, 4);
        assert(disc@.subrange(0, 4) =~= disc@);
    }
    overlay(&mut v, abi.layout.action_at, disc.as_slice(), 4);
    let ghost base = v@;
    let mut i: usize = 0;
    while i < params.len()
        invariant
            i <= params@.len() <= fields.len(),
            fields == act.fields@,
            v@ == with_params(fields, params@, base, i as int),
            v@.len() == abi.layout.value,
            forall|j: int|
                0 <= j < fields.len() ==> (#[trigger] fields[j]).0 + fields[j].1
                    <= abi.layout.value,
        decreases params.len() - i,
    {
        let (at, width) = act.fields[i];
        let n: Vec<u8> = to_le_bytes(as_number(params[i]), width);
        proof {
            assert(fields[i as int] == (at, width));
            lemma_le_bytes_len(value_bits(params@[i as int]), width as nat);
            assert(n@.subrange(0, width as int) =~= n@);
        }
        overlay(&mut v, at, n.as_slice(), width);
        i += 1;
    }
    v
}

proof fn lemma_params_kept(
    shape: Shape,
    schema: SchemaModel,
    call: Call,
    image: Seq<u8>,
    n: int,
)
    requires
        carries(shape, schema),
        allowed(schema, call),
        image.len() == shape.layout.value,
        0 <= n <= call.params.len(),
    ensures
        ({
            let fields = shape.actions[call.action].fields;
            let r = with_params(fields, call.params, image, n);
            &&& r.len() == image.len()
            &&& forall|k: int| 0 <= k < 4 ==> r[k] == image[k]
            &&& forall|j: int|
                0 <= j < n ==> #[trigger] field_in(fields, r, j) == value_bits(call.params[j])
        }),
    decreases n,
{
    let fields = shape.actions[call.action].fields;
    assert(fields_fit(shape, schema, call.action));
    if n > 0 {
        lemma_params_kept(shape, schema, call, image, n - 1);
        let before = with_params(fields, call.params, image, n - 1);
        let r = with_params(fields, call.params, image, n);
        let (at, width) = fields[n - 1];
        let v = call.params[n - 1];
        lemma_typed(v, width as int);
        lemma_le_bytes_len(value_bits(v), width as nat);
        lemma_le_round_trip(value_bits(v), width as nat);
        assert(r.subrange(at as int, at + width) =~= le_bytes(value_bits(v), width as nat));
        assert forall|j: int| 0 <= j < n implies #[trigger] field_in(fields, r, j) == value_bits(
            call.params[j],
        ) by {
            if j < n - 1 {
                assert(fields[j].0 + fields[j].1 <= fields[n - 1].0);
                assert(r.subrange(fields[j].0 as int, fields[j].0 + fields[j].1)
                    =~= before.subrange(fields[j].0 as int, fields[j].0 + fields[j].1));
                assert(field_in(fields, before, j) == value_bits(call.params[j]));
            }
        }
    }
}

/// What a call says is read back from its value image, number by number.
pub proof fn law_call_round_trip(program: Program, call: Call)
    requires
        allowed(schema_of(program), call),
    ensures
        ({
            let image = image_of(shape_of(program), call);
            &&& image.len() == shape_of(program).layout.value
            &&& le32(image, 0) == call.action
            &&& call_in(shape_of(program), schema_of(program), image) == call
            &&& forall|j: int|
                0 <= j < call.params.len() ==> #[trigger] field_in(
                    shape_of(program).actions[call.action].fields,
                    image,
                    j,
                ) == value_bits(call.params[j])
        }),
{
    let shape = shape_of(program);
    let schema = schema_of(program);
    law_shipped_shapes_carry_their_schemas(program);
    assert(fields_fit(shape, schema, call.action));
    let disc = shape.actions[call.action].disc as int;
    let base = overlaid(
        zeros(shape.layout.value as nat),
        shape.layout.action_at as int,
        le_bytes(disc, 4),
    );
    lemma_params_kept(shape, schema, call, base, call.params.len() as int);
    let image = image_of(shape, call);
    lemma_le_bytes_len(disc, 4);
    reveal_with_fuel(le_bytes, 5);
    assert(disc == call.action && 0 <= disc < 3);
    let s = le_bytes(disc, 4);
    assert(base[0] == s[0] && base[1] == s[1] && base[2] == s[2] && base[3] == s[3]);
    assert(s[0] == disc && s[1] == 0 && s[2] == 0 && s[3] == 0);
    assert(le32(image, 0) == disc);
    let back = call_in(shape, schema, image);
    assert forall|j: int| 0 <= j < call.params.len() implies back.params[j] == call.params[j] by {
        let fields = shape.actions[call.action].fields;
        assert(field_in(fields, image, j) == value_bits(call.params[j]));
        lemma_typed(call.params[j], fields[j].1 as int);
    }
    assert(back.params =~= call.params);
}

/// Cutting the host bits off an address is rounding it down.
proof fn lemma_mask_bits(a: u32, len: u8)
    requires
        len <= 32,
    ensures
        a & mask_bits(len) == a - a as int % pow2((32 - len) as nat) as int,
{
    let host = (32 - len) as nat;
    lemma2_to64();
    lemma2_to64_rest();
    if len == 0 {
        assert(a & 0 == 0) by (bit_vector);
        assert(a as int % 0x1_0000_0000 == a);
    } else {
        let h = (32 - len) as u32;
        assert(h < 32);
        let low = !(u32::MAX << h);
        assert((a & (u32::MAX << h)) + (a & low) == a) by (bit_vector)
            requires
                low == !(u32::MAX << h),
        ;
        assert(low == (1u32 << h) - 1) by (bit_vector)
            requires
                low == !(u32::MAX << h),
                h < 32,
        ;
        vstd::bits::lemma_u32_pow2_no_overflow(h as nat);
        vstd::bits::lemma_u32_shl_is_mul(1, h);
        assert(1u32 << h == pow2(h as nat));
        lemma_pow2_pos(h as nat);
        vstd::bits::lemma_u32_low_bits_mask_is_mod(a, h as nat);
        assert(vstd::bits::low_bits_mask(h as nat) == pow2(h as nat) - 1);
        assert(low == vstd::bits::low_bits_mask(h as nat) as u32);
    }
}

proof fn lemma_rounding_shifts(x: int, low: nat, by: nat)
    requires
        0 <= x,
    ensures
        x * pow2(by) - (x * pow2(by)) % pow2(low + by) as int == (x - x % pow2(low) as int) * pow2(
            by,
        ),
{
    lemma_pow2_pos(low);
    lemma_pow2_pos(by);
    lemma_pow2_adds(low, by);
    let (u, b) = (pow2(low) as int, pow2(by) as int);
    vstd::arithmetic::div_mod::lemma_truncate_middle(x, u, b);
    assert((b * x) % (b * u) == b * (x % u)) by {
        vstd::arithmetic::div_mod::lemma_mod_breakdown(b * x, b, u);
        vstd::arithmetic::div_mod::lemma_div_multiples_vanish(x, b);
        vstd::arithmetic::div_mod::lemma_mod_multiples_basic(x, b);
        assert(b * x == x * b) by (nonlinear_arith);
    }
    assert(x * b == b * x) by (nonlinear_arith);
    assert(u * b == b * u) by (nonlinear_arith);
    assert(b * x - b * (x % u) == (x - x % u) * b) by (nonlinear_arith);
}

/// Masking the image of an address is taking the image of the masked address.
pub proof fn lemma_masked_image(program: Program, addr: u32, len: u8)
    requires
        schema_of(program).key == KeyKind::Lpm(ValKind::Ipv4),
        len <= 32,
    ensures
        masked(
            key_image(shape_of(program), TypedVal::Ipv4(Ipv4Addr { bits: addr })),
            len as int,
        ) == key_image(
            shape_of(program),
            TypedVal::Ipv4(Ipv4Addr { bits: addr & mask_bits(len) }),
        ),
{
    let shape = shape_of(program);
    law_shipped_shapes_carry_their_schemas(program);
    let at = shape.layout.match_at as nat;
    let before = TypedVal::Ipv4(Ipv4Addr { bits: addr });
    let after = TypedVal::Ipv4(Ipv4Addr { bits: addr & mask_bits(len) });
    lemma_image_number(shape, before);
    lemma_image_number(shape, after);
    let img = key_image(shape, before);
    crate::ubpf::table::law_mask_rounds_down(img, len as int);
    let low = (32 - len) as nat;
    assert(host_bits(img.len() as int, len as int) == low + 8 * at);
    lemma_rounding_shifts(addr as int, low, 8 * at);
    lemma_mask_bits(addr, len);
    lemma_le_value_injective(masked(img, len as int), key_image(shape, after));
}

proof fn lemma_image_number(shape: Shape, v: TypedVal)
    requires
        shape.layout.match_at + shape.layout.match_len == shape.layout.key,
        shape.layout.match_len <= 8,
        fits(v.spec_kind(), shape.layout.match_len as int),
    ensures
        le_value(key_image(shape, v)) == value_bits(v) * pow2(8 * shape.layout.match_at as nat),
        key_image(shape, v).len() == shape.layout.key,
{
    let n = shape.layout.match_len as nat;
    let s = le_bytes(value_bits(v), n);
    lemma_typed(v, n as int);
    lemma_le_bytes_len(value_bits(v), n);
    lemma_le_round_trip(value_bits(v), n);
    let z = zeros(shape.layout.match_at as nat);
    assert(key_image(shape, v) =~= z + s);
    lemma_le_value_shifted(z, s);
}

/// The table finds the entry for a key by what the key under which the control
/// plane stores it is found by.
pub proof fn lemma_stored(program: Program, table: ImageTable, key: TypedKey, prefix: u8)
    requires
        canonical(schema_of(program).key, key) is Some,
        table.matching == shape_of(program).matching,
        key matches TypedKey::Lpm { value, prefix_len } ==> prefix == prefix_len,
    ensures
        table.canonical(key_image(shape_of(program), key.spec_value()), prefix) == id_of(
            shape_of(program),
            canonical(schema_of(program).key, key)->0,
        ),
{
    law_shipped_shapes_carry_their_schemas(program);
    if let TypedKey::Lpm { value, prefix_len } = key {
        lemma_masked_image(program, value->Ipv4_0.bits, prefix_len);
    }
}

proof fn lemma_before_common(z: Seq<u8>, a: Seq<u8>, b: Seq<u8>)
    ensures
        bytes_before(z + a, z + b) == bytes_before(a, b),
    decreases z.len(),
{
    if z.len() == 0 {
        assert(z + a =~= a);
        assert(z + b =~= b);
    } else {
        let rest = z.subrange(1, z.len() as int);
        lemma_before_common(rest, a, b);
        assert((z + a).subrange(1, (z + a).len() as int) =~= rest + a);
        assert((z + b).subrange(1, (z + b).len() as int) =~= rest + b);
    }
}

proof fn lemma_before_padded(a: Seq<u8>, b: Seq<u8>, z: Seq<u8>)
    requires
        a.len() == b.len(),
    ensures
        bytes_before(a + z, b + z) == bytes_before(a, b),
    decreases a.len(),
{
    if a.len() == 0 {
        assert(a + z =~= z);
        assert(b + z =~= z);
        lemma_not_before_itself(z);
    } else {
        let ra = a.subrange(1, a.len() as int);
        let rb = b.subrange(1, b.len() as int);
        lemma_before_padded(ra, rb, z);
        assert((a + z).subrange(1, (a + z).len() as int) =~= ra + z);
        assert((b + z).subrange(1, (b + z).len() as int) =~= rb + z);
    }
}

proof fn lemma_not_before_itself(z: Seq<u8>)
    ensures
        !bytes_before(z, z),
    decreases z.len(),
{
    if z.len() > 0 {
        lemma_not_before_itself(z.subrange(1, z.len() as int));
    }
}

proof fn lemma_le_bytes_padded(x: int, n: nat, m: nat)
    requires
        0 <= x < pow2(8 * n),
        n <= m,
    ensures
        le_bytes(x, m) == le_bytes(x, n) + zeros((m - n) as nat),
    decreases m,
{
    lemma2_to64();
    lemma_le_bytes_len(x, n);
    lemma_le_bytes_len(x, m);
    if n == 0 {
        if m > 0 {
            lemma_le_bytes_padded(0, 0, (m - 1) as nat);
        }
        assert(le_bytes(x, m) =~= le_bytes(x, n) + zeros((m - n) as nat));
    } else {
        let k = (n - 1) as nat;
        lemma_pow2_adds(8, 8 * k);
        assert(8 + 8 * k == 8 * n);
        assert(x / 0x100 < pow2(8 * k)) by (nonlinear_arith)
            requires
                0 <= x < 0x100 * pow2(8 * k),
        ;
        lemma_le_bytes_padded(x / 0x100, k, (m - 1) as nat);
        assert(le_bytes(x, m) =~= le_bytes(x, n) + zeros((m - n) as nat));
    }
}

/// Images are listed in the order of their values' bytes.
pub proof fn lemma_image_order(program: Program, a: TypedVal, b: TypedVal)
    requires
        a.spec_kind() == schema_of(program).key.spec_value_kind(),
        b.spec_kind() == schema_of(program).key.spec_value_kind(),
    ensures
        bytes_before(key_image(shape_of(program), a), key_image(shape_of(program), b))
            == bytes_before(value_image(a), value_image(b)),
{
    let shape = shape_of(program);
    law_shipped_shapes_carry_their_schemas(program);
    let n = shape.layout.match_len as nat;
    let (x, y) = (le_bytes(value_bits(a), n), le_bytes(value_bits(b), n));
    lemma_typed(a, n as int);
    lemma_typed(b, n as int);
    lemma_le_bytes_len(value_bits(a), n);
    lemma_le_bytes_len(value_bits(b), n);
    lemma_le_bytes_padded(value_bits(a), n, 8);
    lemma_le_bytes_padded(value_bits(b), n, 8);
    lemma_before_padded(x, y, zeros((8 - n) as nat));
    let front = zeros(shape.layout.match_at as nat);
    let back = zeros((shape.layout.key - shape.layout.match_at - n) as nat);
    lemma_before_padded(x, y, back);
    lemma_before_common(front, x + back, y + back);
    assert(key_image(shape, a) =~= front + (x + back));
    assert(key_image(shape, b) =~= front + (y + back));
}

/// The key image of the switch's table: the address's six octets with the last
/// one first, and two zero bytes.
pub proof fn law_l2_key_images(m: MacAddr)
    ensures
        ({
            let k = key_image(shape_of(Program::L2Fwd), TypedVal::Mac(m));
            &&& k.len() == 8
            &&& k[0] + k[1] * 0x100 + k[2] * 0x1_0000 + k[3] * 0x100_0000 == m.lo
            &&& k[4] + k[5] * 0x100 == m.hi
            &&& k[6] == 0 && k[7] == 0
        }),
{
    let n = value_bits(TypedVal::Mac(m));
    let s = le_bytes(n, 8);
    let k = key_image(shape_of(Program::L2Fwd), TypedVal::Mac(m));
    lemma_le_bytes_len(n, 8);
    assert(forall|i: int| 0 <= i < 8 ==> k[i] == s[i]);
    lemma_eight_bytes(n);
}

/// The bytes of a number below 2^48, eight of them.
#[verifier::rlimit(40)]
proof fn lemma_eight_bytes(n: int)
    requires
        0 <= n < 0x1_0000_0000_0000,
    ensures
        ({
            let s = le_bytes(n, 8);
            &&& s.len() == 8
            &&& s[0] + s[1] * 0x100 + s[2] * 0x1_0000 + s[3] * 0x100_0000 == n % 0x1_0000_0000
            &&& s[4] + s[5] * 0x100 == n / 0x1_0000_0000
            &&& s[6] == 0 && s[7] == 0
        }),
{
    lemma_le_bytes_len(n, 8);
    reveal_with_fuel(le_bytes, 9);
    let s = le_bytes(n, 8);
    let (n1, n2, n3, n4) = (n / 0x100, n / 0x100 / 0x100, n / 0x100 / 0x100 / 0x100, n / 0x100
        / 0x100 / 0x100 / 0x100);
    let (n5, n6, n7) = (n4 / 0x100, n4 / 0x100 / 0x100, n4 / 0x100 / 0x100 / 0x100);
    assert(s[0] == n % 0x100);
    assert(s[1] == n1 % 0x100);
    assert(s[2] == n2 % 0x100);
    assert(s[3] == n3 % 0x100);
    assert(s[4] == n4 % 0x100);
    assert(s[5] == n5 % 0x100);
    assert(s[6] == n6 % 0x100);
    assert(s[7] == n7 % 0x100);
    assert(n4 == n / 0x1_0000_0000);
    assert(n6 == 0 && n7 == 0);
}

/// The key image of the router's table: four zero bytes, then the address with
/// its last octet first.
pub proof fn law_l3_key_images(a: Ipv4Addr)
    ensures
        ({
            let k = key_image(shape_of(Program::L3Fwd), TypedVal::Ipv4(a));
            &&& k.len() == 8
            &&& k[0] == 0 && k[1] == 0 && k[2] == 0 && k[3] == 0
            &&& k[4] + k[5] * 0x100 + k[6] * 0x1_0000 + k[7] * 0x100_0000 == a.bits
        }),
{
    let n = a.bits as int;
    let s = le_bytes(n, 4);
    lemma_le_bytes_len(n, 4);
    reveal_with_fuel(le_bytes, 5);
    let k = key_image(shape_of(Program::L3Fwd), TypedVal::Ipv4(a));
    assert(k[4] == s[0] && k[5] == s[1] && k[6] == s[2] && k[7] == s[3]);
}

/// The value images of the switch's actions: 0 and the port behind it to
/// forward, 1 to flood, 2 to drop.
#[verifier::rlimit(40)]
pub proof fn law_l2_value_images(port: u16)
    ensures
        ({
            let shape = shape_of(Program::L2Fwd);
            let none = Seq::<TypedVal>::empty();
            let f = image_of(shape, Call { action: 0, params: seq![TypedVal::U16(port)] });
            let b = image_of(shape, Call { action: 1, params: none });
            let d = image_of(shape, Call { action: 2, params: none });
            &&& f.len() == 8 && b.len() == 8 && d.len() == 8
            &&& f[0] == 0 && f[1] == 0 && f[2] == 0 && f[3] == 0
            &&& f[4] + f[5] * 0x100 == port
            &&& f[6] == 0 && f[7] == 0
            &&& b == seq![1u8, 0, 0, 0, 0, 0, 0, 0]
            &&& d == seq![2u8, 0, 0, 0, 0, 0, 0, 0]
        }),
{
    let shape = shape_of(Program::L2Fwd);
    lemma_discriminants();
    lemma_le_bytes_len(port as int, 2);
    reveal_with_fuel(le_bytes, 3);
    reveal_with_fuel(with_params, 2);
    let s = le_bytes(port as int, 2);
    let f = image_of(shape, Call { action: 0, params: seq![TypedVal::U16(port)] });
    assert(shape.actions[0].fields[0] == (4usize, 2usize));
    assert(f[4] == s[0] && f[5] == s[1]);
}

proof fn lemma_discriminants()
    ensures
        le_bytes(0, 4) == seq![0u8, 0, 0, 0],
        le_bytes(1, 4) == seq![1u8, 0, 0, 0],
        le_bytes(2, 4) == seq![2u8, 0, 0, 0],
{
    lemma_le_bytes_len(0, 4);
    lemma_le_bytes_len(1, 4);
    lemma_le_bytes_len(2, 4);
    reveal_with_fuel(le_bytes, 5);
}

/// The value images of the router's actions: 0, the port at 8 and the address
/// at 16 to forward, 1 to punt, 2 to drop.
#[verifier::rlimit(40)]
pub proof fn law_l3_value_images(port: u16, dmac: MacAddr, i: int)
    requires
        0 <= i < 24,
    ensures
        ({
            let shape = shape_of(Program::L3Fwd);
            let none = Seq::<TypedVal>::empty();
            let hop = seq![TypedVal::U16(port), TypedVal::Mac(dmac)];
            let f = image_of(shape, Call { action: 0, params: hop });
            let p = image_of(shape, Call { action: 1, params: none });
            let d = image_of(shape, Call { action: 2, params: none });
            &&& f.len() == 24 && p.len() == 24 && d.len() == 24
            &&& f[8] + f[9] * 0x100 == port
            &&& f[16] + f[17] * 0x100 + f[18] * 0x1_0000 + f[19] * 0x100_0000 == dmac.lo
            &&& f[20] + f[21] * 0x100 == dmac.hi
            &&& i < 8 || 10 <= i < 16 || 22 <= i ==> f[i] == 0
            &&& p[i] == (if i == 0 {
                1u8
            } else {
                0
            })
            &&& d[i] == (if i == 0 {
                2u8
            } else {
                0
            })
        }),
{
    let shape = shape_of(Program::L3Fwd);
    lemma_discriminants();
    let n = value_bits(TypedVal::Mac(dmac));
    lemma_eight_bytes(n);
    lemma_le_bytes_len(port as int, 2);
    let hop = seq![TypedVal::U16(port), TypedVal::Mac(dmac)];
    let f = image_of(shape, Call { action: 0, params: hop });
    let (s, m) = (le_bytes(port as int, 2), le_bytes(n, 8));
    assert(s[0] + s[1] * 0x100 == port) by {
        reveal_with_fuel(le_bytes, 3);
    }
    reveal_with_fuel(with_params, 3);
    assert(shape.actions[0].fields[0] == (8usize, 2usize));
    assert(shape.actions[0].fields[1] == (16usize, 8usize));
    assert(f[8] == s[0] && f[9] == s[1]);
    assert(forall|k: int| 0 <= k < 8 ==> f[16 + k] == #[trigger] m[k]);
    assert(f[16] == m[0] && f[17] == m[1] && f[18] == m[2] && f[19] == m[3] && f[20] == m[4]
        && f[21] == m[5] && f[22] == m[6] && f[23] == m[7]);
}

} // verus!
