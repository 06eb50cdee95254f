//! The pipelines compiled into the switch.
//!
//! Each module renders one program block for block: the parser, then the
//! table application, then the deparse-time fix-ups.
use crate::lpm::Ipv4Prefix;
use crate::ops::canonical;
use crate::shim::{KeyKind, TableError, TableErrorModel, TableSchema, TypedKey};
use crate::value::{MacAddr, TypedVal, ValKind};
use vstd::prelude::*;

pub mod l2fwd;
pub mod l3fwd;
pub mod null;

verus! {

/// Extract an exact MAC key, or report the table's actual contract.
pub(crate) fn exact_mac(schema: &TableSchema, key: TypedKey) -> (r: Result<MacAddr, TableError>)
    requires
        schema.key == KeyKind::Exact(ValKind::Mac),
    ensures
        r matches Ok(m) ==> canonical(schema.key, key) == Some(key) && key == TypedKey::Exact(
            TypedVal::Mac(m),
        ),
        r matches Err(e) ==> canonical(schema.key, key) is None && e@ == (
        TableErrorModel::KeyKindMismatch {
            table: schema.name@,
            want: schema.key,
            got: key.spec_kind(),
        }),
{
    match key {
        TypedKey::Exact(TypedVal::Mac(m)) => Ok(m),
        other => Err(
            TableError::KeyKindMismatch { table: schema.name, want: schema.key, got: other.kind() },
        ),
    }
}

/// Extract an IPv4 prefix key, canonicalizing it into an [`Ipv4Prefix`].
pub(crate) fn lpm_ipv4(schema: &TableSchema, key: TypedKey) -> (r: Result<Ipv4Prefix, TableError>)
    requires
        schema.key == KeyKind::Lpm(ValKind::Ipv4),
    ensures
        r matches Ok(p) ==> canonical(schema.key, key) == Some(prefix_key(p)),
        r matches Err(e) ==> canonical(schema.key, key) is None && e@ == (
        TableErrorModel::KeyKindMismatch {
            table: schema.name@,
            want: schema.key,
            got: key.spec_kind(),
        }),
{
    match key {
        TypedKey::Lpm { value: TypedVal::Ipv4(addr), prefix_len } => match Ipv4Prefix::new(
            addr,
            prefix_len,
        ) {
            Some(p) => Ok(p),
            None => Err(
                TableError::KeyKindMismatch {
                    table: schema.name,
                    want: schema.key,
                    got: key.kind(),
                },
            ),
        },
        _ => Err(
            TableError::KeyKindMismatch { table: schema.name, want: schema.key, got: key.kind() },
        ),
    }
}

/// The key under which the control plane sees a prefix.
pub open spec fn prefix_key(p: Ipv4Prefix) -> TypedKey {
    TypedKey::Lpm {
        value: TypedVal::Ipv4(crate::net::Ipv4Addr { bits: p.spec_base() }),
        prefix_len: p.spec_len(),
    }
}

/// The `i`th action parameter as a `u16`.
pub(crate) fn param_u16(
    schema: &TableSchema,
    action: &'static str,
    params: &[TypedVal],
    i: usize,
) -> (r: Result<u16, TableError>)
    requires
        i < usize::MAX,
    ensures
        r matches Ok(v) ==> i < params@.len() && params@[i as int] == TypedVal::U16(v),
        r matches Err(e) ==> !(i < params@.len() && params@[i as int] is U16) && e@ == (
        TableErrorModel::Arity {
            table: schema.name@,
            action: action@,
            want: (i + 1) as nat,
            got: params@.len(),
        }),
{
    if i < params.len() {
        if let Some(v) = params[i].as_u16() {
            return Ok(v);
        }
    }
    Err(TableError::Arity { table: schema.name, action, want: i + 1, got: params.len() })
}

/// The `i`th action parameter as a MAC address.
pub(crate) fn param_mac(
    schema: &TableSchema,
    action: &'static str,
    params: &[TypedVal],
    i: usize,
) -> (r: Result<MacAddr, TableError>)
    requires
        i < usize::MAX,
    ensures
        r matches Ok(v) ==> i < params@.len() && params@[i as int] == TypedVal::Mac(v),
        r matches Err(e) ==> !(i < params@.len() && params@[i as int] is Mac) && e@ == (
        TableErrorModel::Arity {
            table: schema.name@,
            action: action@,
            want: (i + 1) as nat,
            got: params@.len(),
        }),
{
    if i < params.len() {
        if let Some(v) = params[i].as_mac() {
            return Ok(v);
        }
    }
    Err(TableError::Arity { table: schema.name, action, want: i + 1, got: params.len() })
}

} // verus!
