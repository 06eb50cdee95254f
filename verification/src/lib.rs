//! A userspace P4 switch: overlay wire format, match-action tables, engines
//! and the control plane around them.
use vstd::prelude::*;

pub mod b64;
pub mod bytes;
pub mod catalog;
pub mod clock;
pub mod config;
pub mod ctl;
pub mod engine;
pub mod envelope;
pub mod fate;
pub mod frame;
pub mod headers;
pub mod lpm;
pub mod metrics;
pub mod named;
pub mod net;
pub mod ops;
pub mod pktgen;
pub mod probe;
pub mod programs;
pub mod punt;
pub mod registry;
pub mod rx;
pub mod seq;
pub mod shard;
pub mod shim;
pub mod signal;
pub mod snapshot;
pub mod socket;
pub mod table;
pub mod template;
pub mod text;
pub mod tx;
pub mod ubpf;
pub mod value;
pub mod warn;
pub mod wire;
pub mod x4c;

verus! {

} // verus!
