//! The control channel.
//!
//! A node's entire control surface is one socket speaking length-prefixed
//! messages: liveness, build and topology info, counter snapshots, table reads
//! and writes, punt drain, and graceful shutdown.
//!
//! Table writes carry the text an operator typed and are refined against the
//! pipeline's own schema on arrival, so the control plane has exactly one
//! place where untrusted text becomes typed values.
use vstd::prelude::*;

pub mod codec;
pub mod command;
pub mod protocol;
pub mod report;
pub mod server;

verus! {

} // verus!
