//! The `standard_metadata` of the architecture, laid out as C does.
use vstd::prelude::*;

verus! {

/// Byte offset of `input_port`.
pub const INPUT_PORT: usize = 0;

/// Byte offset of `packet_length`.
pub const PACKET_LENGTH: usize = 4;

/// Byte offset of `output_action`.
pub const OUTPUT_ACTION: usize = 8;

/// Byte offset of `output_port`.
pub const OUTPUT_PORT: usize = 12;

/// Total size, rounded to the 4-byte alignment of its widest member.
pub const SIZE: usize = 24;

} // verus!
