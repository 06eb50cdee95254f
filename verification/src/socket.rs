//! Limits of the fabric sockets.
//!
//! One UDP socket per shard. Buffer sizes are *requested* and then read back:
//! an unprivileged process gets whatever the kernel allows, and what was
//! granted is reported rather than raised.
use vstd::prelude::*;

verus! {

/// Segments staged per destination before a flush is forced.
pub const TX_BATCH: usize = 64;

/// Largest payload one segmented write may carry.
///
/// A segmented write is one datagram to the kernel until it is segmented, so
/// it is bounded by what an IPv4 datagram can hold: 65535 less the 20-byte IP
/// and 8-byte UDP headers.
pub const GSO_MAX_BYTES: usize = 65507;

/// Bytes reserved in front of every frame the pipeline sees.
pub const HEADROOM: usize = 64;

/// Socket buffer size requested for both directions.
pub const WANT_BUF_BYTES: usize = 0x80_0000;

/// Milliseconds a receive waits for traffic before the loop looks at the stop
/// flag again.
pub const RECV_TIMEOUT_MS: u64 = 200;

/// Milliseconds a blocked transmit waits for the send buffer to drain before
/// the remainder is dropped and counted.
pub const SEND_TIMEOUT_MS: u64 = 50;

/// What the kernel granted.
#[derive(Clone, Copy, Debug, PartialEq, Eq)]
pub struct SocketCaps {
    /// Granted receive buffer size in bytes.
    pub rcvbuf: usize,
    /// Granted send buffer size in bytes.
    pub sndbuf: usize,
    /// Segments a single read may coalesce; 1 means receive offload is
    /// unavailable.
    pub gro_segments: usize,
    /// Segments a single write may carry; 1 means send offload is unavailable.
    pub max_gso_segments: usize,
    /// Whether the socket may fragment outgoing datagrams.
    pub may_fragment: bool,
    /// Whether the address is shared with other shards.
    pub reuse_port: bool,
}

impl SocketCaps {
    /// Whether receive offload is in play.
    #[must_use]
    pub fn gro(self) -> (r: bool)
        ensures
            r == (self.gro_segments > 1),
    {
        self.gro_segments > 1
    }

    /// Whether send offload is in play.
    #[must_use]
    pub fn gso(self) -> (r: bool)
        ensures
            r == (self.max_gso_segments > 1),
    {
        self.max_gso_segments > 1
    }
}

/// How a socket operation failed, as far as the datapath tells failures apart.
#[derive(Clone, Copy, Debug, PartialEq, Eq, Structural)]
pub enum Failure {
    /// The operation would block.
    WouldBlock,
    /// The operation timed out.
    TimedOut,
    /// A signal interrupted the operation.
    Interrupted,
    /// Anything else.
    Other,
}

/// Whether a failure means "try again later" rather than "this socket is
/// done": a receive timeout is the loop's heartbeat, and an interruption is
/// what a signal looks like to a blocking call.
#[must_use]
pub fn is_transient(e: Failure) -> (r: bool)
    ensures
        r == (e is WouldBlock || e is TimedOut || e is Interrupted),
{
    match e {
        Failure::WouldBlock | Failure::TimedOut | Failure::Interrupted => true,
        Failure::Other => false,
    }
}

/// The limits of the fabric sockets: a batch is 64 segments, one write carries
/// what is left of a 65535-byte datagram behind 20 bytes of IP and 8 of UDP,
/// and a shard looks at the stop flag at least five times a second.
pub proof fn law_socket_limits()
    ensures
        TX_BATCH == 64,
        GSO_MAX_BYTES == 65535 - 20 - 8,
        HEADROOM == 64,
        WANT_BUF_BYTES == 8 * 1024 * 1024,
        RECV_TIMEOUT_MS * 5 == 1000,
        SEND_TIMEOUT_MS == 50,
{
}

} // verus!
