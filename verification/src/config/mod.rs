//! Configuration.
//!
//! Untrusted text enters the switch here and on the wire. What comes out of
//! validation is a value in which the violations it checks for are
//! unrepresentable: [`VportId`] cannot hold the reserved punt id, [`Threads`]
//! cannot hold 0 or 17, [`VportTable`] cannot hold a duplicate id or a
//! duplicate peer tuple. **Every** violation is collected rather than the
//! first.
use crate::net::SocketAddr;
use crate::text::same;
use crate::wire::{INNER_MTU_V4, INNER_MTU_V6, PUNT_VPORT};
use vstd::prelude::*;

pub mod error;
pub mod raw;
pub mod vport;

pub use error::{ConfigError, ConfigErrors};
pub use vport::{Vport, VportIdx, VportTable};

verus! {

/// Which address family the fabric (outer) packets use.
///
/// The variant selects the inner MTU, so nothing downstream branches on a
/// string.
#[derive(Clone, Copy, Debug, PartialEq, Eq, Structural)]
pub enum Fabric {
    /// IPv4 fabric: 20 B IP + 8 B UDP + 12 B overlay under a 1500 B path MTU.
    V4,
    /// IPv6 fabric: 40 B IP + 8 B UDP + 12 B overlay under a 1500 B path MTU.
    V6,
}

impl Default for Fabric {
    fn default() -> (r: Self)
        ensures
            r == Fabric::V4,
    {
        Fabric::V4
    }
}

impl Fabric {
    /// Largest inner Ethernet frame this fabric can carry.
    pub open spec fn spec_inner_mtu(self) -> usize {
        match self {
            Fabric::V4 => INNER_MTU_V4,
            Fabric::V6 => INNER_MTU_V6,
        }
    }

    /// Largest inner Ethernet frame this fabric can carry.
    #[must_use]
    pub fn inner_mtu(self) -> (r: usize)
        ensures
            r == self.spec_inner_mtu(),
    {
        match self {
            Fabric::V4 => INNER_MTU_V4,
            Fabric::V6 => INNER_MTU_V6,
        }
    }

    /// The fabric that `s` spells.
    pub open spec fn spelled(s: Seq<char>) -> Option<Fabric> {
        if s == "ipv4"@ {
            Some(Fabric::V4)
        } else if s == "ipv6"@ {
            Some(Fabric::V6)
        } else {
            None
        }
    }

    /// Parse the configuration spelling of a fabric.
    #[must_use]
    pub fn from_config_str(s: &str) -> (r: Option<Self>)
        ensures
            r == Fabric::spelled(s@),
    {
        if same(s, "ipv4") {
            Some(Fabric::V4)
        } else if same(s, "ipv6") {
            Some(Fabric::V6)
        } else {
            None
        }
    }

    /// Configuration spelling of this fabric.
    #[must_use]
    pub fn as_str(self) -> (r: &'static str)
        ensures
            self is V4 ==> r@ == "ipv4"@,
            self is V6 ==> r@ == "ipv6"@,
    {
        match self {
            Fabric::V4 => "ipv4",
            Fabric::V6 => "ipv6",
        }
    }
}

/// Both spellings read back as the fabric they spell.
pub proof fn law_fabric_spelling_round_trip()
    ensures
        Fabric::spelled("ipv4"@) == Some(Fabric::V4),
        Fabric::spelled("ipv6"@) == Some(Fabric::V6),
{
    reveal_strlit("ipv4");
    reveal_strlit("ipv6");
    assert("ipv4"@[3] == '4' && "ipv6"@[3] == '6');
}

/// A vport identifier: any u16 except the reserved punt id.
///
/// A `VportId` in hand is proof that the id is legal.
#[derive(Clone, Copy, Debug, PartialEq, Eq, Structural)]
pub struct VportId(u16);

impl VportId {
    #[verifier::type_invariant]
    spec fn inv(self) -> bool {
        self.0 != PUNT_VPORT
    }

    /// The raw id.
    pub closed spec fn spec_get(self) -> u16 {
        self.0
    }

    /// Refine a raw id, rejecting the reserved punt id.
    #[must_use]
    pub fn new(raw: u16) -> (r: Option<Self>)
        ensures
            r is None <==> raw == PUNT_VPORT,
            r matches Some(id) ==> id.spec_get() == raw,
    {
        if raw == PUNT_VPORT {
            None
        } else {
            Some(VportId(raw))
        }
    }

    /// The raw id, for the wire and for engine verdicts.
    #[must_use]
    pub fn get(self) -> (r: u16)
        ensures
            r == self.spec_get(),
            r != PUNT_VPORT,
    {
        proof {
            use_type_invariant(&self);
        }
        self.0
    }
}

/// Smallest legal shard count.
pub const THREADS_MIN: u8 = 1;

/// Largest legal shard count.
pub const THREADS_MAX: u8 = 16;

/// A shard count in `1..=16`.
#[derive(Clone, Copy, Debug, PartialEq, Eq, Structural)]
pub struct Threads(u8);

impl Threads {
    #[verifier::type_invariant]
    spec fn inv(self) -> bool {
        THREADS_MIN <= self.0 <= THREADS_MAX
    }

    /// The count.
    pub closed spec fn spec_get(self) -> int {
        self.0 as int
    }

    /// Refine a raw count.
    #[must_use]
    pub fn new(raw: u8) -> (r: Option<Self>)
        ensures
            r is Some <==> THREADS_MIN <= raw <= THREADS_MAX,
            r matches Some(t) ==> t.spec_get() == raw,
    {
        if raw >= THREADS_MIN && raw <= THREADS_MAX {
            Some(Threads(raw))
        } else {
            None
        }
    }

    /// The count as a `usize`, for sizing per-shard structures.
    #[must_use]
    pub fn get(self) -> (r: usize)
        ensures
            r == self.spec_get(),
            THREADS_MIN <= r <= THREADS_MAX,
    {
        proof {
            use_type_invariant(&self);
        }
        self.0 as usize
    }
}

impl Default for Threads {
    fn default() -> (r: Self)
        ensures
            r.spec_get() == 1,
    {
        Threads(1)
    }
}

/// Node-scoped settings.
#[derive(Clone, Debug)]
pub struct NodeConfig {
    /// Log label only; carries no semantics.
    pub id: String,
    /// Address the fabric socket(s) bind to.
    pub bind: SocketAddr,
    /// Outer address family.
    pub fabric: Fabric,
    /// Name of a pipeline in the compiled-in registry.
    pub pipeline: String,
    /// Number of receive/transmit shard pairs.
    pub threads: Threads,
    /// Core ids to pin shards to, in shard order; empty means "do not pin".
    pub pin_cores: Vec<usize>,
    /// Path of the control channel's socket.
    pub ctl_socket: String,
    /// Counter snapshot period in seconds; `None` when snapshots are off.
    pub metrics_interval: Option<u64>,
}

/// Punt configuration.
///
/// A witness that punting is enabled; when it is absent, punt verdicts are
/// counted and there is no queue to speak of.
#[derive(Clone, Copy, Debug)]
pub struct PuntConfig {
    /// Always the reserved id; kept as a field so the file's value is echoed
    /// back rather than silently ignored.
    pub vport: u16,
}

/// A validated configuration.
#[derive(Debug)]
pub struct Config {
    /// Node-scoped settings.
    pub node: NodeConfig,
    /// The vports, with their id and peer indexes prebuilt.
    pub vports: VportTable,
    /// Punt channel, if enabled.
    pub punt: Option<PuntConfig>,
}

impl Config {
    /// Validate a configuration file, or report that it could not be read as
    /// one: a syntax error leaves nothing further to check.
    ///
    /// `registry` is the list of pipeline names compiled into this binary.
    pub fn from_parsed(parsed: Result<raw::RawConfig, String>, registry: &[&str]) -> (r: Result<
        Self,
        ConfigErrors,
    >)
        ensures
            r is Ok <==> (parsed matches Ok(file) && raw::violations(
                file,
                raw::shown_all(registry@),
            ).len() == 0),
            r matches Ok(c) ==> raw::means(parsed->Ok_0, c),
            r matches Err(e) ==> match parsed {
                Ok(file) => e@ == raw::violations(file, raw::shown_all(registry@)),
                Err(text) => e@ == seq![error::ConfigErrorModel::Toml(text@)],
            },
    {
        match parsed {
            Ok(file) => file.validate(registry),
            Err(text) => Err(ConfigErrors::single(ConfigError::Toml(text))),
        }
    }

    /// Largest inner frame this node may transmit.
    #[must_use]
    pub fn inner_mtu(&self) -> (r: usize)
        ensures
            r == self.node.fabric.spec_inner_mtu(),
    {
        self.node.fabric.inner_mtu()
    }
}

/// What a fabric leaves of a 1500-byte packet for an inner frame: all but an
/// IP header of 20 or 40 bytes, 8 of UDP and 12 of overlay.
pub proof fn law_inner_mtu_is_what_is_left(fabric: Fabric)
    ensures
        fabric is V4 ==> fabric.spec_inner_mtu() == 1500 - 20 - 8 - 12,
        fabric is V6 ==> fabric.spec_inner_mtu() == 1500 - 40 - 8 - 12,
{
}

} // verus!
