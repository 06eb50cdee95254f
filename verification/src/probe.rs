//! Capability probe.
//!
//! The switch never *raises* a system limit; it asks, records what it was
//! given, and says so. Everything here is best-effort by construction: what
//! could not be read is data (`None`, `false`) and never an error, so a probe
//! on an unfamiliar kernel still produces a complete document.
use crate::bytes::{be32, be32_bytes, lemma_be32_bytes_of, lemma_be32_round_trip};
use crate::net::Ipv4Addr;
use crate::socket::{SocketCaps, WANT_BUF_BYTES};
use crate::text::{
    at_most, chars_of, dec, fields, find_char, first_index, lemma_fields_extend,
    lemma_fields_unbroken, lemma_first_index, lines, number, parse_number, push_dec, rows,
    split_fields, split_lines, split_words, string_of, trim, trimmed, unbroken, words,
};
use vstd::prelude::*;

verus! {

/// The path MTU that the inner MTU constants assume.
pub const ASSUMED_MTU: u32 = 1500;

/// Everything the probe learned.
#[derive(Clone, Debug)]
pub struct Probe {
    /// `uname -r`.
    pub kernel: String,
    /// `uname -m`.
    pub arch: String,
    /// Buffer size requested for each direction.
    pub sockbuf_requested: usize,
    /// Buffer size the kernel granted for receive.
    pub rcvbuf_granted: usize,
    /// Buffer size the kernel granted for send.
    pub sndbuf_granted: usize,
    /// Whether receive offload can be switched on.
    pub udp_gro: bool,
    /// Whether send offload can be switched on.
    pub udp_segment: bool,
    /// Segments coalesced per read.
    pub gro_segments: usize,
    /// Segments emitted per write.
    pub max_gso_segments: usize,
    /// Whether the socket may fragment.
    pub may_fragment: bool,
    /// Whether the kernel refuses io_uring, in its own words, if it says.
    pub io_uring_disabled: Option<String>,
    /// CPUs this process may run on, from the cgroup cpuset when readable.
    pub cpus_available: usize,
    /// The raw cpuset string, when one was found.
    pub cpuset: Option<String>,
    /// Route MTU to the peer the caller asked about.
    pub peer_mtu: Option<PeerMtu>,
    /// Assumptions that this host contradicts.
    pub warnings: Vec<String>,
}

/// The egress interface and MTU for a peer address.
#[derive(Clone, Debug)]
pub struct PeerMtu {
    /// The peer that was asked about.
    pub peer: String,
    /// Interface the route table selects.
    pub interface: String,
    /// That interface's MTU, if readable.
    pub mtu: Option<u32>,
}

/// What was read off the host.
#[derive(Clone, Debug)]
pub struct HostFacts {
    /// `uname -r`.
    pub kernel: String,
    /// `uname -m`.
    pub arch: String,
    /// What a throwaway socket was granted, if one could be bound.
    pub caps: Option<SocketCaps>,
    /// Whether receive offload can be switched on.
    pub udp_gro: bool,
    /// Whether send offload can be switched on.
    pub udp_segment: bool,
    /// Whether the kernel refuses io_uring, in its own words, if it says.
    pub io_uring_disabled: Option<String>,
    /// The raw cpuset string, when one was found.
    pub cpuset: Option<String>,
    /// How many threads the standard library would run at once, if it knows.
    pub parallelism: Option<usize>,
    /// The route to the peer the caller asked about.
    pub peer_mtu: Option<PeerMtu>,
}

/// The warning about a route that is too narrow.
pub open spec fn mtu_warning(p: PeerMtu) -> Seq<char> {
    "route to "@ + p.peer@ + " via "@ + p.interface@ + " has MTU "@ + dec(p.mtu->0 as int) + " < "@
        + dec(ASSUMED_MTU as int) + "; inner MTU must be recomputed from it"@
}

/// The warning about a receive buffer that is smaller than requested.
pub open spec fn rcvbuf_warning(rcvbuf: int) -> Seq<char> {
    "SO_RCVBUF granted "@ + dec(rcvbuf) + " of "@ + dec(WANT_BUF_BYTES as int)
        + " requested; raising net.core.rmem_max is out of scope for an unprivileged process"@
}

/// `text`, if there is something to say.
pub open spec fn noted(found: bool, text: Seq<char>) -> Seq<Seq<char>> {
    if found {
        seq![text]
    } else {
        Seq::empty()
    }
}

/// Whether the route to the peer is narrower than assumed.
pub open spec fn is_narrow(p: Option<PeerMtu>) -> bool {
    match p {
        Some(p) => match p.mtu {
            Some(mtu) => mtu < ASSUMED_MTU,
            None => false,
        },
        None => false,
    }
}

/// Every warning, in order.
pub open spec fn warnings_of(facts: HostFacts) -> Seq<Seq<char>> {
    noted(is_narrow(facts.peer_mtu), mtu_warning(facts.peer_mtu->0)) + (match facts.caps {
        None => Seq::empty(),
        Some(c) => noted(
            c.gro_segments <= 1,
            "UDP GRO unavailable; receive falls back to one datagram per read"@,
        ) + noted(
            c.max_gso_segments <= 1,
            "UDP GSO unavailable; transmit falls back to one datagram per write"@,
        ) + noted(c.rcvbuf < WANT_BUF_BYTES, rcvbuf_warning(c.rcvbuf as int)),
    })
}

fn push_narrow(p: &PeerMtu, mtu: u32, out: &mut Vec<String>)
    requires
        p.mtu == Some(mtu),
    ensures
        crate::text::texts(final(out)@) == crate::text::texts(old(out)@).push(mtu_warning(*p)),
{
    let mut w: String = "route to ".to_owned();
    w.append(p.peer.as_str());
    w.append(" via ");
    w.append(p.interface.as_str());
    w.append(" has MTU ");
    push_dec(&mut w, mtu as u64);
    w.append(" < ");
    push_dec(&mut w, ASSUMED_MTU as u64);
    w.append("; inner MTU must be recomputed from it");
    assert(w@ == mtu_warning(*p));
    out.push(w);
    assert(crate::text::texts(out@) =~= crate::text::texts(old(out)@).push(mtu_warning(*p)));
}

fn push_warning(out: &mut Vec<String>, w: String)
    ensures
        crate::text::texts(final(out)@) == crate::text::texts(old(out)@).push(w@),
{
    out.push(w);
    assert(crate::text::texts(out@) =~= crate::text::texts(old(out)@).push(w@));
}

/// The assumptions that this host contradicts.
#[must_use]
pub fn warnings(facts: &HostFacts) -> (r: Vec<String>)
    ensures
        crate::text::texts(r@) == warnings_of(*facts),
{
    let mut out: Vec<String> = Vec::new();
    assert(crate::text::texts(out@) =~= Seq::empty());
    if let Some(p) = &facts.peer_mtu {
        if let Some(mtu) = p.mtu {
            if mtu < ASSUMED_MTU {
                push_narrow(p, mtu, &mut out);
            }
        }
    }
    let ghost w0 = crate::text::texts(out@);
    assert(w0 =~= noted(is_narrow(facts.peer_mtu), mtu_warning(facts.peer_mtu->0)));
    if let Some(c) = facts.caps {
        if !c.gro() {
            push_warning(
                &mut out,
                "UDP GRO unavailable; receive falls back to one datagram per read".to_owned(),
            );
        }
        let ghost w1 = crate::text::texts(out@);
        if !c.gso() {
            push_warning(
                &mut out,
                "UDP GSO unavailable; transmit falls back to one datagram per write".to_owned(),
            );
        }
        let ghost w2 = crate::text::texts(out@);
        if c.rcvbuf < WANT_BUF_BYTES {
            let mut w: String = "SO_RCVBUF granted ".to_owned();
            push_dec(&mut w, c.rcvbuf as u64);
            w.append(" of ");
            push_dec(&mut w, WANT_BUF_BYTES as u64);
            w.append(
                " requested; raising net.core.rmem_max is out of scope for an unprivileged process",
            );
            assert(w@ == rcvbuf_warning(c.rcvbuf as int));
            push_warning(&mut out, w);
        }
        proof {
            let a = noted(
                c.gro_segments <= 1,
                "UDP GRO unavailable; receive falls back to one datagram per read"@,
            );
            let b = noted(
                c.max_gso_segments <= 1,
                "UDP GSO unavailable; transmit falls back to one datagram per write"@,
            );
            let d = noted(c.rcvbuf < WANT_BUF_BYTES, rcvbuf_warning(c.rcvbuf as int));
            assert(w1 =~= w0 + a);
            assert(w2 =~= w1 + b);
            assert(crate::text::texts(out@) =~= w2 + d);
            assert(crate::text::texts(out@) =~= w0 + (a + b + d));
        }
    } else {
        assert(crate::text::texts(out@) =~= w0 + Seq::<Seq<char>>::empty());
    }
    out
}

/// The CPUs this process may run on: as the cpuset counts them, else as many
/// as the standard library would use, else one.
pub open spec fn cpus(cpuset: Option<Seq<char>>, parallelism: Option<usize>) -> int {
    if cpuset is Some && cpuset_count(cpuset->0) > 0 {
        cpuset_count(cpuset->0)
    } else {
        match parallelism {
            Some(n) => n as int,
            None => 1,
        }
    }
}

/// The characters of a text that may be absent.
pub open spec fn maybe_text(s: Option<String>) -> Option<Seq<char>> {
    match s {
        Some(t) => Some(t@),
        None => None,
    }
}

/// The document that the facts make.
#[must_use]
pub fn probe(facts: HostFacts) -> (r: Probe)
    requires
        facts.cpuset matches Some(s) ==> cpuset_count(s@) <= usize::MAX,
    ensures
        r.kernel@ == facts.kernel@,
        r.arch@ == facts.arch@,
        r.sockbuf_requested == WANT_BUF_BYTES,
        r.rcvbuf_granted == (match facts.caps {
            Some(c) => c.rcvbuf,
            None => 0,
        }),
        r.sndbuf_granted == (match facts.caps {
            Some(c) => c.sndbuf,
            None => 0,
        }),
        r.udp_gro == facts.udp_gro,
        r.udp_segment == facts.udp_segment,
        r.gro_segments == (match facts.caps {
            Some(c) => c.gro_segments,
            None => 1,
        }),
        r.max_gso_segments == (match facts.caps {
            Some(c) => c.max_gso_segments,
            None => 1,
        }),
        r.may_fragment == (facts.caps matches Some(c) && c.may_fragment),
        maybe_text(r.io_uring_disabled) == maybe_text(facts.io_uring_disabled),
        r.cpus_available == cpus(maybe_text(facts.cpuset), facts.parallelism),
        maybe_text(r.cpuset) == maybe_text(facts.cpuset),
        r.peer_mtu == facts.peer_mtu,
        crate::text::texts(r.warnings@) == warnings_of(facts),
{
    let warned: Vec<String> = warnings(&facts);
    let counted: usize = match &facts.cpuset {
        Some(s) => count_cpuset(s.as_str()),
        None => 0,
    };
    let cpus_available: usize = if counted > 0 {
        counted
    } else {
        match facts.parallelism {
            Some(n) => n,
            None => 1,
        }
    };
    let caps: SocketCaps = match facts.caps {
        Some(c) => c,
        None => SocketCaps {
            rcvbuf: 0,
            sndbuf: 0,
            gro_segments: 1,
            max_gso_segments: 1,
            may_fragment: false,
            reuse_port: false,
        },
    };
    Probe {
        kernel: facts.kernel,
        arch: facts.arch,
        sockbuf_requested: WANT_BUF_BYTES,
        rcvbuf_granted: caps.rcvbuf,
        sndbuf_granted: caps.sndbuf,
        udp_gro: facts.udp_gro,
        udp_segment: facts.udp_segment,
        gro_segments: caps.gro_segments,
        max_gso_segments: caps.max_gso_segments,
        may_fragment: caps.may_fragment,
        io_uring_disabled: facts.io_uring_disabled,
        cpus_available,
        cpuset: facts.cpuset,
        peer_mtu: facts.peer_mtu,
        warnings: warned,
    }
}

/// A number that fits a machine word.
pub open spec fn word(s: Seq<char>) -> Option<int> {
    at_most(number(trimmed(s), 10), usize::MAX as int)
}

/// The CPUs in one part of a cpuset list: one, or a range of them. What is
/// neither counts for nothing.
pub open spec fn part_count(s: Seq<char>) -> int {
    let dash = first_index(s, '-');
    if dash >= s.len() {
        if word(s) is Some {
            1
        } else {
            0
        }
    } else {
        match (word(s.subrange(0, dash)), word(s.subrange(dash + 1, s.len() as int))) {
            (Some(lo), Some(hi)) => if lo <= hi {
                hi - lo + 1
            } else {
                0
            },
            _ => 0,
        }
    }
}

/// The CPUs in the first `n` parts of a list.
pub open spec fn parts_count(parts: Seq<Seq<char>>, n: int) -> int
    decreases n,
{
    if n <= 0 {
        0
    } else {
        parts_count(parts, n - 1) + part_count(parts[n - 1])
    }
}

/// The CPUs in a cpuset list such as `0-3,8`.
pub open spec fn cpuset_count(s: Seq<char>) -> int {
    let parts = fields(s, seq![',']);
    parts_count(parts, parts.len() as int)
}

fn parse_word(s: &[char]) -> (r: Option<usize>)
    ensures
        r matches Some(v) ==> word(s@) == Some(v as int),
        r is None ==> word(s@) is None,
{
    match parse_number(trim(s), 10) {
        Some(v) => if v <= usize::MAX as u64 {
            Some(v as usize)
        } else {
            None
        },
        None => None,
    }
}

fn count_part(s: &[char]) -> (r: u128)
    ensures
        r == part_count(s@),
        r <= 0x1_0000_0000_0000_0000,
{
    let dash: usize = find_char(s, '-');
    if dash >= s.len() {
        match parse_word(s) {
            Some(_) => 1,
            None => 0,
        }
    } else {
        match (parse_word(&s[0..dash]), parse_word(&s[dash + 1..s.len()])) {
            (Some(lo), Some(hi)) => if lo <= hi {
                (hi - lo) as u128 + 1
            } else {
                0
            },
            _ => 0,
        }
    }
}

proof fn lemma_parts_grow(parts: Seq<Seq<char>>, i: int, j: int)
    requires
        0 <= i <= j,
    ensures
        0 <= parts_count(parts, i) <= parts_count(parts, j),
    decreases j,
{
    if i < j {
        lemma_parts_grow(parts, i, j - 1);
    } else if i > 0 {
        lemma_parts_grow(parts, i - 1, i - 1);
    }
}

/// The CPUs in a cpuset list, unless they are more than a machine word counts.
#[must_use]
pub fn checked_cpuset(spec: &str) -> (r: Option<usize>)
    ensures
        r is Some <==> cpuset_count(spec@) <= usize::MAX,
        r matches Some(n) ==> n == cpuset_count(spec@),
{
    let s: Vec<char> = chars_of(spec);
    let seps: [char; 1] = [','];
    assert(seps@ =~= seq![',']);
    let parts: Vec<Vec<char>> = split_fields(s.as_slice(), seps.as_slice());
    let ghost f = fields(spec@, seq![',']);
    let mut sum: usize = 0;
    let mut i: usize = 0;
    while i < parts.len()
        invariant
            i <= parts@.len(),
            f == rows(parts@),
            f == fields(spec@, seq![',']),
            sum == parts_count(f, i as int),
        decreases parts.len() - i,
    {
        let n: u128 = count_part(parts[i].as_slice());
        assert(f[i as int] == parts@[i as int]@);
        proof {
            lemma_parts_grow(f, i + 1, f.len() as int);
        }
        if sum as u128 + n > usize::MAX as u128 {
            return None;
        }
        sum = (sum as u128 + n) as usize;
        i += 1;
    }
    Some(sum)
}

/// Count the CPUs in a cpuset list such as `0-3,8`.
#[must_use]
pub fn count_cpuset(spec: &str) -> (r: usize)
    requires
        cpuset_count(spec@) <= usize::MAX,
    ensures
        r == cpuset_count(spec@),
{
    match checked_cpuset(spec) {
        Some(n) => n,
        None => 0,
    }
}

/// The bytes of `x` in the opposite order.
pub open spec fn swapped(x: u32) -> u32 {
    (x % 0x100 * 0x100_0000 + x / 0x100 % 0x100 * 0x1_0000 + x / 0x1_0000 % 0x100 * 0x100 + x
        / 0x100_0000) as u32
}

/// The address in a field of the kernel's route table: the network-order word
/// in the host's byte order, so that on a little-endian machine the digits
/// arrive reversed.
pub open spec fn route_field(s: Seq<char>, little_endian: bool) -> Option<u32> {
    match at_most(number(s, 16), u32::MAX as int) {
        None => None,
        Some(raw) => Some(
            if little_endian {
                swapped(raw as u32)
            } else {
                raw as u32
            },
        ),
    }
}

/// A field of the kernel's route table as a host-order address value.
#[must_use]
pub fn hex_addr(field: &[char], little_endian: bool) -> (r: Option<u32>)
    ensures
        r == route_field(field@, little_endian),
{
    match parse_number(field, 16) {
        Some(v) => if v <= u32::MAX as u64 {
            let x: u32 = v as u32;
            if little_endian {
                Some(
                    x % 0x100 * 0x100_0000 + x / 0x100 % 0x100 * 0x1_0000 + x / 0x1_0000 % 0x100
                        * 0x100 + x / 0x100_0000,
                )
            } else {
                Some(x)
            }
        } else {
            None
        },
        None => None,
    }
}

/// The set bits of `n`.
pub open spec fn ones(n: int) -> int
    decreases n,
{
    if n <= 0 {
        0
    } else {
        n % 2 + ones(n / 2)
    }
}

fn count_ones(n: u32) -> (r: u32)
    ensures
        r == ones(n as int),
        r <= n,
    decreases n,
{
    if n == 0 {
        0
    } else {
        n % 2 + count_ones(n / 2)
    }
}

/// A route that a line of the table offers to `target`: its prefix length and
/// its interface. The interface, destination and mask are the line's first,
/// second and eighth words.
pub open spec fn route_offer(line: Seq<char>, target: u32, little_endian: bool) -> Option<
    (int, Seq<char>),
> {
    let w = words(line);
    if w.len() < 8 {
        None
    } else {
        match (route_field(w[1], little_endian), route_field(w[7], little_endian)) {
            (Some(destination), Some(mask)) => if target & mask == destination {
                Some((ones(mask as int), w[0]))
            } else {
                None
            },
            _ => None,
        }
    }
}

/// The best route among the first `n` lines, of which the first is a heading:
/// the longest prefix, and the last of several equally long.
pub open spec fn best_route(
    all: Seq<Seq<char>>,
    target: u32,
    little_endian: bool,
    n: int,
) -> Option<(int, Seq<char>)>
    decreases n,
{
    if n <= 1 {
        None
    } else {
        let before = best_route(all, target, little_endian, n - 1);
        match (before, route_offer(all[n - 1], target, little_endian)) {
            (Some(b), Some(o)) => if o.0 >= b.0 {
                Some(o)
            } else {
                Some(b)
            },
            (None, offer) => offer,
            (before, None) => before,
        }
    }
}

/// The interface that a route table selects for an address.
pub open spec fn selected(table: Seq<char>, dest: Ipv4Addr, little_endian: bool) -> Option<
    Seq<char>,
> {
    let all = lines(table);
    match best_route(all, dest.bits, little_endian, all.len() as int) {
        Some(b) => Some(b.1),
        None => None,
    }
}

fn read_offer(line: &[char], target: u32, little_endian: bool) -> (r: Option<(u32, String)>)
    ensures
        r is Some <==> route_offer(line@, target, little_endian) is Some,
        r matches Some(o) ==> route_offer(line@, target, little_endian) == Some((o.0 as int, o.1@)),
{
    let w: Vec<Vec<char>> = split_words(line);
    let ghost all = words(line@);
    assert(all == rows(w@));
    if w.len() < 8 {
        return None;
    }
    assert(all[0] == w@[0]@ && all[1] == w@[1]@ && all[7] == w@[7]@);
    match (hex_addr(w[1].as_slice(), little_endian), hex_addr(w[7].as_slice(), little_endian)) {
        (Some(destination), Some(mask)) => if target & mask == destination {
            Some((count_ones(mask), string_of(w[0].as_slice())))
        } else {
            None
        },
        _ => None,
    }
}

/// The interface that the kernel's route table selects for `dest`.
#[must_use]
pub fn route_interface(table: &str, dest: Ipv4Addr, little_endian: bool) -> (r: Option<String>)
    ensures
        maybe_text(r) == selected(table@, dest, little_endian),
{
    let s: Vec<char> = chars_of(table);
    let all: Vec<Vec<char>> = split_lines(s.as_slice());
    let ghost shown = lines(table@);
    assert(shown == rows(all@));
    let mut best: Option<(u32, String)> = None;
    let mut i: usize = 1;
    if all.len() == 0 {
        return None;
    }
    while i < all.len()
        invariant
            1 <= i <= all@.len(),
            shown == rows(all@),
            best is Some <==> best_route(shown, dest.bits, little_endian, i as int) is Some,
            best matches Some(b) ==> best_route(shown, dest.bits, little_endian, i as int) == Some(
                (b.0 as int, b.1@),
            ),
        decreases all.len() - i,
    {
        assert(shown[i as int] == all@[i as int]@);
        match read_offer(all[i].as_slice(), dest.bits, little_endian) {
            Some(offer) => {
                let better: bool = match &best {
                    Some(b) => offer.0 >= b.0,
                    None => true,
                };
                if better {
                    best = Some(offer);
                }
            },
            None => {},
        }
        i += 1;
    }
    match best {
        Some(b) => Some(b.1),
        None => None,
    }
}

/// The interface and MTU for a peer, from the interface that was selected and
/// what the kernel says of its MTU.
#[must_use]
pub fn peer_mtu(peer: String, interface: Option<String>, mtu: Option<String>) -> (r: PeerMtu)
    ensures
        r.peer@ == peer@,
        r.interface@ == (match interface {
            Some(i) => i@,
            None => "unknown"@,
        }),
        r.mtu == (match mtu {
            Some(t) if interface is Some => match at_most(number(t@, 10), u32::MAX as int) {
                Some(n) => Some(n as u32),
                None => None,
            },
            _ => None::<u32>,
        }),
{
    match interface {
        None => PeerMtu { peer, interface: "unknown".to_owned(), mtu: None },
        Some(interface) => {
            let read: Option<u32> = match mtu {
                Some(text) => {
                    let s: Vec<char> = chars_of(text.as_str());
                    match parse_number(s.as_slice(), 10) {
                        Some(n) => if n <= u32::MAX as u64 {
                            Some(n as u32)
                        } else {
                            None
                        },
                        None => None,
                    }
                },
                None => None,
            };
            PeerMtu { peer, interface, mtu: read }
        },
    }
}

/// What a file holds, without the white space around it; nothing where that
/// is all there is.
#[must_use]
pub fn content(file: &str) -> (r: Option<String>)
    ensures
        maybe_text(r) == (if trimmed(file@).len() == 0 {
            None
        } else {
            Some(trimmed(file@))
        }),
{
    let s: Vec<char> = chars_of(file);
    let t: &[char] = trim(s.as_slice());
    if t.len() == 0 {
        None
    } else {
        Some(string_of(t))
    }
}

/// A cpuset list is the sum of its parts.
pub proof fn law_cpuset_lists_add_up(a: Seq<char>, part: Seq<char>)
    requires
        forall|i: int| 0 <= i < part.len() ==> (#[trigger] part[i]) != ',',
    ensures
        cpuset_count(a.push(',') + part) == cpuset_count(a) + part_count(part),
        cpuset_count(part) == part_count(part),
{
    let seps = seq![','];
    assert(seps[0] == ',');
    assert(unbroken(part, seps));
    lemma_fields_extend(a, ',', part, seps);
    lemma_fields_unbroken(part, seps);
    let f = fields(a, seps);
    lemma_parts_front(f, f.push(part), f.len() as int);
    reveal_with_fuel(parts_count, 2);
}

proof fn lemma_parts_front(a: Seq<Seq<char>>, b: Seq<Seq<char>>, n: int)
    requires
        0 <= n <= a.len(),
        n <= b.len(),
        forall|i: int| 0 <= i < n ==> (#[trigger] a[i]) == b[i],
    ensures
        parts_count(a, n) == parts_count(b, n),
    decreases n,
{
    if n > 0 {
        lemma_parts_front(a, b, n - 1);
        assert(a[n - 1] == b[n - 1]);
    }
}

/// A part that is a number is one CPU, a range is all the CPUs from its first
/// to its last, both included, and what can be read as neither is none.
pub proof fn law_cpuset_parts(lo: Seq<char>, hi: Seq<char>)
    requires
        forall|i: int| 0 <= i < lo.len() ==> (#[trigger] lo[i]) != '-',
    ensures
        part_count(lo) == (if word(lo) is Some {
            1int
        } else {
            0
        }),
        ({
            let n = part_count(lo.push('-') + hi);
            if word(lo) is Some && word(hi) is Some && word(lo)->0 <= word(hi)->0 {
                n == word(hi)->0 - word(lo)->0 + 1
            } else {
                n == 0
            }
        }),
{
    lemma_first_index(lo, '-', lo.len() as int);
    let s = lo.push('-') + hi;
    let at = lo.len() as int;
    assert forall|j: int| 0 <= j < at implies s[j] != '-' by {
        assert(s[j] == lo[j]);
    }
    assert(s[at] == '-');
    lemma_first_index(s, '-', at);
    assert(s.subrange(0, at) =~= lo);
    assert(s.subrange(at + 1, s.len() as int) =~= hi);
}

/// The route table's words hold an address with its bytes in the order of the
/// machine: turning a word round twice gives it back, and on a little-endian
/// machine the last two digits are the first octet.
#[verifier::rlimit(40)]
pub proof fn law_route_words_are_turned_round(x: u32, s: Seq<char>)
    ensures
        swapped(swapped(x)) == x,
        swapped(x) / 0x100_0000 == x % 0x100,
        swapped(x) / 0x1_0000 % 0x100 == x / 0x100 % 0x100,
        swapped(x) / 0x100 % 0x100 == x / 0x1_0000 % 0x100,
        swapped(x) % 0x100 == x / 0x100_0000,
        route_field(s, true) is Some <==> route_field(s, false) is Some,
        route_field(s, false) matches Some(a) ==> number(s, 16) == Some(a as int)
            && route_field(s, true) == Some(swapped(a)),
{
    lemma_swapped(x);
    lemma_swapped(swapped(x));
    if let Some(v) = at_most(number(s, 16), u32::MAX as int) {
        crate::text::law_number_is_not_negative(s, 16);
    }
}

#[verifier::rlimit(40)]
proof fn lemma_swapped(x: u32)
    ensures
        ({
            let y = swapped(x) as int;
            &&& y / 0x100_0000 == x % 0x100
            &&& y / 0x1_0000 % 0x100 == x / 0x100 % 0x100
            &&& y / 0x100 % 0x100 == x / 0x1_0000 % 0x100
            &&& y % 0x100 == x / 0x100_0000
            &&& y == x % 0x100 * 0x100_0000 + x / 0x100 % 0x100 * 0x1_0000 + x / 0x1_0000 % 0x100
                * 0x100 + x / 0x100_0000
            &&& x == x / 0x100_0000 * 0x100_0000 + x / 0x1_0000 % 0x100 * 0x1_0000 + x / 0x100
                % 0x100 * 0x100 + x % 0x100
        }),
{
    let (a, b, c, d) = (
        (x / 0x100_0000) as u8,
        (x / 0x1_0000 % 0x100) as u8,
        (x / 0x100 % 0x100) as u8,
        (x % 0x100) as u8,
    );
    lemma_be32_round_trip(x as int);
    let s = be32_bytes(x as int);
    assert(s[0] == a && s[1] == b && s[2] == c && s[3] == d);
    let turned = seq![d, c, b, a];
    lemma_be32_bytes_of(turned);
    let t = be32_bytes(be32(turned, 0));
    assert(t[0] == d && t[1] == c && t[2] == b && t[3] == a);
    assert(be32(turned, 0) == swapped(x));
}

/// The set bits of a number are those of its half, and one more where it is
/// odd.
pub proof fn law_set_bits(n: int)
    requires
        0 <= n,
    ensures
        ones(0) == 0,
        ones(2 * n) == ones(n),
        ones(2 * n + 1) == ones(n) + 1,
{
    reveal_with_fuel(ones, 2);
    assert((2 * n) / 2 == n && (2 * n) % 2 == 0);
    assert((2 * n + 1) / 2 == n && (2 * n + 1) % 2 == 1);
}

/// The selected route is the longest one that a line offers, and of several
/// equally long the last. Without an offer there is none.
pub proof fn law_the_longest_route_is_selected(
    all: Seq<Seq<char>>,
    target: u32,
    little_endian: bool,
    n: int,
    i: int,
)
    requires
        1 <= i < n <= all.len(),
    ensures
        ({
            let best = best_route(all, target, little_endian, n);
            let offer = route_offer(all[i], target, little_endian);
            &&& offer is Some ==> best is Some && (offer->0).0 <= (best->0).0
            &&& best is Some ==> exists|k: int|
                1 <= k < n && #[trigger] route_offer(all[k], target, little_endian) == best
            &&& offer is Some && (forall|k: int|
                i < k < n && (#[trigger] route_offer(all[k], target, little_endian)) is Some ==> (
                route_offer(all[k], target, little_endian)->0).0 < (offer->0).0) && (forall|k: int|
                1 <= k < i && (#[trigger] route_offer(all[k], target, little_endian)) is Some ==> (
                route_offer(all[k], target, little_endian)->0).0 <= (offer->0).0) ==> best == offer
        }),
    decreases n,
{
    let best = best_route(all, target, little_endian, n);
    let before = best_route(all, target, little_endian, n - 1);
    let last = route_offer(all[n - 1], target, little_endian);
    if n > 2 {
        if i < n - 1 {
            law_the_longest_route_is_selected(all, target, little_endian, n - 1, i);
        } else {
            law_the_longest_route_is_selected(all, target, little_endian, n - 1, 1);
        }
        if before is Some && best == before {
            let k = choose|k: int|
                1 <= k < n - 1 && #[trigger] route_offer(all[k], target, little_endian) == before;
            assert(route_offer(all[k], target, little_endian) == best);
        } else if best is Some {
            assert(route_offer(all[n - 1], target, little_endian) == best);
        }
        if before is Some {
            let k = choose|k: int|
                1 <= k < n - 1 && #[trigger] route_offer(all[k], target, little_endian) == before;
            assert(1 <= k < n - 1);
        }
    } else {
        assert(before is None);
        assert(best == last);
        assert(route_offer(all[n - 1], target, little_endian) == best);
    }
}

/// A line of the route table offers a route where its destination is the
/// target under its mask; the interface is its first word.
pub proof fn law_offers_cover_the_target(line: Seq<char>, target: u32, little_endian: bool)
    ensures
        ({
            let w = words(line);
            let destination = route_field(w[1], little_endian);
            let mask = route_field(w[7], little_endian);
            let fits = w.len() >= 8 && destination is Some && mask is Some && target & mask->0
                == destination->0;
            &&& route_offer(line, target, little_endian) is Some <==> fits
            &&& fits ==> route_offer(line, target, little_endian) == Some(
                (ones(mask->0 as int), w[0]),
            )
        }),
{
}

/// What the host is warned about, and nothing else: a route narrower than 1500
/// bytes, offloads that are missing, and a receive buffer below what was asked
/// for.
pub proof fn law_warnings_have_their_reason(facts: HostFacts)
    ensures
        ({
            let narrow = facts.peer_mtu is Some && (facts.peer_mtu->0).mtu is Some && (
            facts.peer_mtu->0).mtu->0 < 1500;
            let no_gro = facts.caps is Some && (facts.caps->0).gro_segments <= 1;
            let no_gso = facts.caps is Some && (facts.caps->0).max_gso_segments <= 1;
            let small = facts.caps is Some && (facts.caps->0).rcvbuf < 0x80_0000;
            let one = |b: bool| if b { 1int } else { 0int };
            &&& warnings_of(facts).len() == one(narrow) + one(no_gro) + one(no_gso) + one(small)
            &&& narrow ==> warnings_of(facts)[0] == mtu_warning(facts.peer_mtu->0)
            &&& no_gro ==> warnings_of(facts)[one(narrow)]
                == "UDP GRO unavailable; receive falls back to one datagram per read"@
            &&& no_gso ==> warnings_of(facts)[one(narrow) + one(no_gro)]
                == "UDP GSO unavailable; transmit falls back to one datagram per write"@
            &&& small ==> warnings_of(facts)[one(narrow) + one(no_gro) + one(no_gso)]
                == rcvbuf_warning((facts.caps->0).rcvbuf as int)
        }),
{
}

/// How many CPUs count: those of the cpuset where it names any, else as many as
/// the standard library would use, else one.
pub proof fn law_cpus_fall_back(cpuset: Option<Seq<char>>, parallelism: Option<usize>)
    ensures
        cpuset matches Some(s) ==> (cpuset_count(s) > 0 ==> cpus(cpuset, parallelism)
            == cpuset_count(s)),
        cpuset is None || cpuset_count(cpuset->0) <= 0 ==> (match parallelism {
            Some(n) => cpus(cpuset, parallelism) == n,
            None => cpus(cpuset, parallelism) == 1,
        }),
{
}

} // verus!
