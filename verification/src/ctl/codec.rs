//! Message framing.
//!
//! The socket already preserves message boundaries; the length prefix rides
//! along and is *checked*, which turns a truncated read, the one way a
//! datagram socket can silently lie, into a loud error.
use crate::bytes::{be32, be32_bytes, read_be32};
use crate::text::{dec, push_dec};
use vstd::prelude::*;

verus! {

/// Largest message either side will send or accept.
pub const MAX_FRAME: usize = 0x4_0000;

/// Length of the length prefix.
pub const LEN_PREFIX: usize = 4;

/// Why a message could not be framed or unframed.
#[derive(Clone, Copy, Debug, PartialEq, Eq, Structural)]
pub enum CodecError {
    /// The message is too long to send.
    TooLong {
        /// Its length.
        len: usize,
    },
    /// What arrived is too short to hold a length prefix.
    NoPrefix,
    /// The prefix and what arrived disagree.
    Mismatch {
        /// What the prefix declares.
        declared: u32,
        /// What arrived behind it.
        arrived: usize,
    },
}

impl CodecError {
    /// What the error says.
    pub open spec fn spec_message(self) -> Seq<char> {
        match self {
            CodecError::TooLong { len } => "message of "@ + dec(len as int) + " B exceeds the "@
                + dec(MAX_FRAME as int) + " B control frame limit"@,
            CodecError::NoPrefix => "control frame has no length prefix"@,
            CodecError::Mismatch { declared, arrived } => "control frame declares "@ + dec(
                declared as int,
            ) + " B, "@ + dec(arrived as int) + " B arrived"@,
        }
    }

    /// What the error says.
    #[must_use]
    pub fn message(&self) -> (r: String)
        ensures
            r@ == self.spec_message(),
    {
        match *self {
            CodecError::TooLong { len } => {
                let mut out: String = "message of ".to_owned();
                push_dec(&mut out, len as u64);
                out.append(" B exceeds the ");
                push_dec(&mut out, MAX_FRAME as u64);
                out.append(" B control frame limit");
                out
            },
            CodecError::NoPrefix => "control frame has no length prefix".to_owned(),
            CodecError::Mismatch { declared, arrived } => {
                let mut out: String = "control frame declares ".to_owned();
                push_dec(&mut out, declared as u64);
                out.append(" B, ");
                push_dec(&mut out, arrived as u64);
                out.append(" B arrived");
                out
            },
        }
    }
}

/// A message with its length in front.
pub open spec fn framed(body: Seq<u8>) -> Seq<u8> {
    be32_bytes(body.len() as int) + body
}

/// Put a message's length in front of it.
pub fn frame(body: &[u8]) -> (r: Result<Vec<u8>, CodecError>)
    ensures
        r is Ok <==> body@.len() <= MAX_FRAME,
        r matches Ok(f) ==> f@ == framed(body@),
        r matches Err(e) ==> e == (CodecError::TooLong { len: body@.len() as usize }),
{
    let n: usize = body.len();
    if n > MAX_FRAME {
        return Err(CodecError::TooLong { len: n });
    }
    let mut out: Vec<u8> = vec![
        (n / 0x100_0000) as u8,
        (n / 0x1_0000 % 0x100) as u8,
        (n / 0x100 % 0x100) as u8,
        (n % 0x100) as u8,
    ];
    assert(out@ =~= be32_bytes(n as int));
    out.extend_from_slice(body);
    Ok(out)
}

/// What a received message says: nothing at the end of the stream, its body,
/// or that it is not whole.
pub open spec fn unframed(received: Seq<u8>) -> Result<Option<Seq<u8>>, CodecError> {
    if received.len() == 0 {
        Ok(None)
    } else if received.len() < LEN_PREFIX {
        Err(CodecError::NoPrefix)
    } else if LEN_PREFIX + be32(received, 0) != received.len() {
        Err(
            CodecError::Mismatch {
                declared: be32(received, 0) as u32,
                arrived: (received.len() - LEN_PREFIX) as usize,
            },
        )
    } else {
        Ok(Some(received.subrange(LEN_PREFIX as int, received.len() as int)))
    }
}

/// The body of a received message, or `None` when the peer closed the
/// connection.
pub fn unframe(received: &[u8]) -> (r: Result<Option<&[u8]>, CodecError>)
    ensures
        r matches Ok(body) ==> unframed(received@) == Ok::<Option<Seq<u8>>, CodecError>(
            match body {
                Some(b) => Some(b@),
                None => None,
            },
        ),
        r matches Err(e) ==> unframed(received@) == Err::<Option<Seq<u8>>, CodecError>(e),
{
    let n: usize = received.len();
    if n == 0 {
        return Ok(None);
    }
    if n < LEN_PREFIX {
        return Err(CodecError::NoPrefix);
    }
    let declared: u32 = read_be32(received, 0);
    if declared as u64 != (n - LEN_PREFIX) as u64 {
        return Err(CodecError::Mismatch { declared, arrived: n - LEN_PREFIX });
    }
    Ok(Some(&received[LEN_PREFIX..n]))
}

/// A message that was sent whole is received whole.
pub proof fn law_framing_round_trip(body: Seq<u8>)
    requires
        body.len() <= MAX_FRAME,
    ensures
        unframed(framed(body)) == Ok::<Option<Seq<u8>>, CodecError>(Some(body)),
{
    let f = framed(body);
    crate::bytes::lemma_be32_round_trip(body.len() as int);
    assert(be32(f, 0) == be32(be32_bytes(body.len() as int), 0));
    assert(f.subrange(LEN_PREFIX as int, f.len() as int) =~= body);
}

/// A message that lost its tail on the way is never mistaken for a whole one.
pub proof fn law_truncation_is_noticed(body: Seq<u8>, n: int)
    requires
        body.len() <= MAX_FRAME,
        0 < n < framed(body).len(),
    ensures
        unframed(framed(body).subrange(0, n)) is Err,
{
    let f = framed(body);
    let t = f.subrange(0, n);
    crate::bytes::lemma_be32_round_trip(body.len() as int);
    if n >= LEN_PREFIX {
        assert(be32(t, 0) == be32(be32_bytes(body.len() as int), 0));
    }
}

/// A message goes out behind its length in four bytes, most significant first.
pub proof fn law_messages_carry_their_length(body: Seq<u8>, i: int)
    requires
        body.len() <= 0xffff_ffff,
        0 <= i < body.len(),
    ensures
        ({
            let f = framed(body);
            &&& f.len() == 4 + body.len()
            &&& f[0] * 0x100_0000 + f[1] * 0x1_0000 + f[2] * 0x100 + f[3] == body.len()
            &&& f[4 + i] == body[i]
        }),
{
    let f = framed(body);
    let n = be32_bytes(body.len() as int);
    crate::bytes::lemma_be32_round_trip(body.len() as int);
    assert(f[0] == n[0] && f[1] == n[1] && f[2] == n[2] && f[3] == n[3]);
}

/// What was received is a message where its first four bytes say how much
/// follows them; the end of the stream is none; and anything else is an error
/// that tells a missing length from a wrong one.
pub proof fn law_received_lengths_are_checked(r: Seq<u8>)
    requires
        r.len() <= 0xffff_ffff,
    ensures
        ({
            let declared = r[0] * 0x100_0000 + r[1] * 0x1_0000 + r[2] * 0x100 + r[3];
            &&& r.len() == 0 ==> unframed(r) == Ok::<Option<Seq<u8>>, CodecError>(None)
            &&& 0 < r.len() < 4 ==> unframed(r) == Err::<Option<Seq<u8>>, CodecError>(
                CodecError::NoPrefix,
            )
            &&& 4 <= r.len() && declared == r.len() - 4 ==> unframed(r) == Ok::<
                Option<Seq<u8>>,
                CodecError,
            >(Some(r.subrange(4, r.len() as int)))
            &&& 4 <= r.len() && declared != r.len() - 4 ==> unframed(r) == Err::<
                Option<Seq<u8>>,
                CodecError,
            >(
                CodecError::Mismatch {
                    declared: declared as u32,
                    arrived: (r.len() - 4) as usize,
                },
            )
        }),
{
}

/// The longest message is 256 KiB, and its length takes four bytes.
pub proof fn law_control_frames_are_bounded()
    ensures
        MAX_FRAME == 256 * 1024,
        LEN_PREFIX == 4,
{
}

} // verus!
