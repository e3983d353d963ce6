//! Framing of the administration channel: each message is its length as
//! eight little-endian bytes, then the message itself.
use vstd::prelude::*;
use vstd::slice::{slice_subrange, slice_to_vec};

verus! {

pub const HEADER_LEN: usize = 8;

/// The eight little-endian bytes of `n`.
pub open spec fn le_bytes(n: u64) -> Seq<u8> {
    seq![
        (n & 0xff) as u8,
        ((n >> 8u64) & 0xff) as u8,
        ((n >> 16u64) & 0xff) as u8,
        ((n >> 24u64) & 0xff) as u8,
        ((n >> 32u64) & 0xff) as u8,
        ((n >> 40u64) & 0xff) as u8,
        ((n >> 48u64) & 0xff) as u8,
        ((n >> 56u64) & 0xff) as u8,
    ]
}

/// The number that eight little-endian bytes stand for.
pub open spec fn le_value(b0: u8, b1: u8, b2: u8, b3: u8, b4: u8, b5: u8, b6: u8, b7: u8) -> u64 {
    (b0 as u64) | ((b1 as u64) << 8u64) | ((b2 as u64) << 16u64) | ((b3 as u64) << 24u64) | ((b4 as u64)
        << 32u64) | ((b5 as u64) << 40u64) | ((b6 as u64) << 48u64) | ((b7 as u64) << 56u64)
}

/// The length that the header at the start of `s` announces.
pub open spec fn header_value(s: Seq<u8>) -> u64 {
    le_value(s[0], s[1], s[2], s[3], s[4], s[5], s[6], s[7])
}

/// The frame of a message: its length, then the message.
pub open spec fn framed(p: Seq<u8>) -> Seq<u8> {
    le_bytes(p.len() as u64) + p
}

#[derive(Debug, Clone, Copy, PartialEq, Eq, Structural)]
pub enum FrameError {
    /// the announced length is above the channel's limit
    TooLarge,
}

/// The frame of `payload`.
pub fn frame(payload: &[u8]) -> (r: Vec<u8>)
    ensures
        r@ == framed(payload@),
{
    let n = payload.len() as u64;
    let mut out: Vec<u8> = Vec::new();
    out.push((n & 0xff) as u8);
    out.push(((n >> 8u64) & 0xff) as u8);
    out.push(((n >> 16u64) & 0xff) as u8);
    out.push(((n >> 24u64) & 0xff) as u8);
    out.push(((n >> 32u64) & 0xff) as u8);
    out.push(((n >> 40u64) & 0xff) as u8);
    out.push(((n >> 48u64) & 0xff) as u8);
    out.push(((n >> 56u64) & 0xff) as u8);
    let mut i: usize = 0;
    while i < payload.len()
        invariant
            n == payload@.len(),
            i <= payload@.len(),
            out@ == le_bytes(n) + payload@.subrange(0, i as int),
        decreases payload.len() - i,
    {
        out.push(payload[i]);
        i = i + 1;
        assert(out@ =~= le_bytes(n) + payload@.subrange(0, i as int));
    }
    assert(payload@.subrange(0, payload@.len() as int) =~= payload@);
    out
}

/// Reads the first frame of `buf`. `Ok(None)` while the frame is not complete;
/// the message and the number of bytes the frame takes once it is; an error
/// when the announced length is above `max_size`.
pub fn parse_frame(buf: &[u8], max_size: usize) -> (r: Result<Option<(Vec<u8>, usize)>, FrameError>)
    ensures
        buf@.len() < HEADER_LEN ==> r == Ok::<Option<(Vec<u8>, usize)>, FrameError>(None),
        buf@.len() >= HEADER_LEN ==> {
            let n = header_value(buf@);
            &&& n > max_size ==> r == Err::<Option<(Vec<u8>, usize)>, FrameError>(FrameError::TooLarge)
            &&& n <= max_size && buf@.len() < HEADER_LEN + n ==> r == Ok::<Option<(Vec<u8>, usize)>, FrameError>(None)
            &&& n <= max_size && buf@.len() >= HEADER_LEN + n ==> (r matches Ok(Some((p, c))) && p@ == buf@.subrange(
                HEADER_LEN as int,
                HEADER_LEN + n,
            ) && c == HEADER_LEN + n)
        },
{
    if buf.len() < HEADER_LEN {
        return Ok(None);
    }
    let n = (buf[0] as u64) | ((buf[1] as u64) << 8u64) | ((buf[2] as u64) << 16u64) | ((buf[3] as u64)
        << 24u64) | ((buf[4] as u64) << 32u64) | ((buf[5] as u64) << 40u64) | ((buf[6] as u64) << 48u64) | ((
    buf[7] as u64) << 56u64);
    if n > max_size as u64 {
        return Err(FrameError::TooLarge);
    }
    let n = n as usize;
    if buf.len() - HEADER_LEN < n {
        return Ok(None);
    }
    let payload = slice_to_vec(slice_subrange(buf, HEADER_LEN, HEADER_LEN + n));
    Ok(Some((payload, HEADER_LEN + n)))
}

proof fn lemma_le_round_trip(n: u64)
    ensures
        le_value(
            (n & 0xff) as u8,
            ((n >> 8u64) & 0xff) as u8,
            ((n >> 16u64) & 0xff) as u8,
            ((n >> 24u64) & 0xff) as u8,
            ((n >> 32u64) & 0xff) as u8,
            ((n >> 40u64) & 0xff) as u8,
            ((n >> 48u64) & 0xff) as u8,
            ((n >> 56u64) & 0xff) as u8,
        ) == n,
{
    assert((((n & 0xff) as u8) as u64) | (((((n >> 8u64) & 0xff) as u8) as u64) << 8u64) | (((((n >> 16u64)
        & 0xff) as u8) as u64) << 16u64) | (((((n >> 24u64) & 0xff) as u8) as u64) << 24u64) | (((((n
        >> 32u64) & 0xff) as u8) as u64) << 32u64) | (((((n >> 40u64) & 0xff) as u8) as u64) << 40u64) | (
    ((((n >> 48u64) & 0xff) as u8) as u64) << 48u64) | (((((n >> 56u64) & 0xff) as u8) as u64) << 56u64)
        == n) by (bit_vector);
}

/// Framing then reading gives the message back: a reader of the frame of
/// `p`, followed by anything, finds the announced length to be that of `p`,
/// and `p` right after the header.
pub proof fn lemma_frame_round_trip(p: Seq<u8>, rest: Seq<u8>)
    requires
        p.len() <= u64::MAX,
    ensures
        (framed(p) + rest).len() >= HEADER_LEN,
        header_value(framed(p) + rest) == p.len(),
        (framed(p) + rest).subrange(HEADER_LEN as int, HEADER_LEN + p.len()) == p,
{
    let s = framed(p) + rest;
    lemma_le_round_trip(p.len() as u64);
    assert(s.subrange(HEADER_LEN as int, HEADER_LEN + p.len()) =~= p);
}

} // verus!
