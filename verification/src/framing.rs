//! Framing of messages on the wire.
//!
//! Every message after the connection preamble travels as one frame: a
//! 32-bit big-endian length, then a varint-delimited header message, then
//! a varint-delimited body. The length prefix covers everything after
//! itself.

use vstd::prelude::*;

use crate::wire::spec_be32;
use crate::wire::spec_be32_val;
use crate::wire::spec_varint;
use crate::wire::spec_parse_varint;
use crate::wire::lemma_parse_varint_roundtrip;
use crate::wire::encode_varint;
use crate::wire::decode_varint;
use crate::wire::push_u32_be;
use crate::wire::read_u32_be;

verus! {

/// The payload of a frame: the two delimited chunks, without the length
/// prefix.
pub open spec fn spec_frame_payload(h: Seq<u8>, b: Seq<u8>) -> Seq<u8> {
    spec_varint(h.len() as u64) + h + spec_varint(b.len() as u64) + b
}

/// Whether a header and body are small enough for the length prefix.
pub open spec fn spec_frame_fits(h: Seq<u8>, b: Seq<u8>) -> bool {
    spec_frame_payload(h, b).len() <= u32::MAX
}

/// A whole frame: length prefix, then the delimited header and body.
pub open spec fn spec_frame(h: Seq<u8>, b: Seq<u8>) -> Seq<u8> {
    spec_be32(spec_frame_payload(h, b).len() as u32) + spec_frame_payload(h, b)
}

/// Splitting a frame payload: the header bytes and the body bytes, when
/// the payload consists of exactly two delimited chunks.
pub open spec fn spec_split_payload(f: Seq<u8>) -> Option<(Seq<u8>, Seq<u8>)> {
    match spec_parse_varint(f) {
        None => None,
        Some((hl, n)) => if n + hl <= f.len() {
            let header = f.subrange(n, n + hl);
            let rest = f.skip(n + hl);
            match spec_parse_varint(rest) {
                None => None,
                Some((bl, m)) => if m + bl == rest.len() {
                    Some((header, rest.subrange(m, m + bl)))
                } else {
                    None
                },
            }
        } else {
            None
        },
    }
}

/// Splitting the payload of a frame built from a header and body yields
/// them back.
pub proof fn lemma_split_payload_roundtrip(h: Seq<u8>, b: Seq<u8>)
    requires
        h.len() <= u32::MAX,
        b.len() <= u32::MAX,
    ensures
        spec_split_payload(spec_frame_payload(h, b)) == Some((h, b)),
{
    let hv = spec_varint(h.len() as u64);
    let bv = spec_varint(b.len() as u64);
    let f = spec_frame_payload(h, b);
    assert(f =~= hv + (h + (bv + b)));
    lemma_parse_varint_roundtrip(h.len() as u64, h + (bv + b));
    let n = hv.len() as int;
    assert(f.subrange(n, n + h.len() as int) =~= h);
    let rest = f.skip(n + h.len() as int);
    assert(rest =~= bv + b);
    lemma_parse_varint_roundtrip(b.len() as u64, b);
    assert((bv + b).subrange(bv.len() as int, bv.len() as int + b.len() as int) =~= b);
}

/// The length prefix of a frame reads back as the payload length, and the
/// bytes after it begin with the payload.
pub proof fn lemma_frame_shape(h: Seq<u8>, b: Seq<u8>, rest: Seq<u8>)
    requires
        spec_frame_fits(h, b),
    ensures
        (spec_frame(h, b) + rest).len() >= 4,
        spec_be32_val(
            (spec_frame(h, b) + rest)[0],
            (spec_frame(h, b) + rest)[1],
            (spec_frame(h, b) + rest)[2],
            (spec_frame(h, b) + rest)[3],
        ) == spec_frame_payload(h, b).len(),
        (spec_frame(h, b) + rest).skip(4) =~= spec_frame_payload(h, b) + rest,
{
    let p = spec_frame_payload(h, b);
    let s = spec_frame(h, b) + rest;
    crate::wire::lemma_be32_roundtrip(p.len() as u32);
    assert(s[0] == spec_be32(p.len() as u32)[0]);
    assert(s[1] == spec_be32(p.len() as u32)[1]);
    assert(s[2] == spec_be32(p.len() as u32)[2]);
    assert(s[3] == spec_be32(p.len() as u32)[3]);
}

/// Appends a frame holding the given header and body bytes.
pub fn encode_frame(out: &mut Vec<u8>, header: &[u8], body: &[u8])
    requires
        spec_frame_fits(header@, body@),
    ensures
        final(out)@ =~= old(out)@ + spec_frame(header@, body@),
{
    let mut payload: Vec<u8> = Vec::new();
    encode_varint(&mut payload, header.len() as u64);
    payload.extend_from_slice(header);
    encode_varint(&mut payload, body.len() as u64);
    payload.extend_from_slice(body);
    proof {
        assert(payload@ =~= spec_frame_payload(header@, body@));
    }
    push_u32_be(out, payload.len() as u32);
    out.extend_from_slice(payload.as_slice());
}

/// State of the frame at the front of the receive buffer.
#[derive(Clone, Copy, Debug, PartialEq, Eq, Structural)]
pub enum FrameStatus {
    /// The buffer does not yet hold a whole frame.
    Incomplete,
    /// The announced payload length exceeds the configured maximum.
    TooLong,
    /// A whole frame is buffered; the payload is this long.
    Ready(usize),
}

/// The announced payload length of the buffered frame.
pub open spec fn spec_frame_len(s: Seq<u8>) -> int {
    spec_be32_val(s[0], s[1], s[2], s[3]) as int
}

/// Examines the front of the receive buffer: whether a whole frame is
/// buffered, and whether its announced length is admissible.
pub fn frame_status(buf: &Vec<u8>, max_len: u32) -> (r: FrameStatus)
    ensures
        buf@.len() <= usize::MAX,
        match r {
            FrameStatus::Incomplete => buf@.len() < 4 || (spec_frame_len(buf@) <= max_len
                && buf@.len() - 4 < spec_frame_len(buf@)),
            FrameStatus::TooLong => buf@.len() >= 4 && spec_frame_len(buf@) > max_len,
            FrameStatus::Ready(n) => buf@.len() >= 4 && n == spec_frame_len(buf@) && n <= max_len
                && buf@.len() - 4 >= n,
        },
{
    if buf.len() < 4 {
        return FrameStatus::Incomplete;
    }
    let announced = read_u32_be(buf.as_slice());
    if announced > max_len {
        return FrameStatus::TooLong;
    }
    let payload_len = announced as usize;
    if buf.len() - 4 < payload_len {
        FrameStatus::Incomplete
    } else {
        FrameStatus::Ready(payload_len)
    }
}

/// Copies the byte range `[start, end)` of a slice.
pub fn copy_range(buf: &[u8], start: usize, end: usize) -> (r: Vec<u8>)
    requires
        start <= end <= buf@.len(),
    ensures
        r@ =~= buf@.subrange(start as int, end as int),
{
    let blen = buf.len();
    let mut out: Vec<u8> = Vec::new();
    let mut i: usize = start;
    while i < end
        invariant
            start <= i <= end,
            end <= buf@.len(),
            blen == buf@.len(),
            out@ =~= buf@.subrange(start as int, i as int),
        decreases end - i,
    {
        out.push(buf[i]);
        i = i + 1;
    }
    out
}

/// Splits the payload of the buffered frame into its header and body
/// bytes, exactly as the specification split does on the first
/// `payload_len` bytes after the length prefix.
pub fn split_payload(buf: &Vec<u8>, payload_len: usize) -> (r: Option<(Vec<u8>, Vec<u8>)>)
    requires
        buf@.len() >= 4,
        buf@.len() - 4 >= payload_len,
    ensures
        match r {
            Some(p) => spec_split_payload(buf@.subrange(4, 4 + payload_len as int)) == Some(
                (p.0@, p.1@),
            ),
            None => spec_split_payload(buf@.subrange(4, 4 + payload_len as int)) is None,
        },
{
    let blen = buf.len();
    let ghost f = buf@.subrange(4, 4 + payload_len as int);
    let frame = copy_range(buf.as_slice(), 4, 4 + payload_len);
    proof {
        assert(frame@ =~= f);
        assert(frame@.skip(0) =~= frame@);
    }
    match decode_varint(frame.as_slice(), 0) {
        None => None,
        Some((hl, n)) => {
            if hl > (frame.len() - n) as u64 {
                return None;
            }
            let hl_us = hl as usize;
            let header = copy_range(frame.as_slice(), n, n + hl_us);
            proof {
                assert(header@ =~= f.subrange(n as int, n as int + hl as int));
                assert(frame@.skip(n as int + hl_us as int) =~= f.skip(n as int + hl as int));
            }
            match decode_varint(frame.as_slice(), n + hl_us) {
                None => None,
                Some((bl, m)) => {
                    let rest_start = n + hl_us + m;
                    if bl != (frame.len() - rest_start) as u64 {
                        proof {
                            let rest = f.skip(n as int + hl as int);
                            assert(rest.len() == frame@.len() - n - hl_us);
                        }
                        return None;
                    }
                    let body = copy_range(frame.as_slice(), rest_start, frame.len());
                    proof {
                        let rest = f.skip(n as int + hl as int);
                        assert(rest.subrange(m as int, m as int + bl as int) =~= f.subrange(
                            rest_start as int,
                            f.len() as int,
                        ));
                        assert(body@ =~= rest.subrange(m as int, m as int + bl as int));
                    }
                    Some((header, body))
                },
            }
        },
    }
}

} // verus!
