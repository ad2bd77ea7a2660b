//! Byte-level wire primitives: the big-endian 32-bit length prefix and the
//! base-128 varint used throughout the framing layer.

use vstd::prelude::*;

verus! {

/// The four big-endian bytes of a 32-bit length prefix.
pub open spec fn spec_be32(x: u32) -> Seq<u8> {
    seq![
        ((x >> 24) & 0xff) as u8,
        ((x >> 16) & 0xff) as u8,
        ((x >> 8) & 0xff) as u8,
        (x & 0xff) as u8,
    ]
}

/// The value carried by four big-endian bytes.
pub open spec fn spec_be32_val(b0: u8, b1: u8, b2: u8, b3: u8) -> u32 {
    ((b0 as u32) << 24) | ((b1 as u32) << 16) | ((b2 as u32) << 8) | (b3 as u32)
}

/// Reading back the four bytes of a length prefix yields the prefix.
pub proof fn lemma_be32_roundtrip(x: u32)
    ensures
        spec_be32_val(spec_be32(x)[0], spec_be32(x)[1], spec_be32(x)[2], spec_be32(x)[3]) == x,
{
    assert((((((x >> 24) & 0xff) as u8) as u32) << 24 | ((((x >> 16) & 0xff) as u8) as u32) << 16
        | ((((x >> 8) & 0xff) as u8) as u32) << 8 | (((x & 0xff) as u8) as u32)) == x)
        by (bit_vector);
}

/// Reads the 32-bit big-endian value at the front of `buf`.
///
/// Relies on byteorder's `BigEndian::read_u32`: the first four bytes of
/// the slice, most significant first. It panics on a shorter slice, which
/// the precondition rules out.
#[verifier::external_body]
pub fn read_u32_be(buf: &[u8]) -> (r: u32)
    requires
        buf@.len() >= 4,
    ensures
        r == spec_be32_val(buf@[0], buf@[1], buf@[2], buf@[3]),
{
    <byteorder::BigEndian as byteorder::ByteOrder>::read_u32(buf)
}

/// Appends the 32-bit big-endian encoding of `x` to `out`.
///
/// Relies on byteorder's `BigEndian::write_u32`: four bytes, most
/// significant first.
#[verifier::external_body]
pub fn push_u32_be(out: &mut Vec<u8>, x: u32)
    ensures
        final(out)@ == old(out)@ + spec_be32(x),
{
    let mut buf = [0u8; 4];
    <byteorder::BigEndian as byteorder::ByteOrder>::write_u32(&mut buf, x);
    out.extend_from_slice(&buf);
}

/// The base-128 varint bytes of a value, least significant group first,
/// the high bit marking continuation.
pub open spec fn spec_varint(x: u64) -> Seq<u8>
    decreases x,
{
    if x < 128 {
        seq![x as u8]
    } else {
        seq![((x % 128) + 128) as u8] + spec_varint((x / 128) as u64)
    }
}

/// The parse of a varint at the front of a byte sequence: the value and
/// the number of bytes consumed; nothing when the sequence ends inside the
/// varint or the value would not fit in 64 bits.
pub open spec fn spec_parse_varint(s: Seq<u8>) -> Option<(u64, int)>
    decreases s.len(),
{
    if s.len() == 0 {
        None
    } else if s[0] < 128 {
        Some((s[0] as u64, 1))
    } else {
        match spec_parse_varint(s.drop_first()) {
            None => None,
            Some((v, n)) => {
                let val = (v as int) * 128 + (s[0] - 128);
                if val <= u64::MAX {
                    Some((val as u64, n + 1))
                } else {
                    None
                }
            },
        }
    }
}

/// A varint occupies between one and ten bytes.
pub proof fn lemma_varint_len(x: u64)
    ensures
        1 <= spec_varint(x).len() <= 10,
{
    let x1 = x / 128;
    let x2 = x1 / 128;
    let x3 = x2 / 128;
    let x4 = x3 / 128;
    let x5 = x4 / 128;
    let x6 = x5 / 128;
    let x7 = x6 / 128;
    let x8 = x7 / 128;
    let x9 = x8 / 128;
    assert(x9 < 128);
    assert(spec_varint(x9).len() == 1);
    assert(spec_varint(x8).len() <= 2);
    assert(spec_varint(x7).len() <= 3);
    assert(spec_varint(x6).len() <= 4);
    assert(spec_varint(x5).len() <= 5);
    assert(spec_varint(x4).len() <= 6);
    assert(spec_varint(x3).len() <= 7);
    assert(spec_varint(x2).len() <= 8);
    assert(spec_varint(x1).len() <= 9);
    assert(spec_varint(x).len() <= 10);
}

/// Parsing a varint from the front of its own encoding, whatever follows,
/// recovers the encoded value and consumes exactly the encoding.
pub proof fn lemma_parse_varint_roundtrip(x: u64, rest: Seq<u8>)
    ensures
        spec_parse_varint(spec_varint(x) + rest) == Some((x, spec_varint(x).len() as int)),
    decreases x,
{
    let s = spec_varint(x) + rest;
    if x < 128 {
        assert(s[0] == x as u8);
    } else {
        let q = (x / 128) as u64;
        lemma_parse_varint_roundtrip(q, rest);
        assert(s.drop_first() =~= spec_varint(q) + rest);
        assert(s[0] == ((x % 128) + 128) as u8);
        assert((q as int) * 128 + (s[0] - 128) == x);
    }
}

/// Appends the varint encoding of `x` to `out`.
pub fn encode_varint(out: &mut Vec<u8>, x: u64)
    ensures
        final(out)@ =~= old(out)@ + spec_varint(x),
{
    let ghost orig = out@;
    let mut cur: u64 = x;
    while cur >= 128
        invariant
            out@ + spec_varint(cur) =~= orig + spec_varint(x),
        decreases cur,
    {
        out.push(((cur % 128) + 128) as u8);
        cur = cur / 128;
    }
    out.push(cur as u8);
}

/// Reads the varint at position `pos` of `buf`, returning the value and
/// the number of bytes consumed, exactly as the specification parser does.
pub fn decode_varint(buf: &[u8], pos: usize) -> (r: Option<(u64, usize)>)
    requires
        pos <= buf@.len(),
    ensures
        match r {
            Some(p) => pos + p.1 <= buf@.len() && p.1 >= 1 && spec_parse_varint(
                buf@.skip(pos as int),
            ) == Some((p.0, p.1 as int)),
            None => spec_parse_varint(buf@.skip(pos as int)) is None,
        },
    decreases buf@.len() - pos,
{
    if pos >= buf.len() {
        return None;
    }
    let b = buf[pos];
    if b < 128 {
        assert(buf@.skip(pos as int)[0] == b);
        Some((b as u64, 1))
    } else {
        proof {
            assert(buf@.skip(pos as int).drop_first() =~= buf@.skip(pos as int + 1));
        }
        match decode_varint(buf, pos + 1) {
            None => None,
            Some((v, n)) => {
                let low = (b - 128) as u64;
                if v <= (u64::MAX - low) / 128 {
                    Some((v * 128 + low, n + 1))
                } else {
                    None
                }
            },
        }
    }
}

/// Removes the first `n` bytes of a buffer.
pub fn drain_front(v: &mut Vec<u8>, n: usize)
    requires
        n <= old(v)@.len(),
    ensures
        final(v)@ =~= old(v)@.skip(n as int),
{
    let tail = v.split_off(n);
    *v = tail;
}

} // verus!
