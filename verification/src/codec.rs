//! Canonical wire codec for the session and call header messages.
//!
//! Every message is a concatenation of tagged fields: a one-byte tag (field
//! number and wire type) followed by a varint value or by a varint length
//! and that many payload bytes. Encoders always emit the fields of a
//! message in one fixed order, omitting fields that hold their default
//! value; parsers accept exactly that shape and must consume their whole
//! input. Parsing an encoding therefore recovers the encoded message
//! exactly, which is proved here field by field.

use vstd::prelude::*;

use crate::wire::lemma_parse_varint_roundtrip;
use crate::wire::spec_parse_varint;
use crate::wire::spec_varint;

verus! {

/// Wire image of a signed 32-bit call ID: non-negative values encode as
/// themselves, negative values sign-extend to 64 bits.
pub open spec fn spec_wire_of_call_id(x: i32) -> u64 {
    if x >= 0 {
        x as u64
    } else {
        (x + 0x1_0000_0000_0000_0000) as u64
    }
}

/// Whether a 64-bit wire value is the image of some 32-bit call ID.
pub open spec fn spec_wire_id_valid(w: u64) -> bool {
    w < 0x8000_0000 || w >= 0xffff_ffff_8000_0000
}

/// The call ID denoted by a valid wire value.
pub open spec fn spec_call_id_of_wire(w: u64) -> i32 {
    if w < 0x8000_0000 {
        w as i32
    } else {
        (w - 0x1_0000_0000_0000_0000) as i32
    }
}

/// A call ID survives the trip through its wire image.
pub proof fn lemma_call_id_roundtrip(x: i32)
    ensures
        spec_wire_id_valid(spec_wire_of_call_id(x)),
        spec_call_id_of_wire(spec_wire_of_call_id(x)) == x,
{
}

/// Computes the wire image of a call ID.
pub fn wire_of_call_id(call_id: i32) -> (r: u64)
    ensures
        r == spec_wire_of_call_id(call_id),
{
    if call_id >= 0 {
        call_id as u64
    } else {
        let mag = (-(call_id as i64)) as u64;
        u64::MAX - mag + 1
    }
}

/// Recovers a call ID from its wire image, or nothing when the value is
/// not such an image.
pub fn call_id_of_wire(w: u64) -> (r: Option<i32>)
    ensures
        match r {
            Some(c) => spec_wire_id_valid(w) && c == spec_call_id_of_wire(w),
            None => !spec_wire_id_valid(w),
        },
{
    if w < 0x8000_0000 {
        Some(w as i32)
    } else if w >= 0xffff_ffff_8000_0000 {
        let mag = (u64::MAX - w) + 1;
        Some((-(mag as i64)) as i32)
    } else {
        None
    }
}

/// A tagged varint field.
pub open spec fn spec_field_varint(tag: u8, v: u64) -> Seq<u8> {
    seq![tag] + spec_varint(v)
}

/// A tagged length-delimited field.
pub open spec fn spec_field_bytes(tag: u8, data: Seq<u8>) -> Seq<u8> {
    seq![tag] + spec_varint(data.len() as u64) + data
}

/// Parse of a tagged varint field at the front of `s`: the value and the
/// bytes consumed.
pub open spec fn spec_parse_field_varint(s: Seq<u8>, tag: u8) -> Option<(u64, int)> {
    if s.len() >= 1 && s[0] == tag {
        match spec_parse_varint(s.drop_first()) {
            Some((v, n)) => Some((v, n + 1)),
            None => None,
        }
    } else {
        None
    }
}

/// Parse of a tagged length-delimited field at the front of `s`: the
/// payload and the bytes consumed.
pub open spec fn spec_parse_field_bytes(s: Seq<u8>, tag: u8) -> Option<(Seq<u8>, int)> {
    match spec_parse_field_varint(s, tag) {
        Some((l, n)) => if n + l <= s.len() {
            Some((s.subrange(n, n + l), n + l))
        } else {
            None
        },
        None => None,
    }
}

/// A varint parse consumes at least one byte and at most the input.
pub proof fn lemma_parse_varint_bounds(s: Seq<u8>)
    ensures
        match spec_parse_varint(s) {
            Some(p) => 1 <= p.1 <= s.len(),
            None => true,
        },
    decreases s.len(),
{
    if s.len() > 0 && s[0] >= 128 {
        lemma_parse_varint_bounds(s.drop_first());
    }
}

/// A field parse consumes at least two bytes and at most the input.
pub proof fn lemma_parse_field_varint_bounds(s: Seq<u8>, tag: u8)
    ensures
        match spec_parse_field_varint(s, tag) {
            Some(p) => 2 <= p.1 <= s.len(),
            None => true,
        },
{
    if s.len() >= 1 && s[0] == tag {
        lemma_parse_varint_bounds(s.drop_first());
    }
}

/// A length-delimited field parse consumes at least two bytes and at most
/// the input.
pub proof fn lemma_parse_field_bytes_bounds(s: Seq<u8>, tag: u8)
    ensures
        match spec_parse_field_bytes(s, tag) {
            Some(p) => 2 <= p.1 <= s.len(),
            None => true,
        },
{
    lemma_parse_field_varint_bounds(s, tag);
}

/// Parsing a tagged varint field from the front of its own encoding
/// recovers the value.
pub proof fn lemma_parse_field_varint_roundtrip(tag: u8, v: u64, rest: Seq<u8>)
    ensures
        spec_parse_field_varint(spec_field_varint(tag, v) + rest, tag) == Some(
            (v, spec_field_varint(tag, v).len() as int),
        ),
{
    let s = spec_field_varint(tag, v) + rest;
    assert(s[0] == tag);
    assert(s.drop_first() =~= spec_varint(v) + rest);
    lemma_parse_varint_roundtrip(v, rest);
}

/// Parsing a tagged length-delimited field from the front of its own
/// encoding recovers the payload.
pub proof fn lemma_parse_field_bytes_roundtrip(tag: u8, data: Seq<u8>, rest: Seq<u8>)
    requires
        data.len() <= u64::MAX,
    ensures
        spec_parse_field_bytes(spec_field_bytes(tag, data) + rest, tag) == Some(
            (data, spec_field_bytes(tag, data).len() as int),
        ),
{
    let s = spec_field_bytes(tag, data) + rest;
    let l = data.len() as u64;
    assert(spec_field_bytes(tag, data) + rest =~= spec_field_varint(tag, l) + (data + rest));
    lemma_parse_field_varint_roundtrip(tag, l, data + rest);
    let n = spec_field_varint(tag, l).len() as int;
    assert(s.subrange(n, n + l as int) =~= data);
}

/// The first byte of a tagged field is its tag.
pub proof fn lemma_field_varint_first(tag: u8, v: u64)
    ensures
        spec_field_varint(tag, v).len() >= 2,
        spec_field_varint(tag, v)[0] == tag,
{
    crate::wire::lemma_varint_len(v);
}

/// The first byte of a tagged length-delimited field is its tag.
pub proof fn lemma_field_bytes_first(tag: u8, data: Seq<u8>)
    ensures
        spec_field_bytes(tag, data).len() >= 2,
        spec_field_bytes(tag, data)[0] == tag,
{
    crate::wire::lemma_varint_len(data.len() as u64);
}

/// Appends a tagged varint field.
pub fn encode_field_varint(out: &mut Vec<u8>, tag: u8, v: u64)
    ensures
        final(out)@ =~= old(out)@ + spec_field_varint(tag, v),
{
    out.push(tag);
    crate::wire::encode_varint(out, v);
}

/// Appends a tagged length-delimited field.
pub fn encode_field_bytes(out: &mut Vec<u8>, tag: u8, data: &[u8])
    ensures
        final(out)@ =~= old(out)@ + spec_field_bytes(tag, data@),
{
    out.push(tag);
    crate::wire::encode_varint(out, data.len() as u64);
    out.extend_from_slice(data);
}

/// Reads a tagged varint field at `pos`, as the specification parser does
/// on the remainder of the buffer.
pub fn decode_field_varint(buf: &[u8], pos: usize, tag: u8) -> (r: Option<(u64, usize)>)
    requires
        pos <= buf@.len(),
    ensures
        match r {
            Some(p) => pos + p.1 <= buf@.len() && p.1 >= 2 && spec_parse_field_varint(
                buf@.skip(pos as int),
                tag,
            ) == Some((p.0, p.1 as int)),
            None => spec_parse_field_varint(buf@.skip(pos as int), tag) is None,
        },
{
    if pos >= buf.len() || buf[pos] != tag {
        return None;
    }
    proof {
        assert(buf@.skip(pos as int).drop_first() =~= buf@.skip(pos as int + 1));
    }
    match crate::wire::decode_varint(buf, pos + 1) {
        Some((v, n)) => Some((v, n + 1)),
        None => None,
    }
}

/// Reads a tagged length-delimited field at `pos`, returning the copied
/// payload, as the specification parser does on the remainder of the
/// buffer.
pub fn decode_field_bytes(buf: &[u8], pos: usize, tag: u8) -> (r: Option<(Vec<u8>, usize)>)
    requires
        pos <= buf@.len(),
    ensures
        match r {
            Some(p) => pos + p.1 <= buf@.len() && p.1 >= 2 && spec_parse_field_bytes(
                buf@.skip(pos as int),
                tag,
            ) == Some((p.0@, p.1 as int)),
            None => spec_parse_field_bytes(buf@.skip(pos as int), tag) is None,
        },
{
    match decode_field_varint(buf, pos, tag) {
        None => None,
        Some((l, n)) => {
            if l <= (buf.len() - pos - n) as u64 {
                let l_us = l as usize;
                let start = pos + n;
                let mut data: Vec<u8> = Vec::new();
                let mut i: usize = 0;
                while i < l_us
                    invariant
                        buf@.len() <= usize::MAX,
                        start + l_us <= buf@.len(),
                        i <= l_us,
                        data@ =~= buf@.subrange(start as int, start as int + i as int),
                    decreases l_us - i,
                {
                    data.push(buf[start + i]);
                    i = i + 1;
                }
                proof {
                    let s = buf@.skip(pos as int);
                    assert(data@ =~= s.subrange(n as int, n as int + l as int));
                }
                Some((data, n + l_us))
            } else {
                None
            }
        },
    }
}

} // verus!
