//! The session and call header messages and their canonical encodings.
//!
//! Encoders emit the fields of each message in one fixed order and omit
//! fields holding their default value; parsers accept exactly that shape
//! and must consume their whole input. Each message comes with a proof
//! that parsing its encoding recovers it.

use vstd::prelude::*;

use crate::codec::spec_field_varint;
use crate::codec::spec_field_bytes;
use crate::codec::spec_parse_field_varint;
use crate::codec::spec_parse_field_bytes;
use crate::codec::lemma_parse_field_varint_bounds;
use crate::codec::lemma_parse_field_bytes_bounds;
use crate::codec::lemma_parse_field_varint_roundtrip;
use crate::codec::lemma_parse_field_bytes_roundtrip;
use crate::codec::lemma_field_varint_first;
use crate::codec::lemma_field_bytes_first;
use crate::codec::encode_field_varint;
use crate::codec::encode_field_bytes;
use crate::codec::decode_field_varint;
use crate::codec::decode_field_bytes;
use crate::errors::RpcErrorCode;

verus! {

/// Tag of the request header's call ID field.
pub const TAG_REQ_CALL_ID: u8 = 0x18;

/// Tag of the request header's remote method field.
pub const TAG_REQ_REMOTE_METHOD: u8 = 0x32;

/// Tag of the request header's timeout field.
pub const TAG_REQ_TIMEOUT: u8 = 0x50;

/// Tag of one required feature flag in a request header.
pub const TAG_REQ_FEATURE_FLAG: u8 = 0x58;

/// Tag of the service name inside a remote method.
pub const TAG_RM_SERVICE: u8 = 0x0a;

/// Tag of the method name inside a remote method.
pub const TAG_RM_METHOD: u8 = 0x12;

/// Tag of the response header's call ID field.
pub const TAG_RESP_CALL_ID: u8 = 0x08;

/// Tag of the response header's error flag.
pub const TAG_RESP_IS_ERROR: u8 = 0x10;

/// Tag of one sidecar offset in a response header.
pub const TAG_RESP_SIDECAR: u8 = 0x18;

/// Tag of the negotiation state inside a SASL message.
pub const TAG_SASL_STATE: u8 = 0x10;

/// Tag of the token inside a SASL message.
pub const TAG_SASL_TOKEN: u8 = 0x1a;

/// Tag of one authentication entry inside a SASL message.
pub const TAG_SASL_AUTH: u8 = 0x22;

/// Tag of the mechanism inside an authentication entry.
pub const TAG_AUTH_MECHANISM: u8 = 0x12;

/// Tag of the message text inside an error status.
pub const TAG_STATUS_MESSAGE: u8 = 0x0a;

/// Tag of the code inside an error status.
pub const TAG_STATUS_CODE: u8 = 0x10;

/// Tag of the user information inside a connection context.
pub const TAG_CTX_USER_INFO: u8 = 0x12;

/// Tag of the effective user inside the user information.
pub const TAG_USER_EFFECTIVE: u8 = 0x0a;

/// Tag of the real user inside the user information.
pub const TAG_USER_REAL: u8 = 0x12;

/// Negotiation state of a SASL message.
#[derive(Clone, Copy, Debug, PartialEq, Eq, Structural)]
pub enum SaslState {
    Success,
    Negotiate,
    Initiate,
    Challenge,
    SaslResponse,
    Unknown,
}

/// Wire value of a negotiation state.
pub open spec fn spec_wire_of_sasl_state(s: SaslState) -> u64 {
    match s {
        SaslState::Success => 0,
        SaslState::Negotiate => 1,
        SaslState::Initiate => 2,
        SaslState::Challenge => 3,
        SaslState::SaslResponse => 4,
        SaslState::Unknown => 999,
    }
}

/// Negotiation state denoted by a wire value, if any.
pub open spec fn spec_sasl_state_of_wire(w: u64) -> Option<SaslState> {
    if w == 0 {
        Some(SaslState::Success)
    } else if w == 1 {
        Some(SaslState::Negotiate)
    } else if w == 2 {
        Some(SaslState::Initiate)
    } else if w == 3 {
        Some(SaslState::Challenge)
    } else if w == 4 {
        Some(SaslState::SaslResponse)
    } else if w == 999 {
        Some(SaslState::Unknown)
    } else {
        None
    }
}

/// Computes the wire value of a negotiation state.
pub fn wire_of_sasl_state(s: SaslState) -> (r: u64)
    ensures
        r == spec_wire_of_sasl_state(s),
{
    match s {
        SaslState::Success => 0,
        SaslState::Negotiate => 1,
        SaslState::Initiate => 2,
        SaslState::Challenge => 3,
        SaslState::SaslResponse => 4,
        SaslState::Unknown => 999,
    }
}

/// Recovers a negotiation state from its wire value.
pub fn sasl_state_of_wire(w: u64) -> (r: Option<SaslState>)
    ensures
        r == spec_sasl_state_of_wire(w),
{
    if w == 0 {
        Some(SaslState::Success)
    } else if w == 1 {
        Some(SaslState::Negotiate)
    } else if w == 2 {
        Some(SaslState::Initiate)
    } else if w == 3 {
        Some(SaslState::Challenge)
    } else if w == 4 {
        Some(SaslState::SaslResponse)
    } else if w == 999 {
        Some(SaslState::Unknown)
    } else {
        None
    }
}

/// Wire value of a server error code.
pub open spec fn spec_wire_of_code(c: RpcErrorCode) -> u64 {
    match c {
        RpcErrorCode::ApplicationError => 1,
        RpcErrorCode::NoSuchMethod => 2,
        RpcErrorCode::NoSuchService => 3,
        RpcErrorCode::ServerTooBusy => 4,
        RpcErrorCode::InvalidRequest => 5,
        RpcErrorCode::FatalUnknown => 10,
        RpcErrorCode::FatalServerShuttingDown => 11,
        RpcErrorCode::FatalInvalidRpcHeader => 12,
        RpcErrorCode::FatalDeserializingRequest => 13,
        RpcErrorCode::FatalVersionMismatch => 14,
        RpcErrorCode::FatalUnauthorized => 15,
    }
}

/// Server error code denoted by a wire value, if any.
pub open spec fn spec_code_of_wire(w: u64) -> Option<RpcErrorCode> {
    if w == 1 {
        Some(RpcErrorCode::ApplicationError)
    } else if w == 2 {
        Some(RpcErrorCode::NoSuchMethod)
    } else if w == 3 {
        Some(RpcErrorCode::NoSuchService)
    } else if w == 4 {
        Some(RpcErrorCode::ServerTooBusy)
    } else if w == 5 {
        Some(RpcErrorCode::InvalidRequest)
    } else if w == 10 {
        Some(RpcErrorCode::FatalUnknown)
    } else if w == 11 {
        Some(RpcErrorCode::FatalServerShuttingDown)
    } else if w == 12 {
        Some(RpcErrorCode::FatalInvalidRpcHeader)
    } else if w == 13 {
        Some(RpcErrorCode::FatalDeserializingRequest)
    } else if w == 14 {
        Some(RpcErrorCode::FatalVersionMismatch)
    } else if w == 15 {
        Some(RpcErrorCode::FatalUnauthorized)
    } else {
        None
    }
}

/// Computes the wire value of a server error code.
pub fn wire_of_code(c: RpcErrorCode) -> (r: u64)
    ensures
        r == spec_wire_of_code(c),
{
    match c {
        RpcErrorCode::ApplicationError => 1,
        RpcErrorCode::NoSuchMethod => 2,
        RpcErrorCode::NoSuchService => 3,
        RpcErrorCode::ServerTooBusy => 4,
        RpcErrorCode::InvalidRequest => 5,
        RpcErrorCode::FatalUnknown => 10,
        RpcErrorCode::FatalServerShuttingDown => 11,
        RpcErrorCode::FatalInvalidRpcHeader => 12,
        RpcErrorCode::FatalDeserializingRequest => 13,
        RpcErrorCode::FatalVersionMismatch => 14,
        RpcErrorCode::FatalUnauthorized => 15,
    }
}

/// Recovers a server error code from its wire value.
pub fn code_of_wire(w: u64) -> (r: Option<RpcErrorCode>)
    ensures
        r == spec_code_of_wire(w),
{
    if w == 1 {
        Some(RpcErrorCode::ApplicationError)
    } else if w == 2 {
        Some(RpcErrorCode::NoSuchMethod)
    } else if w == 3 {
        Some(RpcErrorCode::NoSuchService)
    } else if w == 4 {
        Some(RpcErrorCode::ServerTooBusy)
    } else if w == 5 {
        Some(RpcErrorCode::InvalidRequest)
    } else if w == 10 {
        Some(RpcErrorCode::FatalUnknown)
    } else if w == 11 {
        Some(RpcErrorCode::FatalServerShuttingDown)
    } else if w == 12 {
        Some(RpcErrorCode::FatalInvalidRpcHeader)
    } else if w == 13 {
        Some(RpcErrorCode::FatalDeserializingRequest)
    } else if w == 14 {
        Some(RpcErrorCode::FatalVersionMismatch)
    } else if w == 15 {
        Some(RpcErrorCode::FatalUnauthorized)
    } else {
        None
    }
}

/// Every state and code survives the trip through its wire value.
pub proof fn lemma_enum_wire_roundtrip(s: SaslState, c: RpcErrorCode)
    ensures
        spec_sasl_state_of_wire(spec_wire_of_sasl_state(s)) == Some(s),
        spec_code_of_wire(spec_wire_of_code(c)) == Some(c),
{
}

/// Encoding of a repeated 32-bit varint field, one tagged entry per value.
pub open spec fn spec_enc_u32_list(tag: u8, vs: Seq<u32>) -> Seq<u8>
    decreases vs.len(),
{
    if vs.len() == 0 {
        Seq::empty()
    } else {
        spec_field_varint(tag, vs[0] as u64) + spec_enc_u32_list(tag, vs.drop_first())
    }
}

/// Parse of a repeated 32-bit varint field filling the whole input.
pub open spec fn spec_parse_u32_list(s: Seq<u8>, tag: u8) -> Option<Seq<u32>>
    decreases s.len(),
    via spec_parse_u32_list_dec
{
    if s.len() == 0 {
        Some(Seq::empty())
    } else {
        match spec_parse_field_varint(s, tag) {
            None => None,
            Some((v, n)) => if v <= u32::MAX {
                match spec_parse_u32_list(s.skip(n), tag) {
                    None => None,
                    Some(tail) => Some(seq![v as u32] + tail),
                }
            } else {
                None
            },
        }
    }
}

#[via_fn]
proof fn spec_parse_u32_list_dec(s: Seq<u8>, tag: u8) {
    lemma_parse_field_varint_bounds(s, tag);
}

/// Parsing a repeated 32-bit field from its own encoding recovers the
/// values.
pub proof fn lemma_parse_u32_list_roundtrip(tag: u8, vs: Seq<u32>)
    ensures
        spec_parse_u32_list(spec_enc_u32_list(tag, vs), tag) == Some(vs),
    decreases vs.len(),
{
    if vs.len() == 0 {
        assert(spec_enc_u32_list(tag, vs).len() == 0);
        assert(Seq::<u32>::empty() =~= vs);
    } else {
        let head = spec_field_varint(tag, vs[0] as u64);
        let tail = spec_enc_u32_list(tag, vs.drop_first());
        let s = head + tail;
        lemma_field_varint_first(tag, vs[0] as u64);
        lemma_parse_field_varint_roundtrip(tag, vs[0] as u64, tail);
        assert(s.skip(head.len() as int) =~= tail);
        lemma_parse_u32_list_roundtrip(tag, vs.drop_first());
        assert(seq![vs[0]] + vs.drop_first() =~= vs);
    }
}

/// Reads a repeated 32-bit varint field filling `buf` from `pos` on.
pub fn decode_u32_list(buf: &[u8], pos: usize, tag: u8) -> (r: Option<Vec<u32>>)
    requires
        pos <= buf@.len(),
    ensures
        match r {
            Some(vs) => spec_parse_u32_list(buf@.skip(pos as int), tag) == Some(vs@),
            None => spec_parse_u32_list(buf@.skip(pos as int), tag) is None,
        },
    decreases buf@.len() - pos,
{
    if pos >= buf.len() {
        assert(buf@.skip(pos as int).len() == 0);
        return Some(Vec::new());
    }
    match decode_field_varint(buf, pos, tag) {
        None => None,
        Some((v, n)) => {
            if v <= u32::MAX as u64 {
                proof {
                    assert(buf@.skip(pos as int).skip(n as int) =~= buf@.skip(pos as int + n as int));
                }
                match decode_u32_list(buf, pos + n, tag) {
                    None => None,
                    Some(tail) => {
                        let mut out: Vec<u32> = Vec::new();
                        out.push(v as u32);
                        let mut rest = tail;
                        out.append(&mut rest);
                        proof {
                            assert(out@ =~= seq![v as u32] + tail@);
                        }
                        Some(out)
                    },
                }
            } else {
                None
            }
        },
    }
}

/// Appends a repeated 32-bit varint field.
pub fn encode_u32_list(out: &mut Vec<u8>, tag: u8, vs: &Vec<u32>)
    ensures
        final(out)@ =~= old(out)@ + spec_enc_u32_list(tag, vs@),
{
    let ghost orig = out@;
    let n = vs.len();
    let mut i: usize = 0;
    while i < n
        invariant
            n == vs@.len(),
            i <= n,
            out@ =~= orig + spec_enc_u32_list(tag, vs@.take(i as int)),
        decreases n - i,
    {
        encode_field_varint(out, tag, vs[i] as u64);
        proof {
            lemma_enc_u32_list_snoc(tag, vs@.take(i as int), vs@[i as int]);
            assert(vs@.take(i as int).push(vs@[i as int]) =~= vs@.take(i as int + 1));
        }
        i = i + 1;
    }
    proof {
        assert(vs@.take(n as int) =~= vs@);
    }
}

/// Appending one value to a repeated field appends its encoding.
proof fn lemma_enc_u32_list_snoc(tag: u8, vs: Seq<u32>, v: u32)
    ensures
        spec_enc_u32_list(tag, vs.push(v)) =~= spec_enc_u32_list(tag, vs) + spec_field_varint(
            tag,
            v as u64,
        ),
    decreases vs.len(),
{
    if vs.len() == 0 {
        assert(vs.push(v).drop_first() =~= vs);
    } else {
        assert(vs.push(v).drop_first() =~= vs.drop_first().push(v));
        lemma_enc_u32_list_snoc(tag, vs.drop_first(), v);
    }
}

/// A byte payload short enough for every length field of this codec.
pub open spec fn spec_len_ok(s: Seq<u8>) -> bool {
    s.len() < 0x8000_0000
}

/// Encoding of one authentication entry: a tagged submessage holding the
/// mechanism.
pub open spec fn spec_enc_auth(mech: Seq<u8>) -> Seq<u8> {
    spec_field_bytes(TAG_SASL_AUTH, spec_field_bytes(TAG_AUTH_MECHANISM, mech))
}

/// Encoding of the repeated authentication entries of a SASL message.
pub open spec fn spec_enc_auth_list(auths: Seq<Seq<u8>>) -> Seq<u8>
    decreases auths.len(),
{
    if auths.len() == 0 {
        Seq::empty()
    } else {
        spec_enc_auth(auths[0]) + spec_enc_auth_list(auths.drop_first())
    }
}

/// Parse of one authentication submessage, which must hold exactly a
/// mechanism field.
pub open spec fn spec_parse_auth(sub: Seq<u8>) -> Option<Seq<u8>> {
    match spec_parse_field_bytes(sub, TAG_AUTH_MECHANISM) {
        Some((mech, n)) => if n == sub.len() {
            Some(mech)
        } else {
            None
        },
        None => None,
    }
}

/// Parse of the repeated authentication entries filling the whole input.
pub open spec fn spec_parse_auth_list(s: Seq<u8>) -> Option<Seq<Seq<u8>>>
    decreases s.len(),
    via spec_parse_auth_list_dec
{
    if s.len() == 0 {
        Some(Seq::empty())
    } else {
        match spec_parse_field_bytes(s, TAG_SASL_AUTH) {
            None => None,
            Some((sub, n)) => match spec_parse_auth(sub) {
                None => None,
                Some(mech) => match spec_parse_auth_list(s.skip(n)) {
                    None => None,
                    Some(tail) => Some(seq![mech] + tail),
                },
            },
        }
    }
}

#[via_fn]
proof fn spec_parse_auth_list_dec(s: Seq<u8>) {
    lemma_parse_field_bytes_bounds(s, TAG_SASL_AUTH);
}

/// Parsing one authentication entry from its encoding recovers the
/// mechanism.
proof fn lemma_parse_auth_roundtrip(mech: Seq<u8>)
    requires
        spec_len_ok(mech),
    ensures
        spec_parse_auth(spec_field_bytes(TAG_AUTH_MECHANISM, mech)) == Some(mech),
{
    let inner = spec_field_bytes(TAG_AUTH_MECHANISM, mech);
    lemma_parse_field_bytes_roundtrip(TAG_AUTH_MECHANISM, mech, Seq::empty());
    assert(inner + Seq::<u8>::empty() =~= inner);
}

/// Parsing the repeated authentication entries from their encoding
/// recovers the mechanisms.
pub proof fn lemma_parse_auth_list_roundtrip(auths: Seq<Seq<u8>>)
    requires
        forall|i: int| 0 <= i < auths.len() ==> spec_len_ok(#[trigger] auths[i]),
    ensures
        spec_parse_auth_list(spec_enc_auth_list(auths)) == Some(auths),
    decreases auths.len(),
{
    if auths.len() == 0 {
        assert(Seq::<Seq<u8>>::empty() =~= auths);
    } else {
        let inner = spec_field_bytes(TAG_AUTH_MECHANISM, auths[0]);
        let head = spec_enc_auth(auths[0]);
        let tail = spec_enc_auth_list(auths.drop_first());
        let s = head + tail;
        crate::wire::lemma_varint_len(auths[0].len() as u64);
        assert(inner.len() <= 1 + 10 + auths[0].len());
        lemma_field_bytes_first(TAG_SASL_AUTH, inner);
        lemma_parse_field_bytes_roundtrip(TAG_SASL_AUTH, inner, tail);
        lemma_parse_auth_roundtrip(auths[0]);
        assert(s.skip(head.len() as int) =~= tail);
        lemma_parse_auth_list_roundtrip(auths.drop_first());
        assert(seq![auths[0]] + auths.drop_first() =~= auths);
    }
}

/// Appends one authentication entry.
fn encode_auth(out: &mut Vec<u8>, mech: &[u8])
    requires
        spec_len_ok(mech@),
    ensures
        final(out)@ =~= old(out)@ + spec_enc_auth(mech@),
{
    let mut inner: Vec<u8> = Vec::new();
    encode_field_bytes(&mut inner, TAG_AUTH_MECHANISM, mech);
    encode_field_bytes(out, TAG_SASL_AUTH, inner.as_slice());
}

/// Appends the repeated authentication entries.
pub fn encode_auth_list(out: &mut Vec<u8>, auths: &Vec<Vec<u8>>)
    requires
        forall|i: int| 0 <= i < auths@.len() ==> spec_len_ok(#[trigger] auths@[i]@),
    ensures
        final(out)@ =~= old(out)@ + spec_enc_auth_list(auths.deep_view()),
{
    let ghost orig = out@;
    let n = auths.len();
    let mut i: usize = 0;
    while i < n
        invariant
            n == auths@.len(),
            i <= n,
            forall|k: int| 0 <= k < auths@.len() ==> spec_len_ok(#[trigger] auths@[k]@),
            out@ =~= orig + spec_enc_auth_list(auths.deep_view().take(i as int)),
        decreases n - i,
    {
        encode_auth(out, auths[i].as_slice());
        proof {
            lemma_enc_auth_list_snoc(auths.deep_view().take(i as int), auths@[i as int]@);
            assert(auths.deep_view().take(i as int).push(auths@[i as int]@) =~~= auths.deep_view()
                .take(i as int + 1));
        }
        i = i + 1;
    }
    proof {
        assert(auths.deep_view().take(n as int) =~~= auths.deep_view());
    }
}

/// Appending one entry to the repeated field appends its encoding.
proof fn lemma_enc_auth_list_snoc(auths: Seq<Seq<u8>>, mech: Seq<u8>)
    ensures
        spec_enc_auth_list(auths.push(mech)) =~= spec_enc_auth_list(auths) + spec_enc_auth(mech),
    decreases auths.len(),
{
    if auths.len() == 0 {
        assert(auths.push(mech).drop_first() =~= auths);
    } else {
        assert(auths.push(mech).drop_first() =~= auths.drop_first().push(mech));
        lemma_enc_auth_list_snoc(auths.drop_first(), mech);
    }
}

/// Reads the repeated authentication entries filling `buf` from `pos` on.
pub fn decode_auth_list(buf: &[u8], pos: usize) -> (r: Option<Vec<Vec<u8>>>)
    requires
        pos <= buf@.len(),
    ensures
        match r {
            Some(vs) => spec_parse_auth_list(buf@.skip(pos as int)) == Some(vs.deep_view()),
            None => spec_parse_auth_list(buf@.skip(pos as int)) is None,
        },
    decreases buf@.len() - pos,
{
    if pos >= buf.len() {
        assert(buf@.skip(pos as int).len() == 0);
        let r: Vec<Vec<u8>> = Vec::new();
        assert(r.deep_view() =~~= Seq::<Seq<u8>>::empty());
        return Some(r);
    }
    match decode_field_bytes(buf, pos, TAG_SASL_AUTH) {
        None => None,
        Some((sub, n)) => {
            match decode_field_bytes(sub.as_slice(), 0, TAG_AUTH_MECHANISM) {
                None => {
                    proof {
                        assert(sub@.skip(0) =~= sub@);
                    }
                    None
                },
                Some((mech, m)) => {
                    proof {
                        assert(sub@.skip(0) =~= sub@);
                    }
                    if m != sub.len() {
                        None
                    } else {
                        proof {
                            assert(buf@.skip(pos as int).skip(n as int) =~= buf@.skip(
                                pos as int + n as int,
                            ));
                        }
                        match decode_auth_list(buf, pos + n) {
                            None => None,
                            Some(tail) => {
                                let mut out: Vec<Vec<u8>> = Vec::new();
                                out.push(mech);
                                let mut rest = tail;
                                out.append(&mut rest);
                                proof {
                                    assert(out.deep_view() =~~= seq![mech@] + tail.deep_view());
                                }
                                Some(out)
                            },
                        }
                    }
                },
            }
        },
    }
}

/// A repeated 32-bit field occupies at most eleven bytes per value.
pub proof fn lemma_enc_u32_list_len(tag: u8, vs: Seq<u32>)
    ensures
        spec_enc_u32_list(tag, vs).len() <= 11 * vs.len(),
    decreases vs.len(),
{
    if vs.len() > 0 {
        crate::wire::lemma_varint_len(vs[0] as u64);
        lemma_enc_u32_list_len(tag, vs.drop_first());
    }
}

/// Response header of one incoming frame.
#[derive(Debug)]
pub struct ResponseHeader {
    /// Call ID echoed by the server.
    pub call_id: i32,
    /// Whether the body is an error status instead of a method response.
    pub is_error: bool,
    /// Offsets of out-of-band blobs; must be empty in this runtime.
    pub sidecar_offsets: Vec<u32>,
}

impl View for ResponseHeader {
    type V = (i32, bool, Seq<u32>);

    open spec fn view(&self) -> (i32, bool, Seq<u32>) {
        (self.call_id, self.is_error, self.sidecar_offsets@)
    }
}

/// Encoding of a response header: call ID, the error flag when set, then
/// the sidecar offsets.
pub open spec fn spec_enc_response_header(h: (i32, bool, Seq<u32>)) -> Seq<u8> {
    spec_field_varint(TAG_RESP_CALL_ID, crate::codec::spec_wire_of_call_id(h.0)) + (if h.1 {
        spec_field_varint(TAG_RESP_IS_ERROR, 1)
    } else {
        Seq::empty()
    }) + spec_enc_u32_list(TAG_RESP_SIDECAR, h.2)
}

/// Parse of a response header filling the whole input.
pub open spec fn spec_parse_response_header(s: Seq<u8>) -> Option<(i32, bool, Seq<u32>)> {
    match spec_parse_field_varint(s, TAG_RESP_CALL_ID) {
        None => None,
        Some((w, n)) => if crate::codec::spec_wire_id_valid(w) {
            let cid = crate::codec::spec_call_id_of_wire(w);
            let s1 = s.skip(n);
            match spec_parse_field_varint(s1, TAG_RESP_IS_ERROR) {
                Some((v, m)) => if v == 1 {
                    match spec_parse_u32_list(s1.skip(m), TAG_RESP_SIDECAR) {
                        None => None,
                        Some(sc) => Some((cid, true, sc)),
                    }
                } else {
                    None
                },
                None => match spec_parse_u32_list(s1, TAG_RESP_SIDECAR) {
                    None => None,
                    Some(sc) => Some((cid, false, sc)),
                },
            }
        } else {
            None
        },
    }
}

/// A nonempty repeated 32-bit field starts with its tag.
proof fn lemma_enc_u32_list_first(tag: u8, vs: Seq<u32>)
    requires
        vs.len() > 0,
    ensures
        spec_enc_u32_list(tag, vs).len() >= 2,
        spec_enc_u32_list(tag, vs)[0] == tag,
{
    lemma_field_varint_first(tag, vs[0] as u64);
}

/// Parsing a response header from its encoding recovers it.
pub proof fn lemma_parse_response_header_roundtrip(h: (i32, bool, Seq<u32>))
    ensures
        spec_parse_response_header(spec_enc_response_header(h)) == Some(h),
{
    let w = crate::codec::spec_wire_of_call_id(h.0);
    let f1 = spec_field_varint(TAG_RESP_CALL_ID, w);
    let f2: Seq<u8> = if h.1 {
        spec_field_varint(TAG_RESP_IS_ERROR, 1)
    } else {
        Seq::empty()
    };
    let f3 = spec_enc_u32_list(TAG_RESP_SIDECAR, h.2);
    let s = spec_enc_response_header(h);
    assert(s =~= f1 + (f2 + f3));
    lemma_parse_field_varint_roundtrip(TAG_RESP_CALL_ID, w, f2 + f3);
    crate::codec::lemma_call_id_roundtrip(h.0);
    let s1 = s.skip(f1.len() as int);
    assert(s1 =~= f2 + f3);
    lemma_parse_u32_list_roundtrip(TAG_RESP_SIDECAR, h.2);
    if h.1 {
        lemma_parse_field_varint_roundtrip(TAG_RESP_IS_ERROR, 1, f3);
        assert(s1.skip(f2.len() as int) =~= f3);
    } else {
        assert(s1 =~= f3);
        if h.2.len() > 0 {
            lemma_enc_u32_list_first(TAG_RESP_SIDECAR, h.2);
            assert(spec_parse_field_varint(s1, TAG_RESP_IS_ERROR) is None);
        }
    }
}

/// Appends the encoding of a response header.
pub fn encode_response_header(out: &mut Vec<u8>, h: &ResponseHeader)
    ensures
        final(out)@ =~= old(out)@ + spec_enc_response_header(h@),
{
    let wire = crate::codec::wire_of_call_id(h.call_id);
    encode_field_varint(out, TAG_RESP_CALL_ID, wire);
    if h.is_error {
        encode_field_varint(out, TAG_RESP_IS_ERROR, 1);
    }
    encode_u32_list(out, TAG_RESP_SIDECAR, &h.sidecar_offsets);
}

/// Reads a response header that must fill `buf` exactly.
pub fn decode_response_header(buf: &[u8]) -> (r: Option<ResponseHeader>)
    ensures
        match r {
            Some(h) => spec_parse_response_header(buf@) == Some(h@),
            None => spec_parse_response_header(buf@) is None,
        },
{
    let blen = buf.len();
    proof {
        assert(buf@.skip(0) =~= buf@);
    }
    match decode_field_varint(buf, 0, TAG_RESP_CALL_ID) {
        None => None,
        Some((w, n)) => {
            match crate::codec::call_id_of_wire(w) {
                None => None,
                Some(cid) => {
                    match decode_field_varint(buf, n, TAG_RESP_IS_ERROR) {
                        Some((v, m)) => {
                            if v == 1 {
                                proof {
                                    assert(buf@.skip(n as int).skip(m as int) =~= buf@.skip(
                                        n as int + m as int,
                                    ));
                                }
                                match decode_u32_list(buf, n + m, TAG_RESP_SIDECAR) {
                                    None => None,
                                    Some(sc) => Some(
                                        ResponseHeader {
                                            call_id: cid,
                                            is_error: true,
                                            sidecar_offsets: sc,
                                        },
                                    ),
                                }
                            } else {
                                None
                            }
                        },
                        None => {
                            match decode_u32_list(buf, n, TAG_RESP_SIDECAR) {
                                None => None,
                                Some(sc) => Some(
                                    ResponseHeader {
                                        call_id: cid,
                                        is_error: false,
                                        sidecar_offsets: sc,
                                    },
                                ),
                            }
                        },
                    }
                },
            }
        },
    }
}

/// Error status carried by the body of an error response.
#[derive(Debug)]
pub struct ErrorStatus {
    /// Human-readable description from the server.
    pub message: Vec<u8>,
    /// Classification of the failure.
    pub code: RpcErrorCode,
}

impl View for ErrorStatus {
    type V = (Seq<u8>, RpcErrorCode);

    open spec fn view(&self) -> (Seq<u8>, RpcErrorCode) {
        (self.message@, self.code)
    }
}

/// Encoding of an error status: the message text, then the code.
pub open spec fn spec_enc_error_status(v: (Seq<u8>, RpcErrorCode)) -> Seq<u8> {
    spec_field_bytes(TAG_STATUS_MESSAGE, v.0) + spec_field_varint(
        TAG_STATUS_CODE,
        spec_wire_of_code(v.1),
    )
}

/// Parse of an error status filling the whole input.
pub open spec fn spec_parse_error_status(s: Seq<u8>) -> Option<(Seq<u8>, RpcErrorCode)> {
    match spec_parse_field_bytes(s, TAG_STATUS_MESSAGE) {
        None => None,
        Some((msg, n)) => match spec_parse_field_varint(s.skip(n), TAG_STATUS_CODE) {
            None => None,
            Some((w, m)) => if n + m == s.len() {
                match spec_code_of_wire(w) {
                    None => None,
                    Some(code) => Some((msg, code)),
                }
            } else {
                None
            },
        },
    }
}

/// Parsing an error status from its encoding recovers it.
pub proof fn lemma_parse_error_status_roundtrip(v: (Seq<u8>, RpcErrorCode))
    requires
        spec_len_ok(v.0),
    ensures
        spec_parse_error_status(spec_enc_error_status(v)) == Some(v),
{
    let f1 = spec_field_bytes(TAG_STATUS_MESSAGE, v.0);
    let f2 = spec_field_varint(TAG_STATUS_CODE, spec_wire_of_code(v.1));
    let s = spec_enc_error_status(v);
    lemma_parse_field_bytes_roundtrip(TAG_STATUS_MESSAGE, v.0, f2);
    assert(s.skip(f1.len() as int) =~= f2);
    lemma_parse_field_varint_roundtrip(TAG_STATUS_CODE, spec_wire_of_code(v.1), Seq::empty());
    assert(f2 + Seq::<u8>::empty() =~= f2);
}

/// Appends the encoding of an error status.
pub fn encode_error_status(out: &mut Vec<u8>, v: &ErrorStatus)
    requires
        spec_len_ok(v.message@),
    ensures
        final(out)@ =~= old(out)@ + spec_enc_error_status(v@),
{
    encode_field_bytes(out, TAG_STATUS_MESSAGE, v.message.as_slice());
    let wire = wire_of_code(v.code);
    encode_field_varint(out, TAG_STATUS_CODE, wire);
}

/// Reads an error status that must fill `buf` exactly.
pub fn decode_error_status(buf: &[u8]) -> (r: Option<ErrorStatus>)
    ensures
        match r {
            Some(v) => spec_parse_error_status(buf@) == Some(v@),
            None => spec_parse_error_status(buf@) is None,
        },
{
    let blen = buf.len();
    proof {
        assert(buf@.skip(0) =~= buf@);
    }
    match decode_field_bytes(buf, 0, TAG_STATUS_MESSAGE) {
        None => None,
        Some((msg, n)) => {
            match decode_field_varint(buf, n, TAG_STATUS_CODE) {
                None => None,
                Some((w, m)) => {
                    if n + m == blen {
                        match code_of_wire(w) {
                            None => None,
                            Some(code) => Some(ErrorStatus { message: msg, code }),
                        }
                    } else {
                        None
                    }
                },
            }
        },
    }
}

/// SASL negotiation message.
#[derive(Debug)]
pub struct SaslMessage {
    /// Negotiation state.
    pub state: SaslState,
    /// Authentication token; empty when absent.
    pub token: Vec<u8>,
    /// Offered or chosen mechanisms, one per authentication entry.
    pub auths: Vec<Vec<u8>>,
}

impl View for SaslMessage {
    type V = (SaslState, Seq<u8>, Seq<Seq<u8>>);

    open spec fn view(&self) -> (SaslState, Seq<u8>, Seq<Seq<u8>>) {
        (self.state, self.token@, self.auths.deep_view())
    }
}

/// Valid SASL message values for encoding: token and mechanisms short
/// enough for their length fields.
pub open spec fn spec_sasl_valid(v: (SaslState, Seq<u8>, Seq<Seq<u8>>)) -> bool {
    &&& spec_len_ok(v.1)
    &&& forall|i: int| 0 <= i < v.2.len() ==> spec_len_ok(#[trigger] v.2[i])
}

/// Encoding of a SASL message: the state, the token when nonempty, then
/// the authentication entries.
pub open spec fn spec_enc_sasl(v: (SaslState, Seq<u8>, Seq<Seq<u8>>)) -> Seq<u8> {
    spec_field_varint(TAG_SASL_STATE, spec_wire_of_sasl_state(v.0)) + (if v.1.len() > 0 {
        spec_field_bytes(TAG_SASL_TOKEN, v.1)
    } else {
        Seq::empty()
    }) + spec_enc_auth_list(v.2)
}

/// Parse of a SASL message filling the whole input.
pub open spec fn spec_parse_sasl(s: Seq<u8>) -> Option<(SaslState, Seq<u8>, Seq<Seq<u8>>)> {
    match spec_parse_field_varint(s, TAG_SASL_STATE) {
        None => None,
        Some((w, n)) => match spec_sasl_state_of_wire(w) {
            None => None,
            Some(st) => {
                let s1 = s.skip(n);
                match spec_parse_field_bytes(s1, TAG_SASL_TOKEN) {
                    Some((tok, m)) => if tok.len() > 0 {
                        match spec_parse_auth_list(s1.skip(m)) {
                            None => None,
                            Some(a) => Some((st, tok, a)),
                        }
                    } else {
                        None
                    },
                    None => match spec_parse_auth_list(s1) {
                        None => None,
                        Some(a) => Some((st, Seq::empty(), a)),
                    },
                }
            },
        },
    }
}

/// A nonempty authentication list starts with its entry tag.
proof fn lemma_enc_auth_list_first(auths: Seq<Seq<u8>>)
    requires
        auths.len() > 0,
    ensures
        spec_enc_auth_list(auths).len() >= 2,
        spec_enc_auth_list(auths)[0] == TAG_SASL_AUTH,
{
    lemma_field_bytes_first(TAG_SASL_AUTH, spec_field_bytes(TAG_AUTH_MECHANISM, auths[0]));
}

/// Parsing a SASL message from its encoding recovers it.
pub proof fn lemma_parse_sasl_roundtrip(v: (SaslState, Seq<u8>, Seq<Seq<u8>>))
    requires
        spec_sasl_valid(v),
    ensures
        spec_parse_sasl(spec_enc_sasl(v)) == Some(v),
{
    let w = spec_wire_of_sasl_state(v.0);
    let f1 = spec_field_varint(TAG_SASL_STATE, w);
    let f2: Seq<u8> = if v.1.len() > 0 {
        spec_field_bytes(TAG_SASL_TOKEN, v.1)
    } else {
        Seq::empty()
    };
    let f3 = spec_enc_auth_list(v.2);
    let s = spec_enc_sasl(v);
    assert(s =~= f1 + (f2 + f3));
    lemma_parse_field_varint_roundtrip(TAG_SASL_STATE, w, f2 + f3);
    let s1 = s.skip(f1.len() as int);
    assert(s1 =~= f2 + f3);
    lemma_parse_auth_list_roundtrip(v.2);
    if v.1.len() > 0 {
        lemma_parse_field_bytes_roundtrip(TAG_SASL_TOKEN, v.1, f3);
        assert(s1.skip(f2.len() as int) =~= f3);
    } else {
        assert(s1 =~= f3);
        if v.2.len() > 0 {
            lemma_enc_auth_list_first(v.2);
            assert(spec_parse_field_bytes(s1, TAG_SASL_TOKEN) is None);
        }
    }
}

/// Appends the encoding of a SASL message.
pub fn encode_sasl(out: &mut Vec<u8>, v: &SaslMessage)
    requires
        spec_sasl_valid(v@),
    ensures
        final(out)@ =~= old(out)@ + spec_enc_sasl(v@),
{
    let wire = wire_of_sasl_state(v.state);
    encode_field_varint(out, TAG_SASL_STATE, wire);
    if v.token.len() > 0 {
        encode_field_bytes(out, TAG_SASL_TOKEN, v.token.as_slice());
    }
    proof {
        assert(v@.2 == v.auths.deep_view());
        assert forall|i: int| 0 <= i < v.auths@.len() implies spec_len_ok(
            #[trigger] v.auths@[i]@,
        ) by {
            assert(spec_len_ok(v@.2[i]));
            assert(v.auths.deep_view()[i] == v.auths@[i].deep_view());
            assert(v.auths@[i].deep_view().len() == v.auths@[i]@.len());
        }
    }
    encode_auth_list(out, &v.auths);
}

/// Reads a SASL message that must fill `buf` exactly.
pub fn decode_sasl(buf: &[u8]) -> (r: Option<SaslMessage>)
    ensures
        match r {
            Some(v) => spec_parse_sasl(buf@) == Some(v@),
            None => spec_parse_sasl(buf@) is None,
        },
{
    let blen = buf.len();
    proof {
        assert(buf@.skip(0) =~= buf@);
    }
    match decode_field_varint(buf, 0, TAG_SASL_STATE) {
        None => None,
        Some((w, n)) => {
            match sasl_state_of_wire(w) {
                None => None,
                Some(st) => {
                    match decode_field_bytes(buf, n, TAG_SASL_TOKEN) {
                        Some((tok, m)) => {
                            if tok.len() > 0 {
                                proof {
                                    assert(buf@.skip(n as int).skip(m as int) =~= buf@.skip(
                                        n as int + m as int,
                                    ));
                                }
                                match decode_auth_list(buf, n + m) {
                                    None => None,
                                    Some(a) => Some(SaslMessage { state: st, token: tok, auths: a }),
                                }
                            } else {
                                None
                            }
                        },
                        None => {
                            match decode_auth_list(buf, n) {
                                None => None,
                                Some(a) => {
                                    let empty_tok: Vec<u8> = Vec::new();
                                    Some(SaslMessage { state: st, token: empty_tok, auths: a })
                                },
                            }
                        },
                    }
                },
            }
        },
    }
}

/// Target of a call: its service and method names.
#[derive(Debug)]
pub struct RemoteMethod {
    pub service_name: Vec<u8>,
    pub method_name: Vec<u8>,
}

impl View for RemoteMethod {
    type V = (Seq<u8>, Seq<u8>);

    open spec fn view(&self) -> (Seq<u8>, Seq<u8>) {
        (self.service_name@, self.method_name@)
    }
}

/// Request header of one outgoing frame. Session-management frames carry
/// only a call ID; call frames also name their target and deadline.
#[derive(Debug)]
pub struct RequestHeader {
    /// Call ID; negative for session-management frames.
    pub call_id: i32,
    /// Target of the call, absent on session-management frames.
    pub remote_method: Option<RemoteMethod>,
    /// Time budget in milliseconds; zero when absent.
    pub timeout_millis: u32,
    /// Feature flags the server must support to serve the call.
    pub required_feature_flags: Vec<u32>,
}

impl View for RequestHeader {
    type V = (i32, Option<(Seq<u8>, Seq<u8>)>, u32, Seq<u32>);

    open spec fn view(&self) -> (i32, Option<(Seq<u8>, Seq<u8>)>, u32, Seq<u32>) {
        (
            self.call_id,
            match self.remote_method {
                Some(ref rm) => Some((rm.service_name@, rm.method_name@)),
                None => None,
            },
            self.timeout_millis,
            self.required_feature_flags@,
        )
    }
}

/// Valid request header values for encoding: names short enough for their
/// length fields.
pub open spec fn spec_request_header_valid(h: (i32, Option<(Seq<u8>, Seq<u8>)>, u32, Seq<u32>)) -> bool {
    match h.1 {
        Some(rm) => spec_len_ok(rm.0) && spec_len_ok(rm.1),
        None => true,
    }
}

/// Encoding of a remote method: the service name, then the method name.
pub open spec fn spec_enc_remote_method(rm: (Seq<u8>, Seq<u8>)) -> Seq<u8> {
    spec_field_bytes(TAG_RM_SERVICE, rm.0) + spec_field_bytes(TAG_RM_METHOD, rm.1)
}

/// Parse of a remote method filling the whole input.
pub open spec fn spec_parse_remote_method(sub: Seq<u8>) -> Option<(Seq<u8>, Seq<u8>)> {
    match spec_parse_field_bytes(sub, TAG_RM_SERVICE) {
        None => None,
        Some((sv, n)) => match spec_parse_field_bytes(sub.skip(n), TAG_RM_METHOD) {
            None => None,
            Some((mt, m)) => if n + m == sub.len() {
                Some((sv, mt))
            } else {
                None
            },
        },
    }
}

/// Encoding of a request header: call ID, then the remote method, the
/// timeout when nonzero, and the feature flags.
pub open spec fn spec_enc_request_header(h: (i32, Option<(Seq<u8>, Seq<u8>)>, u32, Seq<u32>)) -> Seq<u8> {
    spec_field_varint(TAG_REQ_CALL_ID, crate::codec::spec_wire_of_call_id(h.0)) + (match h.1 {
        Some(rm) => spec_field_bytes(TAG_REQ_REMOTE_METHOD, spec_enc_remote_method(rm)),
        None => Seq::empty(),
    }) + (if h.2 != 0 {
        spec_field_varint(TAG_REQ_TIMEOUT, h.2 as u64)
    } else {
        Seq::empty()
    }) + spec_enc_u32_list(TAG_REQ_FEATURE_FLAG, h.3)
}

/// Parse of a request header filling the whole input.
pub open spec fn spec_parse_request_header(s: Seq<u8>) -> Option<
    (i32, Option<(Seq<u8>, Seq<u8>)>, u32, Seq<u32>),
> {
    match spec_parse_field_varint(s, TAG_REQ_CALL_ID) {
        None => None,
        Some((w, n)) => if crate::codec::spec_wire_id_valid(w) {
            let cid = crate::codec::spec_call_id_of_wire(w);
            let s1 = s.skip(n);
            match spec_parse_field_bytes(s1, TAG_REQ_REMOTE_METHOD) {
                Some((sub, k)) => match spec_parse_remote_method(sub) {
                    None => None,
                    Some(rm) => spec_parse_request_tail(s1.skip(k), cid, Some(rm)),
                },
                None => spec_parse_request_tail(s1, cid, None),
            }
        } else {
            None
        },
    }
}

/// Parse of the timeout and feature flags that end a request header.
pub open spec fn spec_parse_request_tail(
    s2: Seq<u8>,
    cid: i32,
    rm: Option<(Seq<u8>, Seq<u8>)>,
) -> Option<(i32, Option<(Seq<u8>, Seq<u8>)>, u32, Seq<u32>)> {
    match spec_parse_field_varint(s2, TAG_REQ_TIMEOUT) {
        Some((t, j)) => if 1 <= t <= u32::MAX {
            match spec_parse_u32_list(s2.skip(j), TAG_REQ_FEATURE_FLAG) {
                None => None,
                Some(fl) => Some((cid, rm, t as u32, fl)),
            }
        } else {
            None
        },
        None => match spec_parse_u32_list(s2, TAG_REQ_FEATURE_FLAG) {
            None => None,
            Some(fl) => Some((cid, rm, 0, fl)),
        },
    }
}

/// Parsing a request header from its encoding recovers it.
pub proof fn lemma_parse_request_header_roundtrip(h: (i32, Option<(Seq<u8>, Seq<u8>)>, u32, Seq<u32>))
    requires
        spec_request_header_valid(h),
    ensures
        spec_parse_request_header(spec_enc_request_header(h)) == Some(h),
{
    let w = crate::codec::spec_wire_of_call_id(h.0);
    let f1 = spec_field_varint(TAG_REQ_CALL_ID, w);
    let f2: Seq<u8> = match h.1 {
        Some(rm) => spec_field_bytes(TAG_REQ_REMOTE_METHOD, spec_enc_remote_method(rm)),
        None => Seq::empty(),
    };
    let f3: Seq<u8> = if h.2 != 0 {
        spec_field_varint(TAG_REQ_TIMEOUT, h.2 as u64)
    } else {
        Seq::empty()
    };
    let f4 = spec_enc_u32_list(TAG_REQ_FEATURE_FLAG, h.3);
    let s = spec_enc_request_header(h);
    assert(s =~= f1 + (f2 + (f3 + f4)));
    lemma_parse_field_varint_roundtrip(TAG_REQ_CALL_ID, w, f2 + (f3 + f4));
    crate::codec::lemma_call_id_roundtrip(h.0);
    let s1 = s.skip(f1.len() as int);
    assert(s1 =~= f2 + (f3 + f4));
    match h.1 {
        Some(rm) => {
            let inner = spec_enc_remote_method(rm);
            crate::wire::lemma_varint_len(rm.0.len() as u64);
            crate::wire::lemma_varint_len(rm.1.len() as u64);
            assert(inner.len() <= 22 + rm.0.len() + rm.1.len());
            lemma_parse_field_bytes_roundtrip(TAG_REQ_REMOTE_METHOD, inner, f3 + f4);
            lemma_parse_remote_method_roundtrip(rm);
            assert(s1.skip(f2.len() as int) =~= f3 + f4);
            lemma_parse_request_tail_roundtrip(h, f3, f4);
        },
        None => {
            assert(s1 =~= f3 + f4);
            if f3.len() > 0 {
                lemma_field_varint_first(TAG_REQ_TIMEOUT, h.2 as u64);
                assert((f3 + f4)[0] == TAG_REQ_TIMEOUT);
                assert(spec_parse_field_bytes(s1, TAG_REQ_REMOTE_METHOD) is None);
            } else if f4.len() > 0 {
                lemma_enc_u32_list_first(TAG_REQ_FEATURE_FLAG, h.3);
                assert((f3 + f4) =~= f4);
                assert(spec_parse_field_bytes(s1, TAG_REQ_REMOTE_METHOD) is None);
            }
            lemma_parse_request_tail_roundtrip(h, f3, f4);
        },
    }
}

/// Parsing the tail fields of a request header from their encoding
/// recovers the timeout and flags.
proof fn lemma_parse_request_tail_roundtrip(
    h: (i32, Option<(Seq<u8>, Seq<u8>)>, u32, Seq<u32>),
    f3: Seq<u8>,
    f4: Seq<u8>,
)
    requires
        f3 == if h.2 != 0 {
            spec_field_varint(TAG_REQ_TIMEOUT, h.2 as u64)
        } else {
            Seq::<u8>::empty()
        },
        f4 == spec_enc_u32_list(TAG_REQ_FEATURE_FLAG, h.3),
    ensures
        spec_parse_request_tail(f3 + f4, h.0, h.1) == Some(h),
{
    lemma_parse_u32_list_roundtrip(TAG_REQ_FEATURE_FLAG, h.3);
    if h.2 != 0 {
        lemma_parse_field_varint_roundtrip(TAG_REQ_TIMEOUT, h.2 as u64, f4);
        assert((f3 + f4).skip(f3.len() as int) =~= f4);
    } else {
        assert(f3 + f4 =~= f4);
        if h.3.len() > 0 {
            lemma_enc_u32_list_first(TAG_REQ_FEATURE_FLAG, h.3);
            assert(spec_parse_field_varint(f3 + f4, TAG_REQ_TIMEOUT) is None);
        }
    }
}

/// Parsing a remote method from its encoding recovers it.
proof fn lemma_parse_remote_method_roundtrip(rm: (Seq<u8>, Seq<u8>))
    requires
        spec_len_ok(rm.0),
        spec_len_ok(rm.1),
    ensures
        spec_parse_remote_method(spec_enc_remote_method(rm)) == Some(rm),
{
    let f1 = spec_field_bytes(TAG_RM_SERVICE, rm.0);
    let f2 = spec_field_bytes(TAG_RM_METHOD, rm.1);
    let s = spec_enc_remote_method(rm);
    lemma_parse_field_bytes_roundtrip(TAG_RM_SERVICE, rm.0, f2);
    assert(s.skip(f1.len() as int) =~= f2);
    lemma_parse_field_bytes_roundtrip(TAG_RM_METHOD, rm.1, Seq::empty());
    assert(f2 + Seq::<u8>::empty() =~= f2);
}

/// A request header encoding is bounded by the lengths of its names and
/// flags.
pub proof fn lemma_enc_request_header_len(h: (i32, Option<(Seq<u8>, Seq<u8>)>, u32, Seq<u32>))
    ensures
        spec_enc_request_header(h).len() <= 66 + (match h.1 {
            Some(rm) => rm.0.len() + rm.1.len(),
            None => 0,
        }) + 11 * h.3.len(),
{
    crate::wire::lemma_varint_len(crate::codec::spec_wire_of_call_id(h.0));
    crate::wire::lemma_varint_len(h.2 as u64);
    lemma_enc_u32_list_len(TAG_REQ_FEATURE_FLAG, h.3);
    match h.1 {
        Some(rm) => {
            crate::wire::lemma_varint_len(rm.0.len() as u64);
            crate::wire::lemma_varint_len(rm.1.len() as u64);
            let inner = spec_enc_remote_method(rm);
            assert(inner.len() <= 22 + rm.0.len() + rm.1.len());
            crate::wire::lemma_varint_len(inner.len() as u64);
        },
        None => {},
    }
}

/// Appends the encoding of a request header.
pub fn encode_request_header(out: &mut Vec<u8>, h: &RequestHeader)
    requires
        spec_request_header_valid(h@),
    ensures
        final(out)@ =~= old(out)@ + spec_enc_request_header(h@),
{
    let wire = crate::codec::wire_of_call_id(h.call_id);
    encode_field_varint(out, TAG_REQ_CALL_ID, wire);
    match h.remote_method {
        Some(ref rm) => {
            let mut inner: Vec<u8> = Vec::new();
            encode_field_bytes(&mut inner, TAG_RM_SERVICE, rm.service_name.as_slice());
            encode_field_bytes(&mut inner, TAG_RM_METHOD, rm.method_name.as_slice());
            proof {
                assert(inner@ =~= spec_enc_remote_method((rm.service_name@, rm.method_name@)));
            }
            encode_field_bytes(out, TAG_REQ_REMOTE_METHOD, inner.as_slice());
        },
        None => {},
    }
    if h.timeout_millis != 0 {
        encode_field_varint(out, TAG_REQ_TIMEOUT, h.timeout_millis as u64);
    }
    encode_u32_list(out, TAG_REQ_FEATURE_FLAG, &h.required_feature_flags);
}

/// Reads a request header that must fill `buf` exactly.
#[verifier::rlimit(60)]
pub fn decode_request_header(buf: &[u8]) -> (r: Option<RequestHeader>)
    ensures
        match r {
            Some(h) => spec_parse_request_header(buf@) == Some(h@),
            None => spec_parse_request_header(buf@) is None,
        },
{
    let blen = buf.len();
    proof {
        assert(buf@.skip(0) =~= buf@);
    }
    match decode_field_varint(buf, 0, TAG_REQ_CALL_ID) {
        None => None,
        Some((w, n)) => {
            match crate::codec::call_id_of_wire(w) {
                None => None,
                Some(cid) => {
                    match decode_field_bytes(buf, n, TAG_REQ_REMOTE_METHOD) {
                        Some((sub, k)) => {
                            match decode_remote_method(sub.as_slice()) {
                                None => None,
                                Some(rm) => {
                                    proof {
                                        assert(buf@.skip(n as int).skip(k as int) =~= buf@.skip(
                                            n as int + k as int,
                                        ));
                                    }
                                    decode_request_tail(buf, n + k, cid, Some(rm))
                                },
                            }
                        },
                        None => decode_request_tail(buf, n, cid, None),
                    }
                },
            }
        },
    }
}

/// Reads the timeout and feature flags that end a request header.
fn decode_request_tail(buf: &[u8], pos: usize, cid: i32, rm: Option<RemoteMethod>) -> (r: Option<
    RequestHeader,
>)
    requires
        pos <= buf@.len(),
    ensures
        match r {
            Some(h) => spec_parse_request_tail(
                buf@.skip(pos as int),
                cid,
                match rm {
                    Some(ref m) => Some((m.service_name@, m.method_name@)),
                    None => None,
                },
            ) == Some(h@),
            None => spec_parse_request_tail(
                buf@.skip(pos as int),
                cid,
                match rm {
                    Some(ref m) => Some((m.service_name@, m.method_name@)),
                    None => None,
                },
            ) is None,
        },
{
    let blen = buf.len();
    match decode_field_varint(buf, pos, TAG_REQ_TIMEOUT) {
        Some((t, j)) => {
            if 1 <= t && t <= u32::MAX as u64 {
                proof {
                    assert(buf@.skip(pos as int).skip(j as int) =~= buf@.skip(pos as int + j as int));
                }
                match decode_u32_list(buf, pos + j, TAG_REQ_FEATURE_FLAG) {
                    None => None,
                    Some(fl) => Some(
                        RequestHeader {
                            call_id: cid,
                            remote_method: rm,
                            timeout_millis: t as u32,
                            required_feature_flags: fl,
                        },
                    ),
                }
            } else {
                None
            }
        },
        None => {
            match decode_u32_list(buf, pos, TAG_REQ_FEATURE_FLAG) {
                None => None,
                Some(fl) => Some(
                    RequestHeader {
                        call_id: cid,
                        remote_method: rm,
                        timeout_millis: 0,
                        required_feature_flags: fl,
                    },
                ),
            }
        },
    }
}

/// Reads a remote method that must fill `buf` exactly.
fn decode_remote_method(buf: &[u8]) -> (r: Option<RemoteMethod>)
    ensures
        match r {
            Some(rm) => spec_parse_remote_method(buf@) == Some(rm@),
            None => spec_parse_remote_method(buf@) is None,
        },
{
    let blen = buf.len();
    proof {
        assert(buf@.skip(0) =~= buf@);
    }
    match decode_field_bytes(buf, 0, TAG_RM_SERVICE) {
        None => None,
        Some((sv, n)) => {
            match decode_field_bytes(buf, n, TAG_RM_METHOD) {
                None => None,
                Some((mt, m)) => {
                    if n + m == blen {
                        Some(RemoteMethod { service_name: sv, method_name: mt })
                    } else {
                        None
                    }
                },
            }
        },
    }
}

/// Encoding of the connection context: the user information submessage
/// holding the effective and real user names.
pub open spec fn spec_enc_connection_context(effective_user: Seq<u8>, real_user: Seq<u8>) -> Seq<
    u8,
> {
    spec_field_bytes(
        TAG_CTX_USER_INFO,
        spec_field_bytes(TAG_USER_EFFECTIVE, effective_user) + spec_field_bytes(
            TAG_USER_REAL,
            real_user,
        ),
    )
}

/// Appends the encoding of the connection context.
pub fn encode_connection_context(out: &mut Vec<u8>, effective_user: &[u8], real_user: &[u8])
    requires
        spec_len_ok(effective_user@),
        spec_len_ok(real_user@),
    ensures
        final(out)@ =~= old(out)@ + spec_enc_connection_context(effective_user@, real_user@),
{
    let mut inner: Vec<u8> = Vec::new();
    encode_field_bytes(&mut inner, TAG_USER_EFFECTIVE, effective_user);
    encode_field_bytes(&mut inner, TAG_USER_REAL, real_user);
    encode_field_bytes(out, TAG_CTX_USER_INFO, inner.as_slice());
}

} // verus!
