//! The per-endpoint connection state machine.
//!
//! A `Connection` owns the queues, byte buffers, throttle and backoff
//! state of one session to one remote server. It is pure over plain
//! values: the driver that owns the socket feeds received bytes in with
//! `feed`, drains `write_buf` to the socket, arms the reset timer with
//! the delay chosen by `reset`, and reports socket readiness and errors
//! through the `on_*` and `poll_*` operations.
//!
//! The state machine has four states. `Connecting` waits for the TCP
//! connect; when it completes, the preamble and the SASL NEGOTIATE frame
//! are buffered and the machine negotiates. `Negotiating` interprets one
//! response frame at a time until the server reports success, then the
//! connection context is buffered and the machine is `Connected`.
//! `Connected` moves calls from the send queue onto the wire and
//! reconciles responses by call ID. Any fatal error leads to `reset`,
//! which drains the queues under the fail-fast policy and leaves the
//! machine in `Reset` until the backoff timer fires.

use vstd::prelude::*;

use crate::backoff::Backoff;
use crate::backoff::next_step;
use crate::errors::Error;
use crate::errors::RpcErrorCode;
use crate::errors::spec_code_is_fatal;
use crate::framing::FrameStatus;
use crate::framing::copy_range;
use crate::framing::frame_status;
use crate::framing::spec_frame;
use crate::framing::spec_frame_fits;
use crate::framing::spec_frame_len;
use crate::framing::spec_split_payload;
use crate::framing::split_payload;
use crate::framing::encode_frame;
use crate::messages::RemoteMethod;
use crate::messages::RequestHeader;
use crate::messages::SaslMessage;
use crate::messages::SaslState;
use crate::messages::spec_enc_connection_context;
use crate::messages::spec_enc_request_header;
use crate::messages::spec_enc_sasl;
use crate::messages::spec_parse_error_status;
use crate::messages::spec_parse_response_header;
use crate::messages::spec_parse_sasl;
use crate::messages::decode_error_status;
use crate::messages::decode_response_header;
use crate::messages::decode_sasl;
use crate::messages::encode_connection_context;
use crate::messages::encode_request_header;
use crate::messages::encode_sasl;
use crate::messages::lemma_enc_request_header_len;
use crate::options::ConnectionOptions;
use crate::queue_map::QueueMap;
use crate::queue_map::distinct_ids;
use crate::queue_map::has_id;
use crate::rpc::Rpc;
use crate::rpc::RpcOutcome;
use crate::wire::drain_front;
use crate::wire::lemma_varint_len;

verus! {

/// The four states of the connection machine.
#[derive(Clone, Copy, Debug, PartialEq, Eq, Structural)]
pub enum ConnectionState {
    /// A TCP connect is in progress.
    Connecting,
    /// The session is being negotiated.
    Negotiating,
    /// Calls flow.
    Connected,
    /// A backoff timer runs before the next connect.
    Reset,
}

/// Structural equality of errors, comparing byte and flag payloads by
/// their contents.
pub open spec fn spec_error_eq(a: Error, b: Error) -> bool {
    match (a, b) {
        (Error::Io, Error::Io) => true,
        (Error::NegotiationError, Error::NegotiationError) => true,
        (Error::InvalidRpcHeader, Error::InvalidRpcHeader) => true,
        (Error::DeserializationError, Error::DeserializationError) => true,
        (
            Error::Rpc { code: c1, message: m1, unsupported_feature_flags: f1 },
            Error::Rpc { code: c2, message: m2, unsupported_feature_flags: f2 },
        ) => c1 == c2 && m1@ == m2@ && f1@ == f2@,
        (Error::TimedOut, Error::TimedOut) => true,
        (Error::Cancelled, Error::Cancelled) => true,
        (Error::Backoff, Error::Backoff) => true,
        (Error::ConnectionError, Error::ConnectionError) => true,
        _ => false,
    }
}

/// Copies an error, byte for byte.
pub fn clone_error(e: &Error) -> (r: Error)
    ensures
        spec_error_eq(r, *e),
{
    match *e {
        Error::Io => Error::Io,
        Error::NegotiationError => Error::NegotiationError,
        Error::InvalidRpcHeader => Error::InvalidRpcHeader,
        Error::DeserializationError => Error::DeserializationError,
        Error::Rpc { ref code, ref message, ref unsupported_feature_flags } => {
            let msg = copy_range(message.as_slice(), 0, message.len());
            let mut flags: Vec<u32> = Vec::new();
            let n = unsupported_feature_flags.len();
            let mut i: usize = 0;
            while i < n
                invariant
                    n == unsupported_feature_flags@.len(),
                    i <= n,
                    flags@ =~= unsupported_feature_flags@.take(i as int),
                decreases n - i,
            {
                flags.push(unsupported_feature_flags[i]);
                i = i + 1;
            }
            proof {
                assert(msg@ =~= message@);
                assert(flags@ =~= unsupported_feature_flags@);
            }
            Error::Rpc { code: *code, message: msg, unsupported_feature_flags: flags }
        },
        Error::TimedOut => Error::TimedOut,
        Error::Cancelled => Error::Cancelled,
        Error::Backoff => Error::Backoff,
        Error::ConnectionError => Error::ConnectionError,
    }
}

/// Every call ID of the entry sequence is below the bound.
pub open spec fn ids_below(s: Seq<(u64, Rpc)>, bound: u64) -> bool {
    forall|i: int| 0 <= i < s.len() ==> (#[trigger] s[i]).0 < bound
}

/// No call ID occurs in both entry sequences.
pub open spec fn no_common_ids(a: Seq<(u64, Rpc)>, b: Seq<(u64, Rpc)>) -> bool {
    forall|i: int, j: int| 0 <= i < a.len() && 0 <= j < b.len() ==> a[i].0 != b[j].0
}

/// Every queued call is still pending: its completion slot has not been
/// signalled.
pub open spec fn all_pending(s: Seq<(u64, Rpc)>) -> bool {
    forall|i: int| 0 <= i < s.len() ==> (#[trigger] s[i]).1.outcome is Pending
}

/// Size bounds under which a call's frame always fits its length prefix.
pub open spec fn rpc_sendable(rpc: Rpc) -> bool {
    &&& rpc.service_name@.len() <= 0x10_0000
    &&& rpc.method_name@.len() <= 0x10_0000
    &&& rpc.required_feature_flags@.len() <= 0x1_0000
    &&& rpc.request@.len() <= 0x4000_0000
}

/// Every queued call satisfies the size bounds.
pub open spec fn all_sendable(s: Seq<(u64, Rpc)>) -> bool {
    forall|i: int| 0 <= i < s.len() ==> rpc_sendable((#[trigger] s[i]).1)
}

/// One connection to one remote server.
pub struct Connection {
    /// The connection options.
    pub options: ConnectionOptions,
    /// The current state of the machine.
    pub state: ConnectionState,
    /// Calls awaiting transmission, keyed by their assigned call ID.
    pub send_queue: QueueMap<Rpc>,
    /// Calls on the wire awaiting their response, keyed by call ID.
    pub recv_queue: QueueMap<Rpc>,
    /// Bytes received from the socket and not yet consumed.
    pub recv_buf: Vec<u8>,
    /// Bytes to be written to the socket.
    pub write_buf: Vec<u8>,
    /// Backoff generator for reset delays.
    pub reset_backoff: Backoff,
    /// Current ceiling on the receive queue, in `[1, rpc_queue_len]`.
    pub throttle: u32,
    /// Next call ID to assign; IDs stay below `2^31`.
    pub next_call_id: u64,
    /// Call IDs whose cancellation signal has been raised.
    pub cancelled_ids: Vec<u64>,
    /// Backoff delay chosen by the most recent reset, in milliseconds.
    pub reset_timer_ms: u64,
    /// Resets that originated while connecting.
    pub connecting_errors: u64,
    /// Resets that originated while negotiating.
    pub negotiating_errors: u64,
    /// Resets that originated while connected.
    pub connected_errors: u64,
}

impl Connection {
    /// Number of queued plus in-flight calls.
    pub open spec fn spec_queue_len(self) -> int {
        self.send_queue@.len() as int + self.recv_queue@.len() as int
    }

    /// Whether this call ID's cancellation signal has been raised.
    pub open spec fn id_cancelled(self, id: u64) -> bool {
        self.cancelled_ids@.contains(id)
    }

    /// Well-formedness of the connection:
    /// the queues hold distinct, disjoint call IDs below the ID counter;
    /// queued plus in-flight calls stay within `rpc_queue_len`;
    /// the throttle stays within `[1, rpc_queue_len]`;
    /// the receive queue is empty unless the machine is connected;
    /// in-flight call IDs stay below `2^31`;
    /// no queued call has been signalled;
    /// and every queued call satisfies the size bounds.
    pub open spec fn wf(self) -> bool {
        &&& self.options.valid()
        &&& self.reset_backoff.wf()
        &&& self.reset_backoff.max_ms <= 0xffff_ffff
        &&& distinct_ids(self.send_queue@)
        &&& distinct_ids(self.recv_queue@)
        &&& no_common_ids(self.send_queue@, self.recv_queue@)
        &&& self.spec_queue_len() <= self.options.rpc_queue_len
        &&& 1 <= self.throttle <= self.options.rpc_queue_len
        &&& self.state != ConnectionState::Connected ==> self.recv_queue@.len() == 0
        &&& self.next_call_id <= 0x8000_0000
        &&& ids_below(self.send_queue@, self.next_call_id)
        &&& ids_below(self.recv_queue@, self.next_call_id)
        &&& all_pending(self.send_queue@)
        &&& all_pending(self.recv_queue@)
        &&& all_sendable(self.send_queue@)
        &&& all_sendable(self.recv_queue@)
    }

    /// The adaptive ceiling is honoured: no more in-flight calls than the
    /// throttle allows.
    pub open spec fn throttle_ok(self) -> bool {
        self.recv_queue@.len() <= self.throttle
    }

    /// Builds a connection in the `Connecting` state; the driver is
    /// expected to have started the TCP connect.
    pub fn new(options: ConnectionOptions) -> (r: Connection)
        requires
            options.valid(),
        ensures
            r.options == options,
            r.state == ConnectionState::Connecting,
            r.send_queue@.len() == 0,
            r.recv_queue@.len() == 0,
            r.recv_buf@.len() == 0,
            r.write_buf@.len() == 0,
            r.reset_backoff.current_ms == options.backoff_initial,
            r.reset_backoff.initial_ms == options.backoff_initial,
            r.reset_backoff.max_ms == options.backoff_max,
            r.throttle == options.rpc_queue_len,
            r.next_call_id == 0,
            r.cancelled_ids@.len() == 0,
            r.connecting_errors == 0,
            r.negotiating_errors == 0,
            r.connected_errors == 0,
            r.wf(),
            r.throttle_ok(),
    {
        let reset_backoff = Backoff::with_duration_range(
            options.backoff_initial,
            options.backoff_max,
        );
        let throttle = options.rpc_queue_len;
        Connection {
            options,
            state: ConnectionState::Connecting,
            send_queue: QueueMap::new(),
            recv_queue: QueueMap::new(),
            recv_buf: Vec::new(),
            write_buf: Vec::new(),
            reset_backoff,
            throttle,
            next_call_id: 0,
            cancelled_ids: Vec::new(),
            reset_timer_ms: 0,
            connecting_errors: 0,
            negotiating_errors: 0,
            connected_errors: 0,
        }
    }

    /// Halves the in-flight ceiling in response to a server-signalled
    /// memory-pressure error, never below one.
    pub fn throttle(&mut self)
        requires
            old(self).wf(),
        ensures
            final(self).wf(),
            *final(self) == (Connection { throttle: final(self).throttle, ..*old(self) }),
            final(self).throttle == if old(self).throttle / 2 >= 1 {
                old(self).throttle / 2
            } else {
                1u32
            },
            old(self).recv_queue@.len() <= final(self).throttle ==> final(self).throttle_ok(),
    {
        let capped = if self.throttle < self.options.rpc_queue_len {
            self.throttle
        } else {
            self.options.rpc_queue_len
        };
        let halved = capped / 2;
        self.throttle = if halved >= 1 {
            halved
        } else {
            1
        };
    }

    /// Raises the cancellation signal of a call. The signal is observed
    /// when the call is popped for transmission, when its response
    /// arrives, and when a reset drains the queues.
    pub fn cancel(&mut self, call_id: u64)
        requires
            old(self).wf(),
        ensures
            final(self).wf(),
            *final(self) == (Connection { cancelled_ids: final(self).cancelled_ids, ..*old(self) }),
            final(self).cancelled_ids@ == old(self).cancelled_ids@.push(call_id),
            old(self).throttle_ok() ==> final(self).throttle_ok(),
    {
        self.cancelled_ids.push(call_id);
    }

    /// Appends bytes received from the socket.
    pub fn feed(&mut self, data: &[u8])
        requires
            old(self).wf(),
        ensures
            final(self).wf(),
            *final(self) == (Connection { recv_buf: final(self).recv_buf, ..*old(self) }),
            final(self).recv_buf@ == old(self).recv_buf@ + data@,
            old(self).throttle_ok() ==> final(self).throttle_ok(),
    {
        self.recv_buf.extend_from_slice(data);
    }

    /// Discards the first `n` bytes of the write buffer after the driver
    /// has written them to the socket.
    pub fn consume_written(&mut self, n: usize)
        requires
            old(self).wf(),
            n <= old(self).write_buf@.len(),
        ensures
            final(self).wf(),
            *final(self) == (Connection { write_buf: final(self).write_buf, ..*old(self) }),
            final(self).write_buf@ == old(self).write_buf@.skip(n as int),
            old(self).throttle_ok() ==> final(self).throttle_ok(),
    {
        drain_front(&mut self.write_buf, n);
    }

    /// Number of queued plus in-flight calls.
    pub fn queue_len(&self) -> (r: usize)
        requires
            self.wf(),
        ensures
            r == self.spec_queue_len(),
    {
        self.send_queue.len() + self.recv_queue.len()
    }

    /// Leaves the `Reset` state once the driver's backoff timer has
    /// fired; the driver is expected to start a new TCP connect.
    pub fn on_reset_elapsed(&mut self)
        requires
            old(self).wf(),
            old(self).state == ConnectionState::Reset,
        ensures
            final(self).wf(),
            *final(self) == (Connection { state: ConnectionState::Connecting, ..*old(self) }),
            old(self).throttle_ok() ==> final(self).throttle_ok(),
    {
        self.state = ConnectionState::Connecting;
    }
}

/// Result of offering a call to the connection.
#[derive(Debug)]
pub enum OfferOutcome {
    /// The call was queued under this call ID.
    Queued(u64),
    /// The queue is at its ceiling; the call is handed back untouched so
    /// the caller can apply backpressure.
    Full(Rpc),
    /// The call ID counter is exhausted; the call is handed back failed
    /// with `ConnectionError`, and the caller should reset the
    /// connection.
    Exhausted(Rpc),
}

/// The seven-byte connection preamble.
pub open spec fn spec_preamble() -> Seq<u8> {
    seq![0x68u8, 0x72u8, 0x70u8, 0x63u8, 0x09u8, 0x00u8, 0x00u8]
}

/// Header of a session-negotiation frame: call ID `-33` and nothing else.
pub open spec fn spec_sasl_header_enc() -> Seq<u8> {
    spec_enc_request_header((-33i32, None, 0u32, Seq::empty()))
}

/// The SASL NEGOTIATE frame the client opens the session with.
pub open spec fn spec_negotiate_frame() -> Seq<u8> {
    spec_frame(
        spec_sasl_header_enc(),
        spec_enc_sasl((SaslState::Negotiate, Seq::empty(), Seq::empty())),
    )
}

impl Connection {
    /// Accepts a call into the send queue under the next call ID. A full
    /// queue hands the call back for backpressure; an exhausted ID
    /// counter fails it with `ConnectionError`, after which the caller
    /// should reset the connection.
    pub fn offer(&mut self, rpc: Rpc) -> (r: OfferOutcome)
        requires
            old(self).wf(),
            rpc_sendable(rpc),
            rpc.outcome is Pending,
        ensures
            final(self).wf(),
            old(self).throttle_ok() ==> final(self).throttle_ok(),
            match r {
                OfferOutcome::Queued(id) => {
                    &&& old(self).spec_queue_len() < old(self).options.rpc_queue_len
                    &&& old(self).next_call_id < 0x8000_0000
                    &&& id == old(self).next_call_id
                    &&& final(self).send_queue@ == old(self).send_queue@.push((id, rpc))
                    &&& final(self).next_call_id == old(self).next_call_id + 1
                    &&& *final(self) == (Connection {
                        send_queue: final(self).send_queue,
                        next_call_id: final(self).next_call_id,
                        ..*old(self)
                    })
                },
                OfferOutcome::Full(returned) => {
                    &&& old(self).spec_queue_len() >= old(self).options.rpc_queue_len
                    &&& returned == rpc
                    &&& *final(self) == *old(self)
                },
                OfferOutcome::Exhausted(returned) => {
                    &&& old(self).spec_queue_len() < old(self).options.rpc_queue_len
                    &&& old(self).next_call_id >= 0x8000_0000
                    &&& returned == (Rpc { outcome: RpcOutcome::Failed(Error::ConnectionError), ..rpc })
                    &&& *final(self) == *old(self)
                },
            },
    {
        let queued = self.send_queue.len() + self.recv_queue.len();
        if queued >= self.options.rpc_queue_len as usize {
            return OfferOutcome::Full(rpc);
        }
        if self.next_call_id >= 0x8000_0000 {
            let mut failed = rpc;
            failed.fail(Error::ConnectionError);
            return OfferOutcome::Exhausted(failed);
        }
        let id = self.next_call_id;
        self.next_call_id = id + 1;
        proof {
            assert(!has_id(self.send_queue@, id));
        }
        self.send_queue.insert(id, rpc);
        OfferOutcome::Queued(id)
    }

    /// Reacts to the TCP connect completing: buffers the connection
    /// preamble and the SASL NEGOTIATE frame, and starts negotiating.
    /// The driver should apply the `nodelay` option to the socket.
    pub fn on_connect_ready(&mut self)
        requires
            old(self).wf(),
            old(self).state == ConnectionState::Connecting,
        ensures
            final(self).wf(),
            old(self).throttle_ok() ==> final(self).throttle_ok(),
            *final(self) == (Connection {
                state: ConnectionState::Negotiating,
                write_buf: final(self).write_buf,
                ..*old(self)
            }),
            final(self).write_buf@ == old(self).write_buf@ + spec_preamble()
                + spec_negotiate_frame(),
    {
        let ghost orig = self.write_buf@;
        self.write_buf.push(0x68);
        self.write_buf.push(0x72);
        self.write_buf.push(0x70);
        self.write_buf.push(0x63);
        self.write_buf.push(0x09);
        self.write_buf.push(0x00);
        self.write_buf.push(0x00);
        proof {
            assert(self.write_buf@ =~= orig + spec_preamble());
        }
        let header = RequestHeader {
            call_id: -33,
            remote_method: None,
            timeout_millis: 0,
            required_feature_flags: Vec::new(),
        };
        let mut header_bytes: Vec<u8> = Vec::new();
        encode_request_header(&mut header_bytes, &header);
        proof {
            assert(header@.3 =~= Seq::<u32>::empty());
            assert(header_bytes@ == spec_sasl_header_enc());
        }
        let negotiate = SaslMessage {
            state: SaslState::Negotiate,
            token: Vec::new(),
            auths: Vec::new(),
        };
        let mut body_bytes: Vec<u8> = Vec::new();
        encode_sasl(&mut body_bytes, &negotiate);
        proof {
            assert(negotiate@.1 =~= Seq::<u8>::empty());
            assert(negotiate@.2 =~~= Seq::<Seq<u8>>::empty());
            assert(body_bytes@ == spec_enc_sasl(
                (SaslState::Negotiate, Seq::empty(), Seq::empty()),
            ));
            lemma_enc_request_header_len((-33i32, None, 0u32, Seq::empty()));
            lemma_varint_len(crate::messages::spec_wire_of_sasl_state(SaslState::Negotiate));
            lemma_varint_len(header_bytes@.len() as u64);
            lemma_varint_len(body_bytes@.len() as u64);
        }
        encode_frame(&mut self.write_buf, header_bytes.as_slice(), body_bytes.as_slice());
        self.state = ConnectionState::Negotiating;
        proof {
            assert(final(self).write_buf@ == old(self).write_buf@ + spec_preamble()
                + spec_negotiate_frame());
        }
    }
}


/// Result of one write-path step while connected.
#[derive(Debug)]
pub enum WriteOutcome {
    /// The send queue is empty.
    Idle,
    /// The write buffer is over the high-water mark; flush it first.
    BufferFull,
    /// The receive queue has reached the throttle ceiling.
    Throttled,
    /// The head call left the queue without being sent: it was cancelled
    /// or past its deadline, and has been signalled accordingly. Its
    /// call ID accompanies it.
    Failed(u64, Rpc),
    /// The head call was framed into the write buffer and moved to the
    /// receive queue under this call ID.
    Wrote(u64),
}

/// The time budget put on the wire: the time left to the deadline,
/// saturated at what the header field can carry.
pub open spec fn spec_timeout_millis(deadline: u64, now: u64) -> u32 {
    if deadline - now > u32::MAX {
        u32::MAX
    } else {
        (deadline - now) as u32
    }
}

/// The frame a call travels in: its header under the assigned call ID,
/// and its request payload as the body.
pub open spec fn spec_request_frame(id: u64, rpc: Rpc, now: u64) -> Seq<u8> {
    spec_frame(
        spec_enc_request_header(
            (
                id as i32,
                Some((rpc.service_name@, rpc.method_name@)),
                spec_timeout_millis(rpc.deadline_ms, now),
                rpc.required_feature_flags@,
            ),
        ),
        rpc.request@,
    )
}

/// Copies a vector of flags.
fn copy_u32s(v: &Vec<u32>) -> (r: Vec<u32>)
    ensures
        r@ == v@,
{
    let mut out: Vec<u32> = Vec::new();
    let n = v.len();
    let mut i: usize = 0;
    while i < n
        invariant
            n == v@.len(),
            i <= n,
            out@ =~= v@.take(i as int),
        decreases n - i,
    {
        out.push(v[i]);
        i = i + 1;
    }
    proof {
        assert(out@ =~= v@);
    }
    out
}

impl Connection {
    /// Whether the cancellation signal of this call ID has been raised.
    pub fn is_cancelled_id(&self, id: u64) -> (r: bool)
        ensures
            r == self.id_cancelled(id),
    {
        let n = self.cancelled_ids.len();
        let mut i: usize = 0;
        while i < n
            invariant
                n == self.cancelled_ids@.len(),
                i <= n,
                forall|k: int| 0 <= k < i ==> self.cancelled_ids@[k] != id,
            decreases n - i,
        {
            if self.cancelled_ids[i] == id {
                return true;
            }
            i = i + 1;
        }
        false
    }

    /// One write-path step while connected: when the write buffer is
    /// under its high-water mark and the throttle admits another
    /// in-flight call, pops the head of the send queue; a cancelled or
    /// expired call is failed and handed back, any other is framed into
    /// the write buffer and moved to the receive queue. The caller
    /// iterates until `Idle`, `BufferFull` or `Throttled`.
    pub fn poll_write(&mut self, now_ms: u64) -> (r: WriteOutcome)
        requires
            old(self).wf(),
            old(self).state == ConnectionState::Connected,
        ensures
            final(self).wf(),
            old(self).throttle_ok() ==> final(self).throttle_ok(),
            match r {
                WriteOutcome::BufferFull => old(self).write_buf@.len() > 8192 && *final(self)
                    == *old(self),
                WriteOutcome::Throttled => old(self).write_buf@.len() <= 8192 && old(
                    self,
                ).recv_queue@.len() >= old(self).throttle && *final(self) == *old(self),
                WriteOutcome::Idle => old(self).write_buf@.len() <= 8192 && old(
                    self,
                ).recv_queue@.len() < old(self).throttle && old(self).send_queue@.len() == 0
                    && *final(self) == *old(self),
                WriteOutcome::Failed(id, rpc) => {
                    &&& old(self).write_buf@.len() <= 8192
                    &&& old(self).recv_queue@.len() < old(self).throttle
                    &&& old(self).send_queue@.len() > 0
                    &&& id == old(self).send_queue@[0].0
                    &&& final(self).send_queue@ == old(self).send_queue@.drop_first()
                    &&& (old(self).id_cancelled(old(self).send_queue@[0].0) || now_ms >= old(
                        self,
                    ).send_queue@[0].1.deadline_ms)
                    &&& rpc == (Rpc { outcome: rpc.outcome, ..old(self).send_queue@[0].1 })
                    &&& rpc.outcome == if old(self).id_cancelled(old(self).send_queue@[0].0) {
                        RpcOutcome::Failed(Error::Cancelled)
                    } else {
                        RpcOutcome::Failed(Error::TimedOut)
                    }
                    &&& *final(self) == (Connection {
                        send_queue: final(self).send_queue,
                        ..*old(self)
                    })
                },
                WriteOutcome::Wrote(id) => {
                    &&& old(self).write_buf@.len() <= 8192
                    &&& old(self).recv_queue@.len() < old(self).throttle
                    &&& old(self).send_queue@.len() > 0
                    &&& id == old(self).send_queue@[0].0
                    &&& !old(self).id_cancelled(id)
                    &&& now_ms < old(self).send_queue@[0].1.deadline_ms
                    &&& final(self).send_queue@ == old(self).send_queue@.drop_first()
                    &&& final(self).recv_queue@ == old(self).recv_queue@.push(
                        old(self).send_queue@[0],
                    )
                    &&& final(self).write_buf@ == old(self).write_buf@ + spec_request_frame(
                        id,
                        old(self).send_queue@[0].1,
                        now_ms,
                    )
                    &&& final(self).throttle_ok()
                    &&& *final(self) == (Connection {
                        send_queue: final(self).send_queue,
                        recv_queue: final(self).recv_queue,
                        write_buf: final(self).write_buf,
                        ..*old(self)
                    })
                },
            },
    {
        if self.write_buf.len() > 8192 {
            return WriteOutcome::BufferFull;
        }
        if self.recv_queue.len() >= self.throttle as usize {
            return WriteOutcome::Throttled;
        }
        if self.send_queue.is_empty() {
            return WriteOutcome::Idle;
        }
        let popped = self.send_queue.pop();
        match popped {
            None => {
                proof {
                    assert(false);
                }
                WriteOutcome::Idle
            },
            Some((id, mut rpc)) => {
                if self.is_cancelled_id(id) {
                    rpc.fail(Error::Cancelled);
                    WriteOutcome::Failed(id, rpc)
                } else if rpc.timed_out(now_ms) {
                    rpc.fail(Error::TimedOut);
                    WriteOutcome::Failed(id, rpc)
                } else {
                    let service = copy_range(
                        rpc.service_name.as_slice(),
                        0,
                        rpc.service_name.len(),
                    );
                    let method = copy_range(rpc.method_name.as_slice(), 0, rpc.method_name.len());
                    let flags = copy_u32s(&rpc.required_feature_flags);
                    let remaining = rpc.deadline_ms - now_ms;
                    let timeout: u32 = if remaining > u32::MAX as u64 {
                        u32::MAX
                    } else {
                        remaining as u32
                    };
                    let header = RequestHeader {
                        call_id: id as i32,
                        remote_method: Some(
                            RemoteMethod { service_name: service, method_name: method },
                        ),
                        timeout_millis: timeout,
                        required_feature_flags: flags,
                    };
                    let mut header_bytes: Vec<u8> = Vec::new();
                    proof {
                        assert(rpc_sendable(rpc));
                        assert(header@ == (
                            id as i32,
                            Some((rpc.service_name@, rpc.method_name@)),
                            spec_timeout_millis(rpc.deadline_ms, now_ms),
                            rpc.required_feature_flags@,
                        ));
                    }
                    encode_request_header(&mut header_bytes, &header);
                    proof {
                        lemma_enc_request_header_len(header@);
                        lemma_varint_len(header_bytes@.len() as u64);
                        lemma_varint_len(rpc.request@.len() as u64);
                        assert(spec_frame_fits(header_bytes@, rpc.request@));
                    }
                    encode_frame(&mut self.write_buf, header_bytes.as_slice(), rpc.request.as_slice());
                    proof {
                        assert(!has_id(self.recv_queue@, id));
                    }
                    self.recv_queue.insert(id, rpc);
                    proof {
                        assert(final(self).recv_queue@ =~= old(self).recv_queue@.push(
                            old(self).send_queue@[0],
                        ));
                        assert forall|i: int, j: int|
                            0 <= i < self.send_queue@.len() && 0 <= j < self.recv_queue@.len()
                            implies self.send_queue@[i].0 != self.recv_queue@[j].0 by {
                            assert(self.send_queue@[i] == old(self).send_queue@[i + 1]);
                            if j < self.recv_queue@.len() - 1 {
                                assert(self.recv_queue@[j] == old(self).recv_queue@[j]);
                            }
                        }
                    }
                    WriteOutcome::Wrote(id)
                }
            },
        }
    }
}

/// Result of one read-path step while connected.
#[derive(Debug)]
pub enum ReadOutcome {
    /// No complete frame is buffered.
    NeedData,
    /// A response matched the in-flight call with this ID, which
    /// succeeded; its response slot holds the body.
    Completed(u64, Rpc),
    /// The server failed the in-flight call with this ID with a
    /// non-fatal error; the call has been signalled and the connection
    /// survives.
    RpcFailed(u64, Rpc),
    /// The frame matched no live call: no in-flight call carries its ID,
    /// or the matched call had been cancelled. A removed call is handed
    /// back unsignalled for the driver to drop.
    Discarded(Option<(u64, Rpc)>),
    /// A fatal condition: the caller must reset the connection with this
    /// error. A call removed by this frame accompanies it, signalled
    /// unless it had been cancelled.
    Fatal(Error, Option<(u64, Rpc)>),
}

/// Whether a whole admissible frame sits at the front of the buffer.
pub open spec fn spec_frame_ready(s: Seq<u8>, max: u32) -> bool {
    s.len() >= 4 && spec_frame_len(s) <= max && s.len() - 4 >= spec_frame_len(s)
}

/// The parsed header and body of the buffered frame, when one is ready
/// and well formed.
pub open spec fn spec_parsed_frame(s: Seq<u8>, max: u32) -> Option<((i32, bool, Seq<u32>), Seq<u8>)> {
    if spec_frame_ready(s, max) {
        match spec_split_payload(s.subrange(4, 4 + spec_frame_len(s))) {
            Some((h, b)) => match spec_parse_response_header(h) {
                Some(hd) => Some((hd, b)),
                None => None,
            },
            None => None,
        }
    } else {
        None
    }
}

/// Removing one entry from the receive queue keeps the remaining
/// entries' properties: disjointness from the send queue, pending
/// outcomes and bounded call IDs.
proof fn lemma_recv_remove_preserves(pre: Seq<(u64, Rpc)>, send: Seq<(u64, Rpc)>, i: int, bound: u64)
    requires
        0 <= i < pre.len(),
        no_common_ids(send, pre),
        all_pending(pre),
        all_sendable(pre),
        ids_below(pre, bound),
    ensures
        no_common_ids(send, pre.remove(i)),
        all_pending(pre.remove(i)),
        all_sendable(pre.remove(i)),
        ids_below(pre.remove(i), bound),
{
    let post = pre.remove(i);
    assert forall|a: int, b: int|
        0 <= a < send.len() && 0 <= b < post.len() implies send[a].0 != post[b].0 by {
        if b < i {
            assert(post[b] == pre[b]);
        } else {
            assert(post[b] == pre[b + 1]);
        }
    }
    assert forall|b: int| 0 <= b < post.len() implies (#[trigger] post[b]).1.outcome is Pending by {
        if b < i {
            assert(post[b] == pre[b]);
        } else {
            assert(post[b] == pre[b + 1]);
        }
    }
    assert forall|b: int| 0 <= b < post.len() implies (#[trigger] post[b]).0 < bound by {
        if b < i {
            assert(post[b] == pre[b]);
        } else {
            assert(post[b] == pre[b + 1]);
        }
    }
    assert forall|b: int| 0 <= b < post.len() implies rpc_sendable((#[trigger] post[b]).1) by {
        if b < i {
            assert(post[b] == pre[b]);
        } else {
            assert(post[b] == pre[b + 1]);
        }
    }
}

/// Whether an error value carries exactly this server status.
pub open spec fn spec_error_is_status(e: Error, es: (Seq<u8>, RpcErrorCode)) -> bool {
    match e {
        Error::Rpc { code, message, unsupported_feature_flags } => code == es.1 && message@ == es.0
            && unsupported_feature_flags@.len() == 0,
        _ => false,
    }
}

impl Connection {
    /// One read-path step while connected: interprets the frame at the
    /// front of the receive buffer, reconciles it with the in-flight
    /// call that carries its ID, and consumes the frame unless the
    /// condition is fatal (a reset clears the buffer then). The caller
    /// iterates until `NeedData` or `Fatal`.
    #[verifier::rlimit(100)]
    pub fn poll_read(&mut self) -> (r: ReadOutcome)
        requires
            old(self).wf(),
            old(self).state == ConnectionState::Connected,
        ensures
            final(self).wf(),
            old(self).throttle_ok() ==> final(self).throttle_ok(),
            match r {
                ReadOutcome::NeedData => (old(self).recv_buf@.len() < 4 || (spec_frame_len(
                    old(self).recv_buf@,
                ) <= old(self).options.max_message_length && old(self).recv_buf@.len() - 4
                    < spec_frame_len(old(self).recv_buf@))) && *final(self) == *old(self),
                ReadOutcome::Completed(id, rpc) => {
                    &&& spec_parsed_frame(old(self).recv_buf@, old(self).options.max_message_length)
                        is Some
                    &&& {
                        let ((cid, iserr, sc), b) = spec_parsed_frame(
                            old(self).recv_buf@,
                            old(self).options.max_message_length,
                        )->Some_0;
                        &&& sc.len() == 0
                        &&& !iserr
                        &&& cid >= 0
                        &&& id == cid as u64
                        &&& !old(self).id_cancelled(cid as u64)
                        &&& exists|i: int|
                            0 <= i < old(self).recv_queue@.len() && old(self).recv_queue@[i].0
                                == cid as u64 && rpc == (Rpc {
                                response: rpc.response,
                                outcome: rpc.outcome,
                                ..old(self).recv_queue@[i].1
                            }) && final(self).recv_queue@ =~= old(self).recv_queue@.remove(i)
                        &&& rpc.response@ == b
                        &&& rpc.outcome is Succeeded
                        &&& final(self).recv_buf@ == old(self).recv_buf@.skip(
                            4 + spec_frame_len(old(self).recv_buf@),
                        )
                        &&& final(self).throttle == if old(self).throttle < old(
                            self,
                        ).options.rpc_queue_len {
                            (old(self).throttle + 1) as u32
                        } else {
                            old(self).throttle
                        }
                        &&& *final(self) == (Connection {
                            recv_queue: final(self).recv_queue,
                            recv_buf: final(self).recv_buf,
                            throttle: final(self).throttle,
                            ..*old(self)
                        })
                    }
                },
                ReadOutcome::RpcFailed(id, rpc) => {
                    &&& spec_parsed_frame(old(self).recv_buf@, old(self).options.max_message_length)
                        is Some
                    &&& {
                        let ((cid, iserr, sc), b) = spec_parsed_frame(
                            old(self).recv_buf@,
                            old(self).options.max_message_length,
                        )->Some_0;
                        &&& sc.len() == 0
                        &&& iserr
                        &&& spec_parse_error_status(b) is Some
                        &&& {
                            let es = spec_parse_error_status(b)->Some_0;
                            &&& !spec_code_is_fatal(es.1)
                            &&& cid >= 0
                            &&& id == cid as u64
                            &&& !old(self).id_cancelled(cid as u64)
                            &&& exists|i: int|
                                0 <= i < old(self).recv_queue@.len() && old(self).recv_queue@[i].0
                                    == cid as u64 && rpc == (Rpc {
                                    outcome: rpc.outcome,
                                    ..old(self).recv_queue@[i].1
                                }) && final(self).recv_queue@ =~= old(self).recv_queue@.remove(i)
                            &&& match rpc.outcome {
                                RpcOutcome::Failed(e) => spec_error_is_status(e, es),
                                _ => false,
                            }
                        }
                        &&& final(self).recv_buf@ == old(self).recv_buf@.skip(
                            4 + spec_frame_len(old(self).recv_buf@),
                        )
                        &&& *final(self) == (Connection {
                            recv_queue: final(self).recv_queue,
                            recv_buf: final(self).recv_buf,
                            ..*old(self)
                        })
                    }
                },
                ReadOutcome::Discarded(opt) => {
                    &&& spec_parsed_frame(old(self).recv_buf@, old(self).options.max_message_length)
                        is Some
                    &&& {
                        let ((cid, iserr, sc), b) = spec_parsed_frame(
                            old(self).recv_buf@,
                            old(self).options.max_message_length,
                        )->Some_0;
                        &&& sc.len() == 0
                        &&& iserr ==> spec_parse_error_status(b) is Some && !spec_code_is_fatal(
                            spec_parse_error_status(b)->Some_0.1,
                        )
                        &&& final(self).recv_buf@ == old(self).recv_buf@.skip(
                            4 + spec_frame_len(old(self).recv_buf@),
                        )
                        &&& match opt {
                            Some((id, rpc)) => {
                                &&& cid >= 0
                                &&& id == cid as u64
                                &&& old(self).id_cancelled(cid as u64)
                                &&& rpc.outcome is Pending
                                &&& exists|i: int|
                                    0 <= i < old(self).recv_queue@.len() && old(
                                        self,
                                    ).recv_queue@[i].0 == cid as u64 && rpc == old(
                                        self,
                                    ).recv_queue@[i].1 && final(self).recv_queue@ =~= old(
                                        self,
                                    ).recv_queue@.remove(i)
                                &&& *final(self) == (Connection {
                                    recv_queue: final(self).recv_queue,
                                    recv_buf: final(self).recv_buf,
                                    ..*old(self)
                                })
                            },
                            None => {
                                &&& (cid < 0 || !has_id(old(self).recv_queue@, cid as u64))
                                &&& *final(self) == (Connection {
                                    recv_buf: final(self).recv_buf,
                                    ..*old(self)
                                })
                            },
                        }
                    }
                },
                ReadOutcome::Fatal(e, opt) => {
                    &&& final(self).recv_buf@ == old(self).recv_buf@
                    &&& match opt {
                        None => {
                            &&& *final(self) == *old(self)
                            &&& {
                                ||| (old(self).recv_buf@.len() >= 4 && spec_frame_len(
                                    old(self).recv_buf@,
                                ) > old(self).options.max_message_length && e
                                    == Error::InvalidRpcHeader)
                                ||| (spec_frame_ready(
                                    old(self).recv_buf@,
                                    old(self).options.max_message_length,
                                ) && spec_parsed_frame(
                                    old(self).recv_buf@,
                                    old(self).options.max_message_length,
                                ) is None && e == Error::DeserializationError)
                                ||| (spec_parsed_frame(
                                    old(self).recv_buf@,
                                    old(self).options.max_message_length,
                                ) matches Some(((_cid, _iserr, sc), _b)) && sc.len() > 0 && e
                                    == Error::InvalidRpcHeader)
                                ||| (spec_parsed_frame(
                                    old(self).recv_buf@,
                                    old(self).options.max_message_length,
                                ) matches Some(((_cid, iserr, sc), b)) && sc.len() == 0 && iserr
                                    && spec_parse_error_status(b) is None && e
                                    == Error::DeserializationError)
                                ||| (spec_parsed_frame(
                                    old(self).recv_buf@,
                                    old(self).options.max_message_length,
                                ) matches Some(((cid, iserr, sc), b)) && sc.len() == 0 && iserr
                                    && (spec_parse_error_status(b) matches Some(es)
                                    && spec_code_is_fatal(es.1) && spec_error_is_status(e, es))
                                    && (cid < 0 || !has_id(old(self).recv_queue@, cid as u64)))
                            }
                        },
                        Some((id, rpc)) => {
                            &&& spec_parsed_frame(
                                old(self).recv_buf@,
                                old(self).options.max_message_length,
                            ) is Some
                            &&& {
                                let ((cid, iserr, sc), b) = spec_parsed_frame(
                                    old(self).recv_buf@,
                                    old(self).options.max_message_length,
                                )->Some_0;
                                &&& sc.len() == 0
                                &&& iserr
                                &&& spec_parse_error_status(b) is Some
                                &&& {
                                    let es = spec_parse_error_status(b)->Some_0;
                                    &&& spec_code_is_fatal(es.1)
                                    &&& spec_error_is_status(e, es)
                                    &&& cid >= 0
                                    &&& id == cid as u64
                                    &&& exists|i: int|
                                        0 <= i < old(self).recv_queue@.len() && old(
                                            self,
                                        ).recv_queue@[i].0 == cid as u64 && rpc == (Rpc {
                                            outcome: rpc.outcome,
                                            ..old(self).recv_queue@[i].1
                                        }) && final(self).recv_queue@ =~= old(
                                            self,
                                        ).recv_queue@.remove(i)
                                    &&& if old(self).id_cancelled(cid as u64) {
                                        rpc.outcome is Pending
                                    } else {
                                        match rpc.outcome {
                                            RpcOutcome::Failed(e2) => spec_error_is_status(e2, es),
                                            _ => false,
                                        }
                                    }
                                    &&& *final(self) == (Connection {
                                        recv_queue: final(self).recv_queue,
                                        ..*old(self)
                                    })
                                }
                            }
                        },
                    }
                },
            },
    {
        let status = frame_status(&self.recv_buf, self.options.max_message_length);
        let plen: usize = match status {
            FrameStatus::Incomplete => {
                return ReadOutcome::NeedData;
            },
            FrameStatus::TooLong => {
                return ReadOutcome::Fatal(Error::InvalidRpcHeader, None);
            },
            FrameStatus::Ready(n) => n,
        };
        let split = split_payload(&self.recv_buf, plen);
        let (header_bytes, body) = match split {
            None => {
                return ReadOutcome::Fatal(Error::DeserializationError, None);
            },
            Some(p) => p,
        };
        let header = match decode_response_header(header_bytes.as_slice()) {
            None => {
                return ReadOutcome::Fatal(Error::DeserializationError, None);
            },
            Some(h) => h,
        };
        proof {
            assert(spec_frame_ready(old(self).recv_buf@, old(self).options.max_message_length));
            assert(spec_parsed_frame(old(self).recv_buf@, old(self).options.max_message_length)
                == Some((header@, body@)));
        }
        if header.sidecar_offsets.len() > 0 {
            return ReadOutcome::Fatal(Error::InvalidRpcHeader, None);
        }
        if header.is_error {
            let status_msg = match decode_error_status(body.as_slice()) {
                None => {
                    return ReadOutcome::Fatal(Error::DeserializationError, None);
                },
                Some(es) => es,
            };
            let fatal = status_msg.code.is_fatal();
            let matched = header.call_id >= 0 && self.recv_queue.contains_id(
                header.call_id as u64,
            );
            if matched {
                let rid = header.call_id as u64;
                let mut rpc = match self.recv_queue.remove(rid) {
                    Some(rpc) => rpc,
                    None => {
                        proof {
                            assert(false);
                        }
                        return ReadOutcome::Fatal(Error::DeserializationError, None);
                    },
                };
                let ghost pre_recv = old(self).recv_queue@;
                let ghost orig_rpc = rpc;
                let ghost widx = choose|i: int|
                    0 <= i < pre_recv.len() && pre_recv[i].0 == rid && orig_rpc == pre_recv[i].1
                        && self.recv_queue@ =~= pre_recv.remove(i);
                proof {
                    lemma_recv_remove_preserves(
                        pre_recv,
                        old(self).send_queue@,
                        widx,
                        old(self).next_call_id,
                    );
                }
                let cancelled = self.is_cancelled_id(rid);
                if !cancelled {
                    let msg_copy = copy_range(status_msg.message.as_slice(), 0, status_msg.message.len());
                    proof {
                        assert(msg_copy@ =~= status_msg.message@);
                    }
                    rpc.fail(
                        Error::Rpc {
                            code: status_msg.code,
                            message: msg_copy,
                            unsupported_feature_flags: Vec::new(),
                        },
                    );
                }
                if fatal {
                    let e = Error::Rpc {
                        code: status_msg.code,
                        message: status_msg.message,
                        unsupported_feature_flags: Vec::new(),
                    };
                    return ReadOutcome::Fatal(e, Some((rid, rpc)));
                }
                drain_front(&mut self.recv_buf, 4 + plen);
                if cancelled {
                    ReadOutcome::Discarded(Some((rid, rpc)))
                } else {
                    ReadOutcome::RpcFailed(rid, rpc)
                }
            } else {
                if fatal {
                    let e = Error::Rpc {
                        code: status_msg.code,
                        message: status_msg.message,
                        unsupported_feature_flags: Vec::new(),
                    };
                    return ReadOutcome::Fatal(e, None);
                }
                drain_front(&mut self.recv_buf, 4 + plen);
                ReadOutcome::Discarded(None)
            }
        } else {
            let matched = header.call_id >= 0 && self.recv_queue.contains_id(
                header.call_id as u64,
            );
            if !matched {
                drain_front(&mut self.recv_buf, 4 + plen);
                return ReadOutcome::Discarded(None);
            }
            let rid = header.call_id as u64;
            let mut rpc = match self.recv_queue.remove(rid) {
                Some(rpc) => rpc,
                None => {
                    proof {
                        assert(false);
                    }
                    return ReadOutcome::Fatal(Error::DeserializationError, None);
                },
            };
            let ghost pre_recv = old(self).recv_queue@;
            let ghost orig_rpc = rpc;
            let ghost widx = choose|i: int|
                0 <= i < pre_recv.len() && pre_recv[i].0 == rid && orig_rpc == pre_recv[i].1
                    && self.recv_queue@ =~= pre_recv.remove(i);
            proof {
                lemma_recv_remove_preserves(
                    pre_recv,
                    old(self).send_queue@,
                    widx,
                    old(self).next_call_id,
                );
            }
            drain_front(&mut self.recv_buf, 4 + plen);
            if self.is_cancelled_id(rid) {
                ReadOutcome::Discarded(Some((rid, rpc)))
            } else {
                rpc.response = body;
                rpc.complete();
                if self.throttle < self.options.rpc_queue_len {
                    self.throttle = self.throttle + 1;
                }
                ReadOutcome::Completed(rid, rpc)
            }
        }
    }
}

/// Result of one negotiation step.
#[derive(Debug)]
pub enum NegotiationOutcome {
    /// No complete frame is buffered.
    NeedData,
    /// The server offered PLAIN; the SASL INITIATE frame is buffered.
    SentInitiate,
    /// The server reported success; the connection context is buffered
    /// and the machine is connected.
    Established,
    /// Negotiation failed: the caller must reset the connection with
    /// this error.
    Fatal(Error),
}

/// The PLAIN mechanism name.
pub open spec fn spec_plain() -> Seq<u8> {
    seq![0x50u8, 0x4cu8, 0x41u8, 0x49u8, 0x4eu8]
}

/// The PLAIN initial response: a NUL, the user name, a NUL.
pub open spec fn spec_user_token() -> Seq<u8> {
    seq![0x00u8, 0x75u8, 0x73u8, 0x65u8, 0x72u8, 0x00u8]
}

/// The user name this runtime presents.
pub open spec fn spec_user() -> Seq<u8> {
    seq![0x75u8, 0x73u8, 0x65u8, 0x72u8]
}

/// The SASL INITIATE frame: PLAIN with the user token.
pub open spec fn spec_initiate_frame() -> Seq<u8> {
    spec_frame(
        spec_sasl_header_enc(),
        spec_enc_sasl((SaslState::Initiate, spec_user_token(), seq![spec_plain()])),
    )
}

/// Header of the connection context frame: call ID `-3`.
pub open spec fn spec_context_header_enc() -> Seq<u8> {
    spec_enc_request_header((-3i32, None, 0u32, Seq::empty()))
}

/// The connection context frame: both users named `user`.
pub open spec fn spec_context_frame() -> Seq<u8> {
    spec_frame(spec_context_header_enc(), spec_enc_connection_context(spec_user(), spec_user()))
}

/// Whether one of the offered mechanisms is PLAIN.
pub open spec fn spec_offers_plain(auths: Seq<Seq<u8>>) -> bool {
    exists|i: int| 0 <= i < auths.len() && auths[i] == spec_plain()
}

/// Whether a mechanism name is PLAIN.
fn is_plain(mech: &Vec<u8>) -> (r: bool)
    ensures
        r == (mech@ == spec_plain()),
{
    if mech.len() != 5 {
        proof {
            assert(mech@ != spec_plain());
        }
        return false;
    }
    let r = mech[0] == 0x50 && mech[1] == 0x4c && mech[2] == 0x41 && mech[3] == 0x49 && mech[4]
        == 0x4e;
    proof {
        if r {
            assert(mech@ =~= spec_plain());
        } else {
            assert(mech@ != spec_plain());
        }
    }
    r
}

/// Whether the offered mechanisms include PLAIN.
fn offers_plain(auths: &Vec<Vec<u8>>) -> (r: bool)
    ensures
        r == spec_offers_plain(auths.deep_view()),
{
    let n = auths.len();
    let mut i: usize = 0;
    while i < n
        invariant
            n == auths@.len(),
            i <= n,
            forall|k: int| 0 <= k < i ==> auths.deep_view()[k] != spec_plain(),
        decreases n - i,
    {
        if is_plain(&auths[i]) {
            proof {
                assert(auths.deep_view()[i as int] == auths@[i as int].deep_view());
                assert(auths@[i as int].deep_view() =~= auths@[i as int]@);
            }
            return true;
        }
        proof {
            assert(auths.deep_view()[i as int] == auths@[i as int].deep_view());
            assert(auths@[i as int].deep_view() =~= auths@[i as int]@);
        }
        i = i + 1;
    }
    false
}

impl Connection {
    /// One negotiation step: interprets the single buffered response
    /// frame. A NEGOTIATE offer with PLAIN is answered with the INITIATE
    /// frame; SUCCESS installs the connection context, resets the
    /// backoff and connects. Anything else is fatal: an oversized or
    /// malformed frame, a call ID other than `-33`, sidecars, more than
    /// one buffered response, a server error status, a missing PLAIN
    /// mechanism, or an unexpected negotiation state.
    #[verifier::rlimit(100)]
    pub fn poll_negotiating(&mut self) -> (r: NegotiationOutcome)
        requires
            old(self).wf(),
            old(self).state == ConnectionState::Negotiating,
        ensures
            final(self).wf(),
            old(self).throttle_ok() ==> final(self).throttle_ok(),
            match r {
                NegotiationOutcome::NeedData => (old(self).recv_buf@.len() < 4 || (spec_frame_len(
                    old(self).recv_buf@,
                ) <= old(self).options.max_message_length && old(self).recv_buf@.len() - 4
                    < spec_frame_len(old(self).recv_buf@))) && *final(self) == *old(self),
                NegotiationOutcome::SentInitiate => {
                    &&& spec_parsed_frame(old(self).recv_buf@, old(self).options.max_message_length)
                        is Some
                    &&& {
                        let ((cid, iserr, sc), b) = spec_parsed_frame(
                            old(self).recv_buf@,
                            old(self).options.max_message_length,
                        )->Some_0;
                        &&& cid == -33
                        &&& sc.len() == 0
                        &&& old(self).recv_buf@.len() == 4 + spec_frame_len(old(self).recv_buf@)
                        &&& !iserr
                        &&& spec_parse_sasl(b) is Some
                        &&& {
                            let (st, _tok, auths) = spec_parse_sasl(b)->Some_0;
                            st == SaslState::Negotiate && spec_offers_plain(auths)
                        }
                        &&& final(self).recv_buf@.len() == 0
                        &&& final(self).write_buf@ == old(self).write_buf@ + spec_initiate_frame()
                        &&& *final(self) == (Connection {
                            recv_buf: final(self).recv_buf,
                            write_buf: final(self).write_buf,
                            ..*old(self)
                        })
                    }
                },
                NegotiationOutcome::Established => {
                    &&& spec_parsed_frame(old(self).recv_buf@, old(self).options.max_message_length)
                        is Some
                    &&& {
                        let ((cid, iserr, sc), b) = spec_parsed_frame(
                            old(self).recv_buf@,
                            old(self).options.max_message_length,
                        )->Some_0;
                        &&& cid == -33
                        &&& sc.len() == 0
                        &&& old(self).recv_buf@.len() == 4 + spec_frame_len(old(self).recv_buf@)
                        &&& !iserr
                        &&& spec_parse_sasl(b) is Some
                        &&& spec_parse_sasl(b)->Some_0.0 == SaslState::Success
                        &&& final(self).recv_buf@.len() == 0
                        &&& final(self).write_buf@ == old(self).write_buf@ + spec_context_frame()
                        &&& final(self).state == ConnectionState::Connected
                        &&& final(self).reset_backoff == (Backoff {
                            current_ms: old(self).reset_backoff.initial_ms,
                            ..old(self).reset_backoff
                        })
                        &&& *final(self) == (Connection {
                            recv_buf: final(self).recv_buf,
                            write_buf: final(self).write_buf,
                            state: ConnectionState::Connected,
                            reset_backoff: final(self).reset_backoff,
                            ..*old(self)
                        })
                    }
                },
                NegotiationOutcome::Fatal(e) => {
                    &&& *final(self) == *old(self)
                    &&& {
                        let parsed = spec_parsed_frame(
                            old(self).recv_buf@,
                            old(self).options.max_message_length,
                        );
                        ||| (old(self).recv_buf@.len() >= 4 && spec_frame_len(old(self).recv_buf@)
                            > old(self).options.max_message_length && e == Error::InvalidRpcHeader)
                        ||| (spec_frame_ready(
                            old(self).recv_buf@,
                            old(self).options.max_message_length,
                        ) && parsed is None && e == Error::DeserializationError)
                        ||| (parsed matches Some(((cid, _iserr, _sc), _b)) && cid != -33 && e
                            == Error::InvalidRpcHeader)
                        ||| (parsed matches Some(((cid, _iserr, sc), _b)) && cid == -33 && sc.len()
                            > 0 && e == Error::InvalidRpcHeader)
                        ||| (parsed matches Some(((cid, _iserr, sc), _b)) && cid == -33 && sc.len()
                            == 0 && old(self).recv_buf@.len() != 4 + spec_frame_len(
                            old(self).recv_buf@,
                        ) && e == Error::NegotiationError)
                        ||| (parsed matches Some(((cid, iserr, sc), b)) && cid == -33 && sc.len()
                            == 0 && iserr && spec_parse_error_status(b) is None && e
                            == Error::DeserializationError)
                        ||| (parsed matches Some(((cid, iserr, sc), b)) && cid == -33 && sc.len()
                            == 0 && iserr && (spec_parse_error_status(b) matches Some(es)
                            && spec_error_is_status(e, es)))
                        ||| (parsed matches Some(((cid, iserr, sc), b)) && cid == -33 && sc.len()
                            == 0 && !iserr && spec_parse_sasl(b) is None && e
                            == Error::DeserializationError)
                        ||| (parsed matches Some(((cid, iserr, sc), b)) && cid == -33 && sc.len()
                            == 0 && !iserr && (spec_parse_sasl(b) matches Some((st, _tok, auths))
                            && st == SaslState::Negotiate && !spec_offers_plain(auths)) && e
                            == Error::NegotiationError)
                        ||| (parsed matches Some(((cid, iserr, sc), b)) && cid == -33 && sc.len()
                            == 0 && !iserr && (spec_parse_sasl(b) matches Some((st, _tok, _auths))
                            && st != SaslState::Negotiate && st != SaslState::Success) && e
                            == Error::NegotiationError)
                    }
                },
            },
    {
        let buf_len = self.recv_buf.len();
        let status = frame_status(&self.recv_buf, self.options.max_message_length);
        let plen: usize = match status {
            FrameStatus::Incomplete => {
                return NegotiationOutcome::NeedData;
            },
            FrameStatus::TooLong => {
                return NegotiationOutcome::Fatal(Error::InvalidRpcHeader);
            },
            FrameStatus::Ready(n) => n,
        };
        let split = split_payload(&self.recv_buf, plen);
        let (header_bytes, body) = match split {
            None => {
                return NegotiationOutcome::Fatal(Error::DeserializationError);
            },
            Some(p) => p,
        };
        let header = match decode_response_header(header_bytes.as_slice()) {
            None => {
                return NegotiationOutcome::Fatal(Error::DeserializationError);
            },
            Some(h) => h,
        };
        proof {
            assert(spec_frame_ready(old(self).recv_buf@, old(self).options.max_message_length));
            assert(spec_parsed_frame(old(self).recv_buf@, old(self).options.max_message_length)
                == Some((header@, body@)));
        }
        if header.call_id != -33 {
            return NegotiationOutcome::Fatal(Error::InvalidRpcHeader);
        }
        if header.sidecar_offsets.len() > 0 {
            return NegotiationOutcome::Fatal(Error::InvalidRpcHeader);
        }
        if buf_len != 4 + plen {
            return NegotiationOutcome::Fatal(Error::NegotiationError);
        }
        if header.is_error {
            let status_msg = match decode_error_status(body.as_slice()) {
                None => {
                    return NegotiationOutcome::Fatal(Error::DeserializationError);
                },
                Some(es) => es,
            };
            return NegotiationOutcome::Fatal(
                Error::Rpc {
                    code: status_msg.code,
                    message: status_msg.message,
                    unsupported_feature_flags: Vec::new(),
                },
            );
        }
        let sasl = match decode_sasl(body.as_slice()) {
            None => {
                return NegotiationOutcome::Fatal(Error::DeserializationError);
            },
            Some(m) => m,
        };
        match sasl.state {
            SaslState::Negotiate => {
                if !offers_plain(&sasl.auths) {
                    return NegotiationOutcome::Fatal(Error::NegotiationError);
                }
                drain_front(&mut self.recv_buf, 4 + plen);
                let header_out = RequestHeader {
                    call_id: -33,
                    remote_method: None,
                    timeout_millis: 0,
                    required_feature_flags: Vec::new(),
                };
                let mut header_enc: Vec<u8> = Vec::new();
                encode_request_header(&mut header_enc, &header_out);
                proof {
                    assert(header_out@.3 =~= Seq::<u32>::empty());
                    assert(header_enc@ == spec_sasl_header_enc());
                }
                let mut token: Vec<u8> = Vec::new();
                token.push(0x00);
                token.push(0x75);
                token.push(0x73);
                token.push(0x65);
                token.push(0x72);
                token.push(0x00);
                let mut plain: Vec<u8> = Vec::new();
                plain.push(0x50);
                plain.push(0x4c);
                plain.push(0x41);
                plain.push(0x49);
                plain.push(0x4e);
                let mut auths_out: Vec<Vec<u8>> = Vec::new();
                proof {
                    assert(token@ =~= spec_user_token());
                    assert(plain@ =~= spec_plain());
                }
                auths_out.push(plain);
                let initiate = SaslMessage {
                    state: SaslState::Initiate,
                    token,
                    auths: auths_out,
                };
                let mut body_enc: Vec<u8> = Vec::new();
                proof {
                    assert(initiate.auths.deep_view() =~~= seq![spec_plain()]);
                    assert(initiate@ == (
                        SaslState::Initiate,
                        spec_user_token(),
                        seq![spec_plain()],
                    ));
                }
                encode_sasl(&mut body_enc, &initiate);
                proof {
                    lemma_enc_request_header_len((-33i32, None, 0u32, Seq::empty()));
                    lemma_varint_len(crate::messages::spec_wire_of_sasl_state(SaslState::Initiate));
                    lemma_varint_len(spec_user_token().len() as u64);
                    lemma_varint_len(spec_plain().len() as u64);
                    lemma_varint_len(
                        crate::codec::spec_field_bytes(
                            crate::messages::TAG_AUTH_MECHANISM,
                            spec_plain(),
                        ).len() as u64,
                    );
                    assert(seq![spec_plain()].drop_first() =~~= Seq::<Seq<u8>>::empty());
                    assert(crate::messages::spec_enc_auth_list(seq![spec_plain()])
                        == crate::messages::spec_enc_auth(spec_plain()) + crate::messages::spec_enc_auth_list(
                        Seq::<Seq<u8>>::empty(),
                    ));
                    assert(crate::messages::spec_enc_auth_list(seq![spec_plain()]).len() <= 40);
                    lemma_varint_len(header_enc@.len() as u64);
                    lemma_varint_len(body_enc@.len() as u64);
                    assert(spec_frame_fits(header_enc@, body_enc@));
                }
                encode_frame(&mut self.write_buf, header_enc.as_slice(), body_enc.as_slice());
                NegotiationOutcome::SentInitiate
            },
            SaslState::Success => {
                drain_front(&mut self.recv_buf, 4 + plen);
                self.reset_backoff.reset();
                let header_out = RequestHeader {
                    call_id: -3,
                    remote_method: None,
                    timeout_millis: 0,
                    required_feature_flags: Vec::new(),
                };
                let mut header_enc: Vec<u8> = Vec::new();
                encode_request_header(&mut header_enc, &header_out);
                proof {
                    assert(header_out@.3 =~= Seq::<u32>::empty());
                    assert(header_enc@ == spec_context_header_enc());
                }
                let mut user: Vec<u8> = Vec::new();
                user.push(0x75);
                user.push(0x73);
                user.push(0x65);
                user.push(0x72);
                proof {
                    assert(user@ =~= spec_user());
                }
                let mut body_enc: Vec<u8> = Vec::new();
                encode_connection_context(&mut body_enc, user.as_slice(), user.as_slice());
                proof {
                    lemma_enc_request_header_len((-3i32, None, 0u32, Seq::empty()));
                    lemma_varint_len(spec_user().len() as u64);
                    lemma_varint_len(
                        (crate::codec::spec_field_bytes(
                            crate::messages::TAG_USER_EFFECTIVE,
                            spec_user(),
                        ) + crate::codec::spec_field_bytes(
                            crate::messages::TAG_USER_REAL,
                            spec_user(),
                        )).len() as u64,
                    );
                    lemma_varint_len(header_enc@.len() as u64);
                    lemma_varint_len(body_enc@.len() as u64);
                    assert(spec_frame_fits(header_enc@, body_enc@));
                }
                encode_frame(&mut self.write_buf, header_enc.as_slice(), body_enc.as_slice());
                self.state = ConnectionState::Connected;
                NegotiationOutcome::Established
            },
            _ => NegotiationOutcome::Fatal(Error::NegotiationError),
        }
    }
}

/// Saturating increment of an error counter.
pub open spec fn spec_inc(c: u64) -> u64 {
    if c < 0xffff_ffff_ffff_ffff {
        (c + 1) as u64
    } else {
        c
    }
}

/// Increments an error counter, saturating at its maximum.
fn sat_inc(c: u64) -> (r: u64)
    ensures
        r == spec_inc(c),
{
    if c < u64::MAX {
        c + 1
    } else {
        c
    }
}

/// Whether a drained call is retained for retry at a reset: its
/// cancellation signal is down, its deadline has not passed, and it is
/// not fail-fast.
pub open spec fn spec_entry_retained(e: (u64, Rpc), cancelled: Seq<u64>, now: u64) -> bool {
    !cancelled.contains(e.0) && now < e.1.deadline_ms && !e.1.fail_fast
}

/// Whether a drained call is failed at a reset: its cancellation signal
/// is down but its deadline has passed or it is fail-fast. (A cancelled
/// call is dropped silently.)
pub open spec fn spec_entry_failed(e: (u64, Rpc), cancelled: Seq<u64>, now: u64) -> bool {
    !cancelled.contains(e.0) && (now >= e.1.deadline_ms || e.1.fail_fast)
}

/// The entries a reset retains, in their drain order.
pub open spec fn spec_retained(s: Seq<(u64, Rpc)>, cancelled: Seq<u64>, now: u64) -> Seq<(u64, Rpc)>
    decreases s.len(),
{
    if s.len() == 0 {
        s
    } else {
        let tail = spec_retained(s.drop_first(), cancelled, now);
        if spec_entry_retained(s[0], cancelled, now) {
            seq![s[0]] + tail
        } else {
            tail
        }
    }
}

/// The calls a reset fails, with their call IDs, in their drain order.
pub open spec fn spec_failed_rpcs(s: Seq<(u64, Rpc)>, cancelled: Seq<u64>, now: u64) -> Seq<
    (u64, Rpc),
>
    decreases s.len(),
{
    if s.len() == 0 {
        Seq::empty()
    } else {
        let tail = spec_failed_rpcs(s.drop_first(), cancelled, now);
        if spec_entry_failed(s[0], cancelled, now) {
            seq![s[0]] + tail
        } else {
            tail
        }
    }
}

/// Appending one entry to the drain appends to the retained entries.
proof fn lemma_retained_snoc(s: Seq<(u64, Rpc)>, e: (u64, Rpc), cancelled: Seq<u64>, now: u64)
    ensures
        spec_retained(s.push(e), cancelled, now) =~= spec_retained(s, cancelled, now) + (
        if spec_entry_retained(e, cancelled, now) {
            seq![e]
        } else {
            Seq::empty()
        }),
    decreases s.len(),
{
    if s.len() == 0 {
        assert(s.push(e).drop_first() =~= s);
    } else {
        assert(s.push(e).drop_first() =~= s.drop_first().push(e));
        lemma_retained_snoc(s.drop_first(), e, cancelled, now);
    }
}

/// Appending one entry to the drain appends to the failed calls.
proof fn lemma_failed_snoc(s: Seq<(u64, Rpc)>, e: (u64, Rpc), cancelled: Seq<u64>, now: u64)
    ensures
        spec_failed_rpcs(s.push(e), cancelled, now) =~= spec_failed_rpcs(s, cancelled, now) + (
        if spec_entry_failed(e, cancelled, now) {
            seq![e]
        } else {
            Seq::empty()
        }),
    decreases s.len(),
{
    if s.len() == 0 {
        assert(s.push(e).drop_first() =~= s);
    } else {
        assert(s.push(e).drop_first() =~= s.drop_first().push(e));
        lemma_failed_snoc(s.drop_first(), e, cancelled, now);
    }
}

/// No retained entry is fail-fast: a fail-fast call never survives a
/// reset, so at most one reset elapses between its submission and its
/// completion.
pub proof fn lemma_retained_not_fail_fast(s: Seq<(u64, Rpc)>, cancelled: Seq<u64>, now: u64)
    ensures
        forall|j: int|
            0 <= j < spec_retained(s, cancelled, now).len() ==> !(#[trigger] spec_retained(
                s,
                cancelled,
                now,
            )[j]).1.fail_fast,
    decreases s.len(),
{
    if s.len() > 0 {
        lemma_retained_not_fail_fast(s.drop_first(), cancelled, now);
    }
}

impl Connection {
    /// Resets the connection after a fatal error: charges the error to
    /// the state it arose in, draws the next backoff delay (the driver
    /// arms a timer with it), clears both byte buffers, and drains both
    /// queues in insertion order — receive queue first. Cancelled calls
    /// are dropped silently; calls past their deadline are failed with
    /// `TimedOut`; fail-fast calls are failed with a copy of the
    /// triggering error; the rest are requeued for retry under their
    /// original call IDs and order. The failed calls are returned for
    /// the driver to deliver.
    #[verifier::rlimit(100)]
    pub fn reset(&mut self, error: Error, now_ms: u64) -> (r: Vec<(u64, Rpc)>)
        requires
            old(self).wf(),
        ensures
            final(self).wf(),
            final(self).throttle_ok(),
            final(self).state == ConnectionState::Reset,
            final(self).recv_buf@.len() == 0,
            final(self).write_buf@.len() == 0,
            final(self).recv_queue@.len() == 0,
            final(self).cancelled_ids@.len() == 0,
            final(self).send_queue@ =~= spec_retained(
                old(self).recv_queue@ + old(self).send_queue@,
                old(self).cancelled_ids@,
                now_ms,
            ),
            forall|j: int|
                0 <= j < final(self).send_queue@.len()
                    ==> !(#[trigger] final(self).send_queue@[j]).1.fail_fast,
            next_step(old(self).reset_backoff, final(self).reset_timer_ms, final(self).reset_backoff),
            final(self).throttle == old(self).throttle,
            final(self).next_call_id == old(self).next_call_id,
            final(self).options == old(self).options,
            final(self).connecting_errors == if old(self).state == ConnectionState::Connecting {
                spec_inc(old(self).connecting_errors)
            } else {
                old(self).connecting_errors
            },
            final(self).negotiating_errors == if old(self).state == ConnectionState::Negotiating {
                spec_inc(old(self).negotiating_errors)
            } else {
                old(self).negotiating_errors
            },
            final(self).connected_errors == if old(self).state == ConnectionState::Connected {
                spec_inc(old(self).connected_errors)
            } else {
                old(self).connected_errors
            },
            r@.len() == spec_failed_rpcs(
                old(self).recv_queue@ + old(self).send_queue@,
                old(self).cancelled_ids@,
                now_ms,
            ).len(),
            forall|i: int|
                0 <= i < r@.len() ==> {
                    let m = spec_failed_rpcs(
                        old(self).recv_queue@ + old(self).send_queue@,
                        old(self).cancelled_ids@,
                        now_ms,
                    )[i];
                    &&& (#[trigger] r@[i]).0 == m.0
                    &&& r@[i].1 == (Rpc { outcome: r@[i].1.outcome, ..m.1 })
                    &&& match r@[i].1.outcome {
                        RpcOutcome::Failed(e) => if now_ms >= m.1.deadline_ms {
                            e == Error::TimedOut
                        } else {
                            spec_error_eq(e, error)
                        },
                        _ => false,
                    }
                },
    {
        match self.state {
            ConnectionState::Connecting => {
                self.connecting_errors = sat_inc(self.connecting_errors);
            },
            ConnectionState::Negotiating => {
                self.negotiating_errors = sat_inc(self.negotiating_errors);
            },
            ConnectionState::Connected => {
                self.connected_errors = sat_inc(self.connected_errors);
            },
            ConnectionState::Reset => {},
        }
        self.state = ConnectionState::Reset;
        let ms = self.reset_backoff.next_backoff_ms();
        self.reset_timer_ms = ms;
        self.recv_buf.clear();
        self.write_buf.clear();
        let mut all = self.recv_queue.drain();
        let mut from_send = self.send_queue.drain();
        all.append(&mut from_send);
        let ghost comb = old(self).recv_queue@ + old(self).send_queue@;
        let ghost cset = old(self).cancelled_ids@;
        proof {
            assert(all@ =~= comb);
            assert(distinct_ids(comb)) by {
                assert forall|a: int, b: int| 0 <= a < b < comb.len() implies comb[a].0 != comb[b].0 by {
                    let rl = old(self).recv_queue@.len() as int;
                    if b < rl {
                        assert(comb[a] == old(self).recv_queue@[a]);
                        assert(comb[b] == old(self).recv_queue@[b]);
                    } else if a >= rl {
                        assert(comb[a] == old(self).send_queue@[a - rl]);
                        assert(comb[b] == old(self).send_queue@[b - rl]);
                    } else {
                        assert(comb[a] == old(self).recv_queue@[a]);
                        assert(comb[b] == old(self).send_queue@[b - rl]);
                    }
                }
            }
            assert(all_pending(comb) && all_sendable(comb) && ids_below(comb, old(self).next_call_id))
                by {
                assert forall|a: int|
                    0 <= a < comb.len() implies ((#[trigger] comb[a]).1.outcome is Pending
                    && rpc_sendable(comb[a].1) && comb[a].0 < old(self).next_call_id) by {
                    let rl = old(self).recv_queue@.len() as int;
                    if a < rl {
                        assert(comb[a] == old(self).recv_queue@[a]);
                    } else {
                        assert(comb[a] == old(self).send_queue@[a - rl]);
                    }
                }
            }
        }
        let mut failed: Vec<(u64, Rpc)> = Vec::new();
        let ghost bo = self.reset_backoff;
        let ghost c1 = self.connecting_errors;
        let ghost c2 = self.negotiating_errors;
        let ghost c3 = self.connected_errors;
        let mut k: usize = 0;
        let n = all.len();
        while k < n
            invariant
                old(self).wf(),
                self.options == old(self).options,
                self.options.valid(),
                self.state == ConnectionState::Reset,
                self.recv_queue@.len() == 0,
                self.recv_buf@.len() == 0,
                self.write_buf@.len() == 0,
                self.throttle == old(self).throttle,
                1 <= self.throttle <= self.options.rpc_queue_len,
                self.next_call_id == old(self).next_call_id,
                self.next_call_id <= 0x8000_0000,
                self.reset_backoff == bo,
                self.reset_backoff.wf(),
                self.reset_backoff.max_ms <= 0xffff_ffff,
                self.reset_timer_ms == ms,
                self.connecting_errors == c1,
                self.negotiating_errors == c2,
                self.connected_errors == c3,
                n == comb.len(),
                n <= old(self).options.rpc_queue_len,
                k <= n,
                all@ =~= comb.skip(k as int),
                distinct_ids(comb),
                all_pending(comb),
                all_sendable(comb),
                ids_below(comb, self.next_call_id),
                self.cancelled_ids@ == cset,
                self.send_queue@ =~= spec_retained(comb.take(k as int), cset, now_ms),
                self.send_queue@.len() <= k,
                distinct_ids(self.send_queue@),
                forall|j: int|
                    0 <= j < self.send_queue@.len() ==> exists|a: int|
                        0 <= a < k && #[trigger] self.send_queue@[j] == comb[a],
                failed@.len() == spec_failed_rpcs(comb.take(k as int), cset, now_ms).len(),
                forall|i: int|
                    0 <= i < failed@.len() ==> {
                        let m = spec_failed_rpcs(comb.take(k as int), cset, now_ms)[i];
                        &&& (#[trigger] failed@[i]).0 == m.0
                        &&& failed@[i].1 == (Rpc { outcome: failed@[i].1.outcome, ..m.1 })
                        &&& match failed@[i].1.outcome {
                            RpcOutcome::Failed(e) => if now_ms >= m.1.deadline_ms {
                                e == Error::TimedOut
                            } else {
                                spec_error_eq(e, error)
                            },
                            _ => false,
                        }
                    },
            decreases n - k,
        {
            let (id, mut rpc) = all.remove(0);
            proof {
                assert(comb.skip(k as int)[0] == comb[k as int]);
                assert(all@ =~= comb.skip(k as int + 1));
                assert(comb.skip(k as int).drop_first() =~= comb.skip(k as int + 1));
            }
            let ghost entry = comb[k as int];
            let cancelled = self.is_cancelled_id(id);
            if cancelled {
                proof {
                    assert(!spec_entry_retained(entry, cset, now_ms));
                    assert(!spec_entry_failed(entry, cset, now_ms));
                }
            } else if rpc.timed_out(now_ms) {
                rpc.fail(Error::TimedOut);
                failed.push((id, rpc));
            } else if rpc.fail_fast {
                let e = clone_error(&error);
                rpc.fail(e);
                failed.push((id, rpc));
            } else {
                proof {
                    assert(!has_id(self.send_queue@, id)) by {
                        if has_id(self.send_queue@, id) {
                            let j = choose|j: int|
                                0 <= j < self.send_queue@.len() && self.send_queue@[j].0 == id;
                            let a = choose|a: int|
                                0 <= a < k && self.send_queue@[j] == comb[a];
                            assert(comb[a].0 == comb[k as int].0);
                        }
                    }
                }
                self.send_queue.insert(id, rpc);
            }
            proof {
                lemma_retained_snoc(comb.take(k as int), entry, cset, now_ms);
                lemma_failed_snoc(comb.take(k as int), entry, cset, now_ms);
                assert(comb.take(k as int).push(entry) =~= comb.take(k as int + 1));
            }
            k = k + 1;
        }
        proof {
            assert(comb.take(n as int) =~= comb);
            lemma_retained_not_fail_fast(comb, cset, now_ms);
            assert forall|j: int|
                0 <= j < self.send_queue@.len() implies ((#[trigger] self.send_queue@[j]).1.outcome
                is Pending && rpc_sendable(self.send_queue@[j].1) && self.send_queue@[j].0
                < self.next_call_id) by {
                let a = choose|a: int| 0 <= a < n && self.send_queue@[j] == comb[a];
                assert(comb[a].1.outcome is Pending);
                assert(rpc_sendable(comb[a].1));
            }
        }
        self.cancelled_ids.clear();
        failed
    }
}

/// Framing round trip: a frame built from any header bytes and body,
/// followed by anything else, reads back as complete and splits into
/// exactly that header and body.
pub proof fn lemma_frame_roundtrip(h: Seq<u8>, b: Seq<u8>, rest: Seq<u8>, max: u32)
    requires
        spec_frame_fits(h, b),
        crate::framing::spec_frame_payload(h, b).len() <= max,
        h.len() <= u32::MAX,
        b.len() <= u32::MAX,
    ensures
        spec_frame_ready(spec_frame(h, b) + rest, max),
        spec_frame_len(spec_frame(h, b) + rest) == crate::framing::spec_frame_payload(h, b).len(),
        spec_split_payload(
            (spec_frame(h, b) + rest).subrange(
                4,
                4 + spec_frame_len(spec_frame(h, b) + rest),
            ),
        ) == Some((h, b)),
{
    let p = crate::framing::spec_frame_payload(h, b);
    let s = spec_frame(h, b) + rest;
    crate::framing::lemma_frame_shape(h, b, rest);
    assert(s.subrange(4, 4 + p.len() as int) =~= p) by {
        assert(s.skip(4) =~= p + rest);
    }
    crate::framing::lemma_split_payload_roundtrip(h, b);
}

/// Round trip of a whole response frame: framing a response header and a
/// body and handing the bytes to the read path's parser yields exactly
/// that header and body.
pub proof fn lemma_response_frame_roundtrip(
    hd: (i32, bool, Seq<u32>),
    b: Seq<u8>,
    rest: Seq<u8>,
    max: u32,
)
    requires
        spec_frame_fits(crate::messages::spec_enc_response_header(hd), b),
        crate::framing::spec_frame_payload(
            crate::messages::spec_enc_response_header(hd),
            b,
        ).len() <= max,
        crate::messages::spec_enc_response_header(hd).len() <= u32::MAX,
        b.len() <= u32::MAX,
    ensures
        spec_parsed_frame(
            spec_frame(crate::messages::spec_enc_response_header(hd), b) + rest,
            max,
        ) == Some((hd, b)),
{
    let h = crate::messages::spec_enc_response_header(hd);
    lemma_frame_roundtrip(h, b, rest, max);
    crate::messages::lemma_parse_response_header_roundtrip(hd);
}

/// The connection invariants, as one statement: queued plus in-flight
/// calls stay within `rpc_queue_len`; the in-flight count stays within
/// the throttle, which stays within `[1, rpc_queue_len]`; the receive
/// queue is empty unless the machine is connected; and in-flight call
/// IDs are pairwise distinct and below `2^31`. Every operation of the
/// connection preserves `wf`, and all but `throttle` preserve
/// `throttle_ok`, so these hold after every state transition and queue
/// operation.
pub proof fn lemma_connection_invariants(c: Connection)
    requires
        c.wf(),
        c.throttle_ok(),
    ensures
        c.spec_queue_len() <= c.options.rpc_queue_len,
        c.recv_queue@.len() <= c.throttle,
        1 <= c.throttle <= c.options.rpc_queue_len,
        c.state != ConnectionState::Connected ==> c.recv_queue@.len() == 0,
        distinct_ids(c.recv_queue@),
        forall|i: int| 0 <= i < c.recv_queue@.len() ==> (#[trigger] c.recv_queue@[i]).0 < 0x8000_0000,
{
}

} // verus!
