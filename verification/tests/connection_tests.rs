use krpc::connection::NegotiationOutcome;
use krpc::connection::OfferOutcome;
use krpc::connection::ReadOutcome;
use krpc::connection::WriteOutcome;
use krpc::framing::encode_frame;
use krpc::framing::frame_status;
use krpc::framing::split_payload;
use krpc::framing::FrameStatus;
use krpc::messages::decode_request_header;
use krpc::messages::encode_error_status;
use krpc::messages::encode_response_header;
use krpc::messages::encode_sasl;
use krpc::messages::ErrorStatus;
use krpc::messages::ResponseHeader;
use krpc::messages::SaslMessage;
use krpc::messages::SaslState;
use krpc::rpc::Rpc;
use krpc::rpc::RpcOutcome;
use krpc::Connection;
use krpc::ConnectionOptions;
use krpc::ConnectionState;
use krpc::Error;
use krpc::RpcErrorCode;

fn response_frame(call_id: i32, is_error: bool, body: &[u8]) -> Vec<u8> {
    let header = ResponseHeader { call_id, is_error, sidecar_offsets: Vec::new() };
    let mut header_bytes = Vec::new();
    encode_response_header(&mut header_bytes, &header);
    let mut out = Vec::new();
    encode_frame(&mut out, &header_bytes, body);
    out
}

fn sasl_frame(state: SaslState, auths: Vec<Vec<u8>>) -> Vec<u8> {
    let msg = SaslMessage { state, token: Vec::new(), auths };
    let mut body = Vec::new();
    encode_sasl(&mut body, &msg);
    response_frame(-33, false, &body)
}

fn error_status_body(code: RpcErrorCode, message: &[u8]) -> Vec<u8> {
    let status = ErrorStatus { message: message.to_vec(), code };
    let mut body = Vec::new();
    encode_error_status(&mut body, &status);
    body
}

fn establish(conn: &mut Connection) {
    conn.on_connect_ready();
    assert_eq!(conn.state, ConnectionState::Negotiating);
    conn.feed(&sasl_frame(SaslState::Negotiate, vec![b"PLAIN".to_vec()]));
    assert!(matches!(conn.poll_negotiating(), NegotiationOutcome::SentInitiate));
    conn.feed(&sasl_frame(SaslState::Success, Vec::new()));
    assert!(matches!(conn.poll_negotiating(), NegotiationOutcome::Established));
    assert_eq!(conn.state, ConnectionState::Connected);
    let pending = conn.write_buf.len();
    conn.consume_written(pending);
}

fn ping_rpc(deadline_ms: u64, request: Vec<u8>, fail_fast: bool) -> Rpc {
    Rpc::new(
        b"kudu.master.MasterService".to_vec(),
        b"Ping".to_vec(),
        deadline_ms,
        request,
        fail_fast,
    )
}

fn offer_ok(conn: &mut Connection, rpc: Rpc) -> u64 {
    match conn.offer(rpc) {
        OfferOutcome::Queued(id) => id,
        other => panic!("expected the call to be queued, got {:?}", other),
    }
}

#[test]
fn happy_path_ping() {
    let mut conn = Connection::new(ConnectionOptions::default());
    assert_eq!(conn.state, ConnectionState::Connecting);
    conn.on_connect_ready();
    // The preamble goes out first, byte for byte.
    assert_eq!(&conn.write_buf[0..7], &[0x68, 0x72, 0x70, 0x63, 0x09, 0x00, 0x00]);
    // Then the SASL NEGOTIATE frame under call ID -33.
    let after_preamble = conn.write_buf[7..].to_vec();
    let plen = match frame_status(&after_preamble, 5 * 1024 * 1024) {
        FrameStatus::Ready(n) => n,
        other => panic!("expected a buffered frame, got {:?}", other),
    };
    let (neg_header, _) = split_payload(&after_preamble, plen).expect("splits");
    assert_eq!(decode_request_header(&neg_header).expect("decodes").call_id, -33);

    conn.feed(&sasl_frame(SaslState::Negotiate, vec![b"PLAIN".to_vec()]));
    assert!(matches!(conn.poll_negotiating(), NegotiationOutcome::SentInitiate));
    conn.feed(&sasl_frame(SaslState::Success, Vec::new()));
    assert!(matches!(conn.poll_negotiating(), NegotiationOutcome::Established));
    assert_eq!(conn.state, ConnectionState::Connected);
    let pending = conn.write_buf.len();
    conn.consume_written(pending);

    let id = offer_ok(&mut conn, ping_rpc(5000, Vec::new(), true));
    assert_eq!(id, 0);
    match conn.poll_write(0) {
        WriteOutcome::Wrote(wrote) => assert_eq!(wrote, 0),
        other => panic!("expected the call to be framed, got {:?}", other),
    }
    // The framed request names the call: ID 0, service, method, deadline.
    let plen = match frame_status(&conn.write_buf, 5 * 1024 * 1024) {
        FrameStatus::Ready(n) => n,
        other => panic!("expected a buffered frame, got {:?}", other),
    };
    let (req_header, body) = split_payload(&conn.write_buf, plen).expect("splits");
    let header = decode_request_header(&req_header).expect("decodes");
    assert_eq!(header.call_id, 0);
    let rm = header.remote_method.expect("remote method present");
    assert_eq!(rm.service_name, b"kudu.master.MasterService".to_vec());
    assert_eq!(rm.method_name, b"Ping".to_vec());
    assert_eq!(header.timeout_millis, 5000);
    assert!(body.is_empty());

    conn.feed(&response_frame(0, false, b"pong"));
    match conn.poll_read() {
        ReadOutcome::Completed(id, rpc) => {
            assert_eq!(id, 0);
            assert_eq!(rpc.outcome, RpcOutcome::Succeeded);
            assert_eq!(rpc.response, b"pong".to_vec());
        },
        other => panic!("expected a completion, got {:?}", other),
    }
    assert_eq!(conn.recv_queue.len(), 0);
}

#[test]
fn out_of_order_responses() {
    let mut conn = Connection::new(ConnectionOptions::default());
    establish(&mut conn);
    for i in 0..3u8 {
        let id = offer_ok(&mut conn, ping_rpc(5000, vec![i], false));
        assert_eq!(id, i as u64);
        assert!(matches!(conn.poll_write(0), WriteOutcome::Wrote(_)));
    }
    assert!(matches!(conn.poll_write(0), WriteOutcome::Idle));
    for (call_id, payload) in [(2, vec![102u8]), (0, vec![100]), (1, vec![101])] {
        conn.feed(&response_frame(call_id, false, &payload));
        match conn.poll_read() {
            ReadOutcome::Completed(id, rpc) => {
                assert_eq!(id, call_id as u64);
                assert_eq!(rpc.request, vec![call_id as u8]);
                assert_eq!(rpc.response, payload);
                assert_eq!(rpc.outcome, RpcOutcome::Succeeded);
            },
            other => panic!("expected a completion, got {:?}", other),
        }
    }
    assert!(matches!(conn.poll_read(), ReadOutcome::NeedData));
}

#[test]
fn fatal_server_error_resets_connection() {
    let mut conn = Connection::new(ConnectionOptions::default());
    establish(&mut conn);
    offer_ok(&mut conn, ping_rpc(5000, Vec::new(), true));
    assert!(matches!(conn.poll_write(0), WriteOutcome::Wrote(0)));
    conn.feed(&response_frame(
        0,
        true,
        &error_status_body(RpcErrorCode::FatalServerShuttingDown, b"bye"),
    ));
    let error = match conn.poll_read() {
        ReadOutcome::Fatal(e, Some((0, rpc))) => {
            match &rpc.outcome {
                RpcOutcome::Failed(Error::Rpc { code, message, .. }) => {
                    assert_eq!(*code, RpcErrorCode::FatalServerShuttingDown);
                    assert_eq!(message, &b"bye".to_vec());
                },
                other => panic!("expected a server error outcome, got {:?}", other),
            }
            e
        },
        other => panic!("expected a fatal read outcome, got {:?}", other),
    };
    let failed = conn.reset(error, 0);
    assert!(failed.is_empty());
    assert_eq!(conn.state, ConnectionState::Reset);
    assert_eq!(conn.connected_errors, 1);
    assert!(conn.reset_timer_ms >= 10);
    conn.on_reset_elapsed();
    assert_eq!(conn.state, ConnectionState::Connecting);
}

#[test]
fn cancellation_before_write_consumes_no_bytes() {
    let mut conn = Connection::new(ConnectionOptions::default());
    establish(&mut conn);
    let id = offer_ok(&mut conn, ping_rpc(1000, Vec::new(), false));
    assert_eq!(id, 0);
    conn.cancel(id);
    match conn.poll_write(10) {
        WriteOutcome::Failed(0, rpc) => {
            assert_eq!(rpc.outcome, RpcOutcome::Failed(Error::Cancelled));
        },
        other => panic!("expected a cancelled call, got {:?}", other),
    }
    assert!(conn.write_buf.is_empty());
    // The next call gets the next ID; the counter moved past the
    // cancelled call only.
    assert_eq!(offer_ok(&mut conn, ping_rpc(1000, Vec::new(), false)), 1);
}

#[test]
fn timed_out_before_write() {
    let mut conn = Connection::new(ConnectionOptions::default());
    establish(&mut conn);
    offer_ok(&mut conn, ping_rpc(100, Vec::new(), false));
    match conn.poll_write(200) {
        WriteOutcome::Failed(0, rpc) => {
            assert_eq!(rpc.outcome, RpcOutcome::Failed(Error::TimedOut));
        },
        other => panic!("expected a timed-out call, got {:?}", other),
    }
}

#[test]
fn throttle_halves_and_gates_writes() {
    let mut conn = Connection::new(ConnectionOptions::default());
    assert_eq!(conn.throttle, 256);
    conn.throttle();
    assert_eq!(conn.throttle, 128);
    conn.throttle();
    assert_eq!(conn.throttle, 64);
    conn.throttle();
    assert_eq!(conn.throttle, 32);
    conn.throttle();
    assert_eq!(conn.throttle, 16);

    establish(&mut conn);
    for _ in 0..64 {
        offer_ok(&mut conn, ping_rpc(5000, Vec::new(), false));
    }
    let mut wrote = 0;
    loop {
        match conn.poll_write(0) {
            WriteOutcome::Wrote(_) => wrote += 1,
            WriteOutcome::Throttled => break,
            other => panic!("expected writes up to the throttle, got {:?}", other),
        }
    }
    assert_eq!(wrote, 16);
    assert_eq!(conn.recv_queue.len(), 16);
    assert_eq!(conn.send_queue.len(), 48);

    // A successful completion grows the ceiling by one.
    conn.feed(&response_frame(0, false, &[]));
    assert!(matches!(conn.poll_read(), ReadOutcome::Completed(0, _)));
    assert_eq!(conn.throttle, 17);
}

#[test]
fn throttle_never_drops_below_one() {
    let mut conn = Connection::new(ConnectionOptions::default());
    for _ in 0..20 {
        conn.throttle();
    }
    assert_eq!(conn.throttle, 1);
}

#[test]
fn reset_drains_under_fail_fast_policy() {
    let mut conn = Connection::new(ConnectionOptions::default());
    establish(&mut conn);
    // A (fail-fast) and B (retriable) go onto the wire; C (retriable)
    // and D (fail-fast) stay queued.
    offer_ok(&mut conn, ping_rpc(5000, vec![0], true));
    offer_ok(&mut conn, ping_rpc(5000, vec![1], false));
    assert!(matches!(conn.poll_write(0), WriteOutcome::Wrote(0)));
    assert!(matches!(conn.poll_write(0), WriteOutcome::Wrote(1)));
    offer_ok(&mut conn, ping_rpc(5000, vec![2], false));
    offer_ok(&mut conn, ping_rpc(5000, vec![3], true));

    let failed = conn.reset(Error::Io, 0);
    // Exactly the fail-fast calls fail, with the triggering error, in
    // drain order: receive queue first.
    assert_eq!(failed.len(), 2);
    assert_eq!(failed[0].0, 0);
    assert_eq!(failed[0].1.request, vec![0]);
    assert_eq!(failed[0].1.outcome, RpcOutcome::Failed(Error::Io));
    assert_eq!(failed[1].0, 3);
    assert_eq!(failed[1].1.request, vec![3]);
    assert_eq!(failed[1].1.outcome, RpcOutcome::Failed(Error::Io));
    // The retriable calls reappear in the send queue, in their original
    // order and under their original call IDs.
    assert_eq!(conn.recv_queue.len(), 0);
    assert_eq!(conn.send_queue.len(), 2);
    let b = conn.send_queue.pop().expect("first retained call");
    assert_eq!(b.0, 1);
    assert_eq!(b.1.request, vec![1]);
    let c = conn.send_queue.pop().expect("second retained call");
    assert_eq!(c.0, 2);
    assert_eq!(c.1.request, vec![2]);
    // Both byte buffers are empty and the backoff timer is armed.
    assert!(conn.recv_buf.is_empty());
    assert!(conn.write_buf.is_empty());
    assert!(conn.reset_timer_ms >= 10);
    assert_eq!(conn.state, ConnectionState::Reset);
}

#[test]
fn reset_drops_cancelled_and_times_out_expired() {
    let mut conn = Connection::new(ConnectionOptions::default());
    establish(&mut conn);
    offer_ok(&mut conn, ping_rpc(5000, vec![0], false));
    offer_ok(&mut conn, ping_rpc(100, vec![1], false));
    conn.cancel(0);
    let failed = conn.reset(Error::Io, 200);
    // The cancelled call is dropped silently; the expired one times out.
    assert_eq!(failed.len(), 1);
    assert_eq!(failed[0].0, 1);
    assert_eq!(failed[0].1.request, vec![1]);
    assert_eq!(failed[0].1.outcome, RpcOutcome::Failed(Error::TimedOut));
    assert_eq!(conn.send_queue.len(), 0);
}

#[test]
fn queue_ceiling_applies_backpressure() {
    let mut options = ConnectionOptions::default();
    options.rpc_queue_len = 2;
    let mut conn = Connection::new(options);
    assert!(matches!(conn.offer(ping_rpc(5000, Vec::new(), false)), OfferOutcome::Queued(0)));
    assert!(matches!(conn.offer(ping_rpc(5000, Vec::new(), false)), OfferOutcome::Queued(1)));
    match conn.offer(ping_rpc(5000, Vec::new(), false)) {
        OfferOutcome::Full(rpc) => assert_eq!(rpc.outcome, RpcOutcome::Pending),
        other => panic!("expected backpressure, got {:?}", other),
    }
}

#[test]
fn oversized_frame_is_fatal() {
    let mut options = ConnectionOptions::default();
    options.max_message_length = 64;
    let mut conn = Connection::new(options);
    establish(&mut conn);
    conn.feed(&[0x00, 0x00, 0x00, 0x41]);
    assert!(matches!(conn.poll_read(), ReadOutcome::Fatal(Error::InvalidRpcHeader, None)));
}

#[test]
fn malformed_frame_is_fatal_and_keeps_call_queued() {
    let mut conn = Connection::new(ConnectionOptions::default());
    establish(&mut conn);
    offer_ok(&mut conn, ping_rpc(5000, Vec::new(), false));
    assert!(matches!(conn.poll_write(0), WriteOutcome::Wrote(0)));
    // A frame whose payload is not two delimited chunks.
    conn.feed(&[0x00, 0x00, 0x00, 0x02, 0xff, 0xff]);
    assert!(matches!(conn.poll_read(), ReadOutcome::Fatal(Error::DeserializationError, None)));
    // The call stays in flight for the reset to reconcile.
    assert_eq!(conn.recv_queue.len(), 1);
}

#[test]
fn sidecars_are_fatal() {
    let mut conn = Connection::new(ConnectionOptions::default());
    establish(&mut conn);
    let header = ResponseHeader { call_id: 0, is_error: false, sidecar_offsets: vec![4] };
    let mut header_bytes = Vec::new();
    encode_response_header(&mut header_bytes, &header);
    let mut frame = Vec::new();
    encode_frame(&mut frame, &header_bytes, b"body");
    conn.feed(&frame);
    assert!(matches!(conn.poll_read(), ReadOutcome::Fatal(Error::InvalidRpcHeader, None)));
}

#[test]
fn unmatched_response_is_discarded() {
    let mut conn = Connection::new(ConnectionOptions::default());
    establish(&mut conn);
    conn.feed(&response_frame(5, false, b"late"));
    assert!(matches!(conn.poll_read(), ReadOutcome::Discarded(None)));
    assert!(matches!(conn.poll_read(), ReadOutcome::NeedData));
}

#[test]
fn response_for_cancelled_call_is_discarded_silently() {
    let mut conn = Connection::new(ConnectionOptions::default());
    establish(&mut conn);
    offer_ok(&mut conn, ping_rpc(5000, Vec::new(), false));
    assert!(matches!(conn.poll_write(0), WriteOutcome::Wrote(0)));
    conn.cancel(0);
    conn.feed(&response_frame(0, false, b"late"));
    match conn.poll_read() {
        ReadOutcome::Discarded(Some((0, rpc))) => assert_eq!(rpc.outcome, RpcOutcome::Pending),
        other => panic!("expected a silent discard, got {:?}", other),
    }
    assert_eq!(conn.recv_queue.len(), 0);
}

#[test]
fn non_fatal_server_error_keeps_connection_open() {
    let mut conn = Connection::new(ConnectionOptions::default());
    establish(&mut conn);
    offer_ok(&mut conn, ping_rpc(5000, Vec::new(), false));
    assert!(matches!(conn.poll_write(0), WriteOutcome::Wrote(0)));
    conn.feed(&response_frame(0, true, &error_status_body(RpcErrorCode::ServerTooBusy, b"busy")));
    match conn.poll_read() {
        ReadOutcome::RpcFailed(0, rpc) => match &rpc.outcome {
            RpcOutcome::Failed(Error::Rpc { code, .. }) => {
                assert_eq!(*code, RpcErrorCode::ServerTooBusy);
            },
            other => panic!("expected a server error outcome, got {:?}", other),
        },
        other => panic!("expected a per-call failure, got {:?}", other),
    }
    assert_eq!(conn.state, ConnectionState::Connected);
}

#[test]
fn negotiation_without_plain_is_fatal() {
    let mut conn = Connection::new(ConnectionOptions::default());
    conn.on_connect_ready();
    conn.feed(&sasl_frame(SaslState::Negotiate, vec![b"GSSAPI".to_vec()]));
    assert!(matches!(conn.poll_negotiating(), NegotiationOutcome::Fatal(Error::NegotiationError)));
}

#[test]
fn negotiation_rejects_wrong_call_id() {
    let mut conn = Connection::new(ConnectionOptions::default());
    conn.on_connect_ready();
    let msg = SaslMessage { state: SaslState::Negotiate, token: Vec::new(), auths: Vec::new() };
    let mut body = Vec::new();
    encode_sasl(&mut body, &msg);
    conn.feed(&response_frame(33, false, &body));
    assert!(matches!(conn.poll_negotiating(), NegotiationOutcome::Fatal(Error::InvalidRpcHeader)));
}

#[test]
fn negotiation_server_error_is_fatal() {
    let mut conn = Connection::new(ConnectionOptions::default());
    conn.on_connect_ready();
    conn.feed(&response_frame(
        -33,
        true,
        &error_status_body(RpcErrorCode::FatalUnauthorized, b"no"),
    ));
    match conn.poll_negotiating() {
        NegotiationOutcome::Fatal(Error::Rpc { code, .. }) => {
            assert_eq!(code, RpcErrorCode::FatalUnauthorized);
        },
        other => panic!("expected the server error, got {:?}", other),
    }
}

#[test]
fn queue_invariant_holds_across_operations() {
    let mut conn = Connection::new(ConnectionOptions::default());
    establish(&mut conn);
    let cap = conn.options.rpc_queue_len as usize;
    for i in 0..10u8 {
        offer_ok(&mut conn, ping_rpc(5000, vec![i], i % 2 == 0));
        assert!(conn.send_queue.len() + conn.recv_queue.len() <= cap);
        assert!(conn.recv_queue.len() <= conn.throttle as usize);
    }
    for _ in 0..5 {
        assert!(matches!(conn.poll_write(0), WriteOutcome::Wrote(_)));
        assert!(conn.send_queue.len() + conn.recv_queue.len() <= cap);
        assert!(conn.recv_queue.len() <= conn.throttle as usize);
    }
    conn.reset(Error::Io, 0);
    assert!(conn.send_queue.len() + conn.recv_queue.len() <= cap);
    assert_eq!(conn.recv_queue.len(), 0);
}
