use krpc::framing::encode_frame;
use krpc::framing::frame_status;
use krpc::framing::split_payload;
use krpc::framing::FrameStatus;
use krpc::messages::decode_error_status;
use krpc::messages::decode_request_header;
use krpc::messages::decode_response_header;
use krpc::messages::decode_sasl;
use krpc::messages::encode_error_status;
use krpc::messages::encode_request_header;
use krpc::messages::encode_response_header;
use krpc::messages::encode_sasl;
use krpc::messages::ErrorStatus;
use krpc::messages::RemoteMethod;
use krpc::messages::RequestHeader;
use krpc::messages::ResponseHeader;
use krpc::messages::SaslMessage;
use krpc::messages::SaslState;
use krpc::RpcErrorCode;

#[test]
fn response_header_round_trip() {
    let header = ResponseHeader { call_id: 7, is_error: true, sidecar_offsets: vec![3, 9, 27] };
    let mut bytes = Vec::new();
    encode_response_header(&mut bytes, &header);
    let back = decode_response_header(&bytes).expect("decodes");
    assert_eq!(back.call_id, 7);
    assert!(back.is_error);
    assert_eq!(back.sidecar_offsets, vec![3, 9, 27]);
}

#[test]
fn response_header_negative_call_id_round_trip() {
    let header = ResponseHeader { call_id: -33, is_error: false, sidecar_offsets: Vec::new() };
    let mut bytes = Vec::new();
    encode_response_header(&mut bytes, &header);
    let back = decode_response_header(&bytes).expect("decodes");
    assert_eq!(back.call_id, -33);
    assert!(!back.is_error);
    assert!(back.sidecar_offsets.is_empty());
}

#[test]
fn response_header_rejects_trailing_garbage() {
    let header = ResponseHeader { call_id: 1, is_error: false, sidecar_offsets: Vec::new() };
    let mut bytes = Vec::new();
    encode_response_header(&mut bytes, &header);
    bytes.push(0x99);
    assert!(decode_response_header(&bytes).is_none());
}

#[test]
fn request_header_round_trip() {
    let header = RequestHeader {
        call_id: 42,
        remote_method: Some(RemoteMethod {
            service_name: b"kudu.master.MasterService".to_vec(),
            method_name: b"Ping".to_vec(),
        }),
        timeout_millis: 5000,
        required_feature_flags: vec![1, 2],
    };
    let mut bytes = Vec::new();
    encode_request_header(&mut bytes, &header);
    let back = decode_request_header(&bytes).expect("decodes");
    assert_eq!(back.call_id, 42);
    let rm = back.remote_method.expect("remote method present");
    assert_eq!(rm.service_name, b"kudu.master.MasterService".to_vec());
    assert_eq!(rm.method_name, b"Ping".to_vec());
    assert_eq!(back.timeout_millis, 5000);
    assert_eq!(back.required_feature_flags, vec![1, 2]);
}

#[test]
fn request_header_bare_call_id_round_trip() {
    let header = RequestHeader {
        call_id: -3,
        remote_method: None,
        timeout_millis: 0,
        required_feature_flags: Vec::new(),
    };
    let mut bytes = Vec::new();
    encode_request_header(&mut bytes, &header);
    // A session-management header is just the tagged call ID: ten varint
    // bytes of sign extension after the one-byte tag.
    assert_eq!(bytes.len(), 11);
    assert_eq!(bytes[0], 0x18);
    let back = decode_request_header(&bytes).expect("decodes");
    assert_eq!(back.call_id, -3);
    assert!(back.remote_method.is_none());
    assert_eq!(back.timeout_millis, 0);
    assert!(back.required_feature_flags.is_empty());
}

#[test]
fn sasl_message_round_trip() {
    let msg = SaslMessage {
        state: SaslState::Initiate,
        token: b"\0user\0".to_vec(),
        auths: vec![b"PLAIN".to_vec()],
    };
    let mut bytes = Vec::new();
    encode_sasl(&mut bytes, &msg);
    let back = decode_sasl(&bytes).expect("decodes");
    assert_eq!(back.state, SaslState::Initiate);
    assert_eq!(back.token, b"\0user\0".to_vec());
    assert_eq!(back.auths, vec![b"PLAIN".to_vec()]);
}

#[test]
fn sasl_message_without_token_round_trip() {
    let msg = SaslMessage { state: SaslState::Success, token: Vec::new(), auths: Vec::new() };
    let mut bytes = Vec::new();
    encode_sasl(&mut bytes, &msg);
    // State field only: tag and one varint byte.
    assert_eq!(bytes, vec![0x10, 0x00]);
    let back = decode_sasl(&bytes).expect("decodes");
    assert_eq!(back.state, SaslState::Success);
    assert!(back.token.is_empty());
    assert!(back.auths.is_empty());
}

#[test]
fn error_status_round_trip() {
    let status = ErrorStatus {
        message: b"shutting down".to_vec(),
        code: RpcErrorCode::FatalServerShuttingDown,
    };
    let mut bytes = Vec::new();
    encode_error_status(&mut bytes, &status);
    let back = decode_error_status(&bytes).expect("decodes");
    assert_eq!(back.message, b"shutting down".to_vec());
    assert_eq!(back.code, RpcErrorCode::FatalServerShuttingDown);
}

#[test]
fn error_status_rejects_unknown_code() {
    // message "x", then a code field holding 99, which names no code.
    let bytes = vec![0x0a, 0x01, 0x78, 0x10, 0x63];
    assert!(decode_error_status(&bytes).is_none());
}

#[test]
fn fatal_code_classification() {
    assert!(RpcErrorCode::FatalUnknown.is_fatal());
    assert!(RpcErrorCode::FatalServerShuttingDown.is_fatal());
    assert!(RpcErrorCode::FatalInvalidRpcHeader.is_fatal());
    assert!(RpcErrorCode::FatalDeserializingRequest.is_fatal());
    assert!(RpcErrorCode::FatalVersionMismatch.is_fatal());
    assert!(RpcErrorCode::FatalUnauthorized.is_fatal());
    assert!(!RpcErrorCode::ApplicationError.is_fatal());
    assert!(!RpcErrorCode::NoSuchMethod.is_fatal());
    assert!(!RpcErrorCode::NoSuchService.is_fatal());
    assert!(!RpcErrorCode::ServerTooBusy.is_fatal());
    assert!(!RpcErrorCode::InvalidRequest.is_fatal());
}

#[test]
fn frame_round_trip() {
    let header = b"header bytes".to_vec();
    let body = b"body payload".to_vec();
    let mut frame = Vec::new();
    encode_frame(&mut frame, &header, &body);
    // Length prefix: one varint byte per chunk length, plus the chunks.
    let payload_len = (1 + header.len() + 1 + body.len()) as u32;
    assert_eq!(&frame[0..4], payload_len.to_be_bytes().as_slice());
    match frame_status(&frame, 1024) {
        FrameStatus::Ready(n) => assert_eq!(n, payload_len as usize),
        other => panic!("expected a ready frame, got {:?}", other),
    }
    let (h, b) = split_payload(&frame, payload_len as usize).expect("splits");
    assert_eq!(h, header);
    assert_eq!(b, body);
}

#[test]
fn frame_status_incomplete_and_too_long() {
    let mut frame = Vec::new();
    encode_frame(&mut frame, b"h", b"body");
    let partial = frame[0..frame.len() - 1].to_vec();
    assert!(matches!(frame_status(&partial, 1024), FrameStatus::Incomplete));
    assert!(matches!(frame_status(&vec![0, 1], 1024), FrameStatus::Incomplete));
    assert!(matches!(frame_status(&frame, 3), FrameStatus::TooLong));
}
