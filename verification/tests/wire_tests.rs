use krpc::wire::decode_varint;
use krpc::wire::encode_varint;
use krpc::ConnectionOptions;
use krpc::Error;
use krpc::RpcErrorCode;

fn varint(x: u64) -> Vec<u8> {
    let mut out = Vec::new();
    encode_varint(&mut out, x);
    out
}

#[test]
fn varint_exact_encodings() {
    assert_eq!(varint(0), vec![0x00]);
    assert_eq!(varint(1), vec![0x01]);
    assert_eq!(varint(127), vec![0x7f]);
    assert_eq!(varint(128), vec![0x80, 0x01]);
    assert_eq!(varint(300), vec![0xac, 0x02]);
    assert_eq!(varint(u64::MAX).len(), 10);
}

#[test]
fn varint_decode_round_trip() {
    for x in [0u64, 1, 127, 128, 300, 16383, 16384, u64::MAX] {
        let bytes = varint(x);
        let (value, consumed) = decode_varint(&bytes, 0).expect("decodes");
        assert_eq!(value, x);
        assert_eq!(consumed, bytes.len());
    }
}

#[test]
fn varint_decode_rejects_truncation_and_overflow() {
    // A continuation bit with nothing after it.
    assert_eq!(decode_varint(&[0x80], 0), None);
    // Eleven meaningful groups overflow 64 bits.
    let too_big = vec![0xff, 0xff, 0xff, 0xff, 0xff, 0xff, 0xff, 0xff, 0xff, 0xff, 0x01];
    assert_eq!(decode_varint(&too_big, 0), None);
}

#[test]
fn default_options_values() {
    let options = ConnectionOptions::default();
    assert!(options.nodelay);
    assert_eq!(options.rpc_queue_len, 256);
    assert_eq!(options.backoff_initial, 10);
    assert_eq!(options.backoff_max, 30000);
    assert_eq!(options.max_message_length, 5 * 1024 * 1024);
}

#[test]
fn error_fatality_classification() {
    assert!(Error::Io.is_fatal());
    assert!(Error::NegotiationError.is_fatal());
    assert!(Error::InvalidRpcHeader.is_fatal());
    assert!(Error::DeserializationError.is_fatal());
    assert!(Error::ConnectionError.is_fatal());
    assert!(!Error::TimedOut.is_fatal());
    assert!(!Error::Cancelled.is_fatal());
    assert!(!Error::Backoff.is_fatal());
    let busy = Error::Rpc {
        code: RpcErrorCode::ServerTooBusy,
        message: Vec::new(),
        unsupported_feature_flags: Vec::new(),
    };
    assert!(!busy.is_fatal());
    let down = Error::Rpc {
        code: RpcErrorCode::FatalServerShuttingDown,
        message: Vec::new(),
        unsupported_feature_flags: Vec::new(),
    };
    assert!(down.is_fatal());
}
