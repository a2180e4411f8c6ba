use smb_server::proto::crypto::compression::{
    compress_response, decompress_transform, is_compression_transform, CompressionError,
};
use smb_server::proto::crypto::lz77::decompress_xpress_lz77;
use smb_server::proto::error::ProtoError;
use smb_server::proto::messages::{
    CompressionCapabilities, CreateContext, CreateRequest, EchoRequest, FlushRequest, IoctlRequest,
    LockRequest, NegotiateRequest, QueryDirectoryRequest, QueryInfoRequest, ReadRequest,
    SessionSetupRequest, SetInfoRequest, TreeConnectRequest, WriteRequest,
};
use smb_server::quic::{
    check_windows, smb_quic_next_protos, smb_quic_transport_config, QuicField, SmbQuicConfig,
    SmbQuicConfigError, Span,
};

#[test]
fn messages_that_end_early_are_refused() {
    let too_short = |words: &'static str| Some(ProtoError::Malformed(words));
    let short = [0u8; 1];
    assert_eq!(EchoRequest::parse(&short), Err(ProtoError::Truncated));
    assert_eq!(FlushRequest::parse(&short).err(), too_short("flush request too short"));
    assert_eq!(CreateRequest::parse(&short).err(), too_short("create request too short"));
    assert_eq!(IoctlRequest::parse(&short).err(), too_short("ioctl request too short"));
    assert_eq!(LockRequest::parse(&short).err(), too_short("lock request too short"));
    assert_eq!(NegotiateRequest::parse(&short).err(), too_short("negotiate request too short"));
    assert_eq!(QueryDirectoryRequest::parse(&short).err(), too_short("query directory request too short"));
    assert_eq!(QueryInfoRequest::parse(&short).err(), too_short("query info request too short"));
    assert_eq!(ReadRequest::parse(&short).err(), too_short("read request too short"));
    assert_eq!(SessionSetupRequest::parse(&short).err(), too_short("session setup request too short"));
    assert_eq!(SetInfoRequest::parse(&short).err(), too_short("set info request too short"));
    assert_eq!(TreeConnectRequest::parse(&short).err(), too_short("tree connect request too short"));
    assert_eq!(WriteRequest::parse(&short).err(), too_short("write request too short"));
}

#[test]
fn create_contexts_come_back() {
    let list = vec![
        CreateContext { name: b"MxAc".to_vec(), data: vec![] },
        CreateContext { name: b"DH2Q".to_vec(), data: vec![7; 33] },
        CreateContext { name: vec![1; 16], data: vec![2] },
    ];
    let mut bytes = Vec::new();
    CreateContext::encode_chain(&list, &mut bytes).expect("an encoded chain");
    assert_eq!(CreateContext::parse_chain(&bytes), Ok(list));
}

#[test]
fn transforms_that_are_broken_are_refused() {
    let all = [
        CompressionCapabilities::ALGORITHM_LZ77,
        CompressionCapabilities::ALGORITHM_PATTERN_V1,
    ];
    assert_eq!(decompress_transform(&[], &all, 1 << 20), Err(CompressionError::Invalid));
    let mut plain = vec![0xFE, b'S', b'M', b'B'];
    plain.extend(b"abcdefgh".repeat(64));
    let frame =
        compress_response(&plain, CompressionCapabilities::ALGORITHM_LZ77).expect("a frame");
    assert!(is_compression_transform(&frame));
    assert!(!is_compression_transform(&plain));
    assert_eq!(decompress_transform(&frame, &all, 1 << 20), Ok(plain.clone()));
    assert_eq!(
        decompress_transform(&frame, &all, plain.len() as u32 - 1),
        Err(CompressionError::Invalid)
    );
    assert_eq!(
        decompress_transform(&frame, &all[1..], 1 << 20),
        Err(CompressionError::Unsupported)
    );
    assert_eq!(
        decompress_transform(&frame[..frame.len() - 1], &all, 1 << 20),
        Err(CompressionError::Invalid)
    );
    assert_eq!(compress_response(&plain, 0x7777), None);
    // A copy from before the beginning.
    assert!(decompress_xpress_lz77(&[0, 0, 0, 0x80, 8, 0], 3).is_err());
}

#[test]
fn compression_errors_speak() {
    assert_eq!(CompressionError::Unsupported.message(), "unsupported SMB compression algorithm");
    assert_eq!(CompressionError::Invalid.message(), "invalid SMB compression transform");
}

#[test]
fn settings_that_are_too_large_are_refused() {
    let limit = 1u64 << 62;
    let good = SmbQuicConfig::default();
    assert_eq!(check_windows(good), Ok(()));
    let cases = [
        (
            SmbQuicConfig { max_idle_timeout: Span::from_secs(limit / 1000 + 1), ..good },
            QuicField::MaxIdleTimeout,
        ),
        (
            SmbQuicConfig { stream_receive_window: limit, ..good },
            QuicField::StreamReceiveWindow,
        ),
        (
            SmbQuicConfig { connection_receive_window: limit, ..good },
            QuicField::ConnectionReceiveWindow,
        ),
    ];
    for (config, field) in cases {
        match smb_quic_transport_config(config) {
            Ok(_) => panic!("{field:?} is too large"),
            Err(e) => assert_eq!(e, SmbQuicConfigError::VarIntBounds { field }),
        }
    }
    let largest = SmbQuicConfig { stream_receive_window: limit - 1, ..good };
    assert!(smb_quic_transport_config(largest).is_ok());
}

#[test]
fn the_protocol_is_offered_once() {
    let twice = [b"smb".to_vec(), b"h3".to_vec(), b"smb".to_vec()];
    assert_eq!(smb_quic_next_protos(&twice), vec![b"smb".to_vec(), b"h3".to_vec()]);
    assert_eq!(smb_quic_next_protos(&[]), vec![b"smb".to_vec()]);
}
