use smb_server::proto::error::{ProtoError, ProtoResult};
use smb_server::proto::header::SMB2_HEADER_LEN;
use smb_server::proto::messages::{
    CompressionCapabilities, Dialect, NegotiateContext, NegotiateRequest, NegotiateResponse,
    PreauthIntegrityCapabilities, RdmaTransformCapabilities,
};

fn assert_malformed<T>(result: ProtoResult<T>) {
    assert!(matches!(result, Err(ProtoError::Malformed(_))));
}

fn signing_context() -> NegotiateContext {
    NegotiateContext {
        context_type: NegotiateContext::TYPE_SIGNING,
        data_length: 4,
        reserved: 0,
        data: vec![0x01, 0x00, 0x01, 0x00],
    }
}

#[test]
fn negotiate_request_round_trips() {
    let req = NegotiateRequest {
        structure_size: 36,
        dialect_count: 5,
        security_mode: 0x0001, // signing enabled
        reserved: 0,
        capabilities: 0x0000_007F,
        client_guid: [0xAB; 16],
        negotiate_context_offset_or_client_start_time: 0,
        dialects: vec![0x0202, 0x0210, 0x0300, 0x0302, 0x0311],
    };
    let mut buf = Vec::new();
    req.write_to(&mut buf).unwrap();
    let decoded = NegotiateRequest::parse(&buf).unwrap();
    assert_eq!(decoded, req);
}

#[test]
fn negotiate_request_with_contexts_round_trips() {
    let contexts = [signing_context()];
    let mut req = NegotiateRequest {
        structure_size: 36,
        dialect_count: 1,
        security_mode: 0x0001,
        reserved: 0,
        capabilities: 0,
        client_guid: [0xAB; 16],
        negotiate_context_offset_or_client_start_time: 0,
        dialects: vec![Dialect::Smb311.as_u16()],
    };
    let mut buf = Vec::new();
    req.write_to(&mut buf).unwrap();
    let context_offset = SMB2_HEADER_LEN + ((buf.len() + 7) & !7);
    req.negotiate_context_offset_or_client_start_time =
        context_offset as u64 | ((contexts.len() as u64) << 32);
    buf.clear();
    req.write_to(&mut buf).unwrap();
    buf.resize(context_offset - SMB2_HEADER_LEN, 0);
    NegotiateContext::encode_list(&contexts, &mut buf).unwrap();

    let decoded = NegotiateRequest::parse(&buf).unwrap();
    assert_eq!(decoded, req);
}

#[test]
fn negotiate_request_rejects_wrong_structure_size() {
    let req = NegotiateRequest {
        structure_size: 36,
        dialect_count: 1,
        security_mode: 0x0001,
        reserved: 0,
        capabilities: 0,
        client_guid: [0xAB; 16],
        negotiate_context_offset_or_client_start_time: 0,
        dialects: vec![Dialect::Smb311.as_u16()],
    };
    let mut buf = Vec::new();
    req.write_to(&mut buf).unwrap();
    buf[0..2].copy_from_slice(&35u16.to_le_bytes());

    assert_malformed(NegotiateRequest::parse(&buf));
}

#[test]
fn negotiate_request_rejects_truncated_dialects() {
    let req = NegotiateRequest {
        structure_size: 36,
        dialect_count: 2,
        security_mode: 0x0001,
        reserved: 0,
        capabilities: 0,
        client_guid: [0xAB; 16],
        negotiate_context_offset_or_client_start_time: 0,
        dialects: vec![Dialect::Smb302.as_u16(), Dialect::Smb311.as_u16()],
    };
    let mut buf = Vec::new();
    req.write_to(&mut buf).unwrap();
    buf.truncate(38);

    assert_malformed(NegotiateRequest::parse(&buf));
}

#[test]
fn negotiate_request_rejects_context_offset_before_header() {
    let req = NegotiateRequest {
        structure_size: 36,
        dialect_count: 1,
        security_mode: 0x0001,
        reserved: 0,
        capabilities: 0,
        client_guid: [0xAB; 16],
        negotiate_context_offset_or_client_start_time: 63 | (1u64 << 32),
        dialects: vec![Dialect::Smb311.as_u16()],
    };
    let mut buf = Vec::new();
    req.write_to(&mut buf).unwrap();

    assert_malformed(NegotiateRequest::parse(&buf));
}

#[test]
fn negotiate_response_round_trips() {
    let resp = NegotiateResponse {
        structure_size: 65,
        security_mode: 0x0003,
        dialect_revision: Dialect::Smb311.as_u16(),
        negotiate_context_count_or_reserved: 0,
        server_guid: [0xCD; 16],
        capabilities: 0x0000_007F,
        max_transact_size: 0x0010_0000,
        max_read_size: 0x0010_0000,
        max_write_size: 0x0010_0000,
        system_time: 0x01D9_1234_5678_9ABC,
        server_start_time: 0,
        security_buffer_offset: 0x80,
        security_buffer_length: 8,
        negotiate_context_offset_or_reserved2: 0,
        security_buffer: vec![1, 2, 3, 4, 5, 6, 7, 8],
    };
    let mut buf = Vec::new();
    resp.write_to(&mut buf).unwrap();
    let decoded = NegotiateResponse::parse(&buf).unwrap();
    assert_eq!(decoded, resp);
}

#[test]
fn negotiate_response_with_contexts_round_trips() {
    let contexts = [signing_context()];
    let context_offset = 136u32;
    let resp = NegotiateResponse {
        structure_size: 65,
        security_mode: 0x0003,
        dialect_revision: Dialect::Smb311.as_u16(),
        negotiate_context_count_or_reserved: 1,
        server_guid: [0xCD; 16],
        capabilities: 0x0000_007F,
        max_transact_size: 0x0010_0000,
        max_read_size: 0x0010_0000,
        max_write_size: 0x0010_0000,
        system_time: 0x01D9_1234_5678_9ABC,
        server_start_time: 0,
        security_buffer_offset: 0x80,
        security_buffer_length: 3,
        negotiate_context_offset_or_reserved2: context_offset,
        security_buffer: vec![1, 2, 3],
    };
    let mut buf = Vec::new();
    resp.write_to(&mut buf).unwrap();
    buf.resize(
        context_offset as usize - SMB2_HEADER_LEN,
        0,
    );
    NegotiateContext::encode_list(&contexts, &mut buf).unwrap();

    let decoded = NegotiateResponse::parse(&buf).unwrap();
    assert_eq!(decoded, resp);
}

#[test]
fn negotiate_response_rejects_wrong_structure_size() {
    let resp = NegotiateResponse {
        structure_size: 65,
        security_mode: 0x0003,
        dialect_revision: Dialect::Smb311.as_u16(),
        negotiate_context_count_or_reserved: 0,
        server_guid: [0xCD; 16],
        capabilities: 0x0000_007F,
        max_transact_size: 0x0010_0000,
        max_read_size: 0x0010_0000,
        max_write_size: 0x0010_0000,
        system_time: 0x01D9_1234_5678_9ABC,
        server_start_time: 0,
        security_buffer_offset: 0x80,
        security_buffer_length: 1,
        negotiate_context_offset_or_reserved2: 0,
        security_buffer: vec![1],
    };
    let mut buf = Vec::new();
    resp.write_to(&mut buf).unwrap();
    buf[0..2].copy_from_slice(&64u16.to_le_bytes());

    assert_malformed(NegotiateResponse::parse(&buf));
}

#[test]
fn negotiate_response_rejects_security_buffer_out_of_range() {
    let resp = NegotiateResponse {
        structure_size: 65,
        security_mode: 0x0003,
        dialect_revision: Dialect::Smb311.as_u16(),
        negotiate_context_count_or_reserved: 0,
        server_guid: [0xCD; 16],
        capabilities: 0x0000_007F,
        max_transact_size: 0x0010_0000,
        max_read_size: 0x0010_0000,
        max_write_size: 0x0010_0000,
        system_time: 0x01D9_1234_5678_9ABC,
        server_start_time: 0,
        security_buffer_offset: 0x80,
        security_buffer_length: 4,
        negotiate_context_offset_or_reserved2: 0,
        security_buffer: vec![1, 2, 3, 4],
    };
    let mut buf = Vec::new();
    resp.write_to(&mut buf).unwrap();
    buf[56..58].copy_from_slice(&63u16.to_le_bytes());

    assert_malformed(NegotiateResponse::parse(&buf));
}

#[test]
fn negotiate_response_rejects_truncated_contexts() {
    let resp = NegotiateResponse {
        structure_size: 65,
        security_mode: 0x0003,
        dialect_revision: Dialect::Smb311.as_u16(),
        negotiate_context_count_or_reserved: 1,
        server_guid: [0xCD; 16],
        capabilities: 0x0000_007F,
        max_transact_size: 0x0010_0000,
        max_read_size: 0x0010_0000,
        max_write_size: 0x0010_0000,
        system_time: 0x01D9_1234_5678_9ABC,
        server_start_time: 0,
        security_buffer_offset: 0,
        security_buffer_length: 0,
        negotiate_context_offset_or_reserved2: 0x80,
        security_buffer: vec![],
    };
    let mut buf = Vec::new();
    resp.write_to(&mut buf).unwrap();
    buf.extend_from_slice(&[0, 0, 0, 0]);

    assert_malformed(NegotiateResponse::parse(&buf));
}

#[test]
fn negotiate_response_wildcard_has_no_contexts() {
    let resp = NegotiateResponse {
        structure_size: 65,
        security_mode: 0x0001,
        dialect_revision: Dialect::Smb2Wildcard.as_u16(),
        negotiate_context_count_or_reserved: 0,
        server_guid: [0xCD; 16],
        capabilities: 0,
        max_transact_size: 0,
        max_read_size: 0,
        max_write_size: 0,
        system_time: 0,
        server_start_time: 0,
        security_buffer_offset: 0,
        security_buffer_length: 0,
        negotiate_context_offset_or_reserved2: 0,
        security_buffer: vec![],
    };
    let mut buf = Vec::new();
    resp.write_to(&mut buf).unwrap();
    let decoded = NegotiateResponse::parse(&buf).unwrap();

    assert_eq!(decoded.dialect_revision, Dialect::Smb2Wildcard.as_u16());
    assert_eq!(decoded.negotiate_context_count_or_reserved, 0);
    assert_eq!(decoded.negotiate_context_offset_or_reserved2, 0);
}

#[test]
fn dialect_round_trips() {
    for d in [
        Dialect::Smb202,
        Dialect::Smb210,
        Dialect::Smb300,
        Dialect::Smb302,
        Dialect::Smb311,
        Dialect::Smb2Wildcard,
    ] {
        assert_eq!(Dialect::from_u16(d.as_u16()), Some(d));
    }
    assert_eq!(Dialect::from_u16(0xBEEF), None);
}

#[test]
fn preauth_caps_round_trips() {
    let p = PreauthIntegrityCapabilities {
        hash_algorithm_count: 1,
        salt_length: 32,
        hash_algorithms: vec![PreauthIntegrityCapabilities::HASH_SHA512],
        salt: vec![0xAA; 32],
    };
    let mut buf = Vec::new();
    p.write_to(&mut buf).unwrap();
    let decoded = PreauthIntegrityCapabilities::parse(&buf).unwrap();
    assert_eq!(decoded, p);
}

#[test]
fn compression_caps_round_trips() {
    let caps = CompressionCapabilities {
        compression_algorithm_count: 2,
        padding: 0,
        flags: CompressionCapabilities::FLAG_CHAINED,
        compression_algorithms: vec![
            CompressionCapabilities::ALGORITHM_PATTERN_V1,
            CompressionCapabilities::ALGORITHM_LZ77,
        ],
    };
    let mut buf = Vec::new();
    caps.write_to(&mut buf).unwrap();
    let decoded = CompressionCapabilities::parse(&buf).unwrap();
    assert_eq!(decoded, caps);
}

#[test]
fn rdma_transform_caps_round_trips() {
    let caps = RdmaTransformCapabilities {
        transform_count: 2,
        reserved1: 0,
        reserved2: 0,
        rdma_transform_ids: vec![
            RdmaTransformCapabilities::TRANSFORM_ENCRYPTION,
            RdmaTransformCapabilities::TRANSFORM_SIGNING,
        ],
    };
    let mut buf = Vec::new();
    caps.write_to(&mut buf).unwrap();
    let decoded = RdmaTransformCapabilities::parse(&buf).unwrap();
    assert_eq!(decoded, caps);
}

#[test]
fn negotiate_context_list_round_trips() {
    let list = vec![
        NegotiateContext {
            context_type: NegotiateContext::TYPE_PREAUTH_INTEGRITY,
            data_length: 6,
            reserved: 0,
            data: vec![0x01, 0x00, 0x20, 0x00, 0x01, 0x00],
        },
        NegotiateContext {
            context_type: NegotiateContext::TYPE_ENCRYPTION,
            data_length: 4,
            reserved: 0,
            data: vec![0x02, 0x00, 0x02, 0x00],
        },
        NegotiateContext {
            context_type: NegotiateContext::TYPE_SIGNING,
            data_length: 4,
            reserved: 0,
            data: vec![0x01, 0x00, 0x01, 0x00],
        },
    ];
    let mut buf = Vec::new();
    NegotiateContext::encode_list(&list, &mut buf).unwrap();
    let parsed = NegotiateContext::parse_list(&buf, 3).unwrap();
    assert_eq!(parsed, list);
}

#[test]
fn negotiate_context_list_rejects_truncated_entry() {
    let mut buf = Vec::new();
    NegotiateContext::encode_list(&[signing_context()], &mut buf).unwrap();
    buf.truncate(10);

    assert_malformed(NegotiateContext::parse_list(&buf, 1));
}

#[test]
fn posix_negotiate_context_constant_matches_create_context_guid() {
    let ctx = NegotiateContext {
        context_type: NegotiateContext::TYPE_POSIX,
        data_length: NegotiateContext::POSIX_EXTENSIONS_GUID.len() as u16,
        reserved: 0,
        data: NegotiateContext::POSIX_EXTENSIONS_GUID.to_vec(),
    };
    let mut buf = Vec::new();
    NegotiateContext::encode_list(std::slice::from_ref(&ctx), &mut buf).unwrap();
    assert_eq!(&buf[0..2], &0x0100u16.to_le_bytes());
    assert_eq!(&buf[2..4], &16u16.to_le_bytes());
    assert_eq!(&buf[8..24], &NegotiateContext::POSIX_EXTENSIONS_GUID);
    assert_eq!(NegotiateContext::parse_list(&buf, 1).unwrap(), vec![ctx]);
}
