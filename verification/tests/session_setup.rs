use smb_server::proto::error::ProtoError;
use smb_server::proto::header::SMB2_HEADER_LEN;
use smb_server::proto::messages::{SessionSetupRequest, SessionSetupResponse};

#[test]
fn session_setup_request_round_trips() {
    let r = SessionSetupRequest {
        structure_size: 25,
        flags: 0,
        security_mode: 0x01,
        capabilities: 0x01,
        channel: 0,
        security_buffer_offset: 0x58,
        security_buffer_length: 6,
        previous_session_id: 0,
        security_buffer: vec![0xDE, 0xAD, 0xBE, 0xEF, 0x01, 0x02],
    };
    let mut buf = Vec::new();
    r.write_to(&mut buf).unwrap();
    assert_eq!(SessionSetupRequest::parse(&buf).unwrap(), r);
}

#[test]
fn request_decodes_padded_security_buffer_from_header_relative_offset() {
    let mut buf = vec![0; 32];
    buf[0..2].copy_from_slice(&25u16.to_le_bytes());
    buf[2] = SessionSetupRequest::FLAG_BINDING;
    buf[3] = 0x02;
    buf[4..8].copy_from_slice(&0x1234_5678u32.to_le_bytes());
    buf[8..12].copy_from_slice(&7u32.to_le_bytes());
    buf[12..14]
        .copy_from_slice(&(SMB2_HEADER_LEN as u16 + 28).to_le_bytes());
    buf[14..16].copy_from_slice(&4u16.to_le_bytes());
    buf[16..24].copy_from_slice(&99u64.to_le_bytes());
    buf[28..32].copy_from_slice(&[1, 2, 3, 4]);

    let decoded = SessionSetupRequest::parse(&buf).unwrap();

    assert_eq!(decoded.flags, SessionSetupRequest::FLAG_BINDING);
    assert_eq!(decoded.security_mode, 0x02);
    assert_eq!(decoded.capabilities, 0x1234_5678);
    assert_eq!(decoded.channel, 7);
    assert_eq!(decoded.previous_session_id, 99);
    assert_eq!(decoded.security_buffer, [1, 2, 3, 4]);
}

#[test]
fn request_decodes_canonical_gosmb_security_buffer_fixture() {
    let mut buf = vec![0; 29];
    buf[0..2].copy_from_slice(&25u16.to_le_bytes());
    buf[2] = SessionSetupRequest::FLAG_BINDING;
    buf[3] = 0x02;
    buf[4..8].copy_from_slice(&(0x0000_0001u32 | 0x0000_0002u32).to_le_bytes());
    buf[8..12].copy_from_slice(&7u32.to_le_bytes());
    buf[12..14]
        .copy_from_slice(&(SMB2_HEADER_LEN as u16 + 24).to_le_bytes());
    buf[14..16].copy_from_slice(&5u16.to_le_bytes());
    buf[16..24].copy_from_slice(&99u64.to_le_bytes());
    buf[24..29].copy_from_slice(b"token");

    let decoded = SessionSetupRequest::parse(&buf).unwrap();

    assert_eq!(decoded.flags, SessionSetupRequest::FLAG_BINDING);
    assert_eq!(decoded.security_mode, 0x02);
    assert_eq!(decoded.capabilities, 0x0000_0001 | 0x0000_0002);
    assert_eq!(decoded.channel, 7);
    assert_eq!(decoded.previous_session_id, 99);
    assert_eq!(decoded.security_buffer, b"token");
}

#[test]
fn session_setup_request_rejects_wrong_structure_size() {
    let mut buf = vec![0; 24];
    buf[0..2].copy_from_slice(&24u16.to_le_bytes());
    buf[12..14]
        .copy_from_slice(&(SMB2_HEADER_LEN as u16 + 24).to_le_bytes());

    assert!(matches!(
        SessionSetupRequest::parse(&buf),
        Err(ProtoError::Malformed(_))
    ));
}

#[test]
fn request_rejects_security_buffer_before_body() {
    let mut buf = vec![0; 24];
    buf[0..2].copy_from_slice(&25u16.to_le_bytes());
    buf[12..14]
        .copy_from_slice(&(SMB2_HEADER_LEN as u16 + 16).to_le_bytes());

    assert!(matches!(
        SessionSetupRequest::parse(&buf),
        Err(ProtoError::Malformed(_))
    ));
}

#[test]
fn request_rejects_security_buffer_out_of_range() {
    let mut buf = vec![0; 24];
    buf[0..2].copy_from_slice(&25u16.to_le_bytes());
    buf[12..14]
        .copy_from_slice(&(SMB2_HEADER_LEN as u16 + 24).to_le_bytes());
    buf[14..16].copy_from_slice(&1u16.to_le_bytes());

    assert!(matches!(
        SessionSetupRequest::parse(&buf),
        Err(ProtoError::Malformed(_))
    ));
}

#[test]
fn session_setup_response_round_trips() {
    let r = SessionSetupResponse {
        structure_size: 9,
        session_flags: SessionSetupResponse::FLAG_IS_GUEST,
        security_buffer_offset: 0x48,
        security_buffer_length: 4,
        security_buffer: vec![1, 2, 3, 4],
    };
    let mut buf = Vec::new();
    r.write_to(&mut buf).unwrap();
    assert_eq!(SessionSetupResponse::parse(&buf).unwrap(), r);
}

#[test]
fn response_decodes_padded_security_buffer_from_header_relative_offset() {
    let mut buf = vec![0; 16];
    buf[0..2].copy_from_slice(&9u16.to_le_bytes());
    buf[2..4].copy_from_slice(&SessionSetupResponse::FLAG_IS_NULL.to_le_bytes());
    buf[4..6]
        .copy_from_slice(&(SMB2_HEADER_LEN as u16 + 12).to_le_bytes());
    buf[6..8].copy_from_slice(&4u16.to_le_bytes());
    buf[12..16].copy_from_slice(&[5, 6, 7, 8]);

    let decoded = SessionSetupResponse::parse(&buf).unwrap();

    assert_eq!(decoded.session_flags, SessionSetupResponse::FLAG_IS_NULL);
    assert_eq!(decoded.security_buffer, [5, 6, 7, 8]);
}

#[test]
fn response_accepts_empty_security_buffer_at_fixed_prefix_end() {
    let r = SessionSetupResponse {
        structure_size: 9,
        session_flags: 0,
        security_buffer_offset: SMB2_HEADER_LEN as u16 + 8,
        security_buffer_length: 0,
        security_buffer: Vec::new(),
    };
    let mut buf = Vec::new();
    r.write_to(&mut buf).unwrap();

    assert_eq!(buf.len(), 8);
    assert_eq!(SessionSetupResponse::parse(&buf).unwrap(), r);
}

#[test]
fn session_setup_response_rejects_wrong_structure_size() {
    let mut buf = vec![0; 8];
    buf[0..2].copy_from_slice(&8u16.to_le_bytes());
    buf[4..6]
        .copy_from_slice(&(SMB2_HEADER_LEN as u16 + 8).to_le_bytes());

    assert!(matches!(
        SessionSetupResponse::parse(&buf),
        Err(ProtoError::Malformed(_))
    ));
}

#[test]
fn response_rejects_security_buffer_out_of_range() {
    let mut buf = vec![0; 8];
    buf[0..2].copy_from_slice(&9u16.to_le_bytes());
    buf[4..6]
        .copy_from_slice(&(SMB2_HEADER_LEN as u16 + 8).to_le_bytes());
    buf[6..8].copy_from_slice(&1u16.to_le_bytes());

    assert!(matches!(
        SessionSetupResponse::parse(&buf),
        Err(ProtoError::Malformed(_))
    ));
}
