use smb_server::proto::error::ProtoError;
use smb_server::proto::header::SMB2_HEADER_LEN;
use smb_server::proto::messages::{TreeConnectRequest, TreeConnectResponse};

fn utf16le(s: &str) -> Vec<u8> {
    s.encode_utf16().flat_map(u16::to_le_bytes).collect()
}

#[test]
fn tree_connect_request_round_trips() {
    let path = utf16le(r"\\server\share");
    let r = TreeConnectRequest {
        structure_size: 9,
        flags: 0,
        path_offset: 0x48,
        path_length: path.len() as u16,
        path,
    };
    let mut buf = Vec::new();
    r.write_to(&mut buf).unwrap();
    let decoded = TreeConnectRequest::parse(&buf).unwrap();
    assert_eq!(decoded, r);
    assert_eq!(decoded.path_str().unwrap(), r"\\server\share");
}

#[test]
fn request_decodes_padded_path_from_header_relative_offset() {
    let path = utf16le(r"\\server\share");
    let mut buf = vec![0; 16 + path.len()];
    buf[0..2].copy_from_slice(&9u16.to_le_bytes());
    buf[4..6]
        .copy_from_slice(&(SMB2_HEADER_LEN as u16 + 16).to_le_bytes());
    buf[6..8].copy_from_slice(&(path.len() as u16).to_le_bytes());
    buf[16..16 + path.len()].copy_from_slice(&path);

    let decoded = TreeConnectRequest::parse(&buf).unwrap();

    assert_eq!(decoded.path, path);
    assert_eq!(decoded.path_str().unwrap(), r"\\server\share");
}

#[test]
fn tree_connect_request_rejects_wrong_structure_size() {
    let mut buf = vec![0; 8];
    buf[0..2].copy_from_slice(&8u16.to_le_bytes());

    assert!(matches!(
        TreeConnectRequest::parse(&buf),
        Err(ProtoError::Malformed(_))
    ));
}

#[test]
fn request_rejects_odd_path_length() {
    let mut buf = vec![0; 9];
    buf[0..2].copy_from_slice(&9u16.to_le_bytes());
    buf[4..6]
        .copy_from_slice(&(SMB2_HEADER_LEN as u16 + 8).to_le_bytes());
    buf[6..8].copy_from_slice(&1u16.to_le_bytes());

    assert!(matches!(
        TreeConnectRequest::parse(&buf),
        Err(ProtoError::Malformed(_))
    ));
}

#[test]
fn request_rejects_path_out_of_range() {
    let mut buf = vec![0; 8];
    buf[0..2].copy_from_slice(&9u16.to_le_bytes());
    buf[4..6]
        .copy_from_slice(&(SMB2_HEADER_LEN as u16 + 8).to_le_bytes());
    buf[6..8].copy_from_slice(&2u16.to_le_bytes());

    assert!(matches!(
        TreeConnectRequest::parse(&buf),
        Err(ProtoError::Malformed(_))
    ));
}

#[test]
fn tree_connect_response_round_trips() {
    let r = TreeConnectResponse {
        structure_size: 16,
        share_type: TreeConnectResponse::SHARE_TYPE_DISK,
        reserved: 0,
        share_flags: 0,
        capabilities: 0,
        maximal_access: 0x001F_01FF,
    };
    let mut buf = Vec::new();
    r.write_to(&mut buf).unwrap();
    assert_eq!(TreeConnectResponse::parse(&buf).unwrap(), r);
}

#[test]
fn tree_connect_response_rejects_wrong_structure_size() {
    let mut buf = vec![0; 16];
    buf[0..2].copy_from_slice(&15u16.to_le_bytes());

    assert!(matches!(
        TreeConnectResponse::parse(&buf),
        Err(ProtoError::Malformed(_))
    ));
}
