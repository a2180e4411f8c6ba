use smb_server::proto::error::ProtoError;
use smb_server::proto::header::SMB2_HEADER_LEN;
use smb_server::proto::messages::{ChangeNotifyRequest, ChangeNotifyResponse, FileId};

#[test]
fn change_notify_request_round_trips() {
    let r = ChangeNotifyRequest {
        structure_size: 32,
        flags: ChangeNotifyRequest::FLAG_WATCH_TREE,
        output_buffer_length: 0x1000,
        file_id: FileId::new(1, 2),
        completion_filter: 0xFF,
        reserved: 0,
    };
    let mut buf = Vec::new();
    r.write_to(&mut buf).unwrap();
    assert_eq!(ChangeNotifyRequest::parse(&buf).unwrap(), r);
}

#[test]
fn change_notify_response_round_trips() {
    let r = ChangeNotifyResponse {
        structure_size: 9,
        output_buffer_offset: 0x48,
        output_buffer_length: 0,
        buffer: vec![],
    };
    let mut buf = Vec::new();
    r.write_to(&mut buf).unwrap();
    assert_eq!(ChangeNotifyResponse::parse(&buf).unwrap(), r);
}

#[test]
fn change_notify_request_rejects_wrong_structure_size() {
    let mut buf = vec![0; 32];
    buf[0..2].copy_from_slice(&31u16.to_le_bytes());

    assert!(matches!(
        ChangeNotifyRequest::parse(&buf),
        Err(ProtoError::Malformed(_))
    ));
}

#[test]
fn response_decodes_padded_buffer_from_header_relative_offset() {
    let mut buf = vec![0; 16];
    buf[0..2].copy_from_slice(&9u16.to_le_bytes());
    buf[2..4]
        .copy_from_slice(&(SMB2_HEADER_LEN as u16 + 12).to_le_bytes());
    buf[4..8].copy_from_slice(&4u32.to_le_bytes());
    buf[12..16].copy_from_slice(&[1, 2, 3, 4]);

    let decoded = ChangeNotifyResponse::parse(&buf).unwrap();

    assert_eq!(decoded.buffer, [1, 2, 3, 4]);
}

#[test]
fn change_notify_response_rejects_wrong_structure_size() {
    let buf = [8, 0, 0, 0, 0, 0, 0, 0];

    assert!(matches!(
        ChangeNotifyResponse::parse(&buf),
        Err(ProtoError::Malformed(_))
    ));
}

#[test]
fn response_rejects_buffer_out_of_range() {
    let mut buf = vec![0; 8];
    buf[0..2].copy_from_slice(&9u16.to_le_bytes());
    buf[2..4]
        .copy_from_slice(&(SMB2_HEADER_LEN as u16 + 8).to_le_bytes());
    buf[4..8].copy_from_slice(&1u32.to_le_bytes());

    assert!(matches!(
        ChangeNotifyResponse::parse(&buf),
        Err(ProtoError::Malformed(_))
    ));
}
