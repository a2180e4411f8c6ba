use smb_server::proto::error::ProtoError;
use smb_server::proto::header::SMB2_HEADER_LEN;
use smb_server::proto::messages::{FileId, SetInfoRequest, SetInfoResponse};

#[test]
fn set_info_request_round_trips() {
    let r = SetInfoRequest {
        structure_size: 33,
        info_type: 0x01,              // File
        file_information_class: 0x14, // FileEndOfFileInformation
        buffer_length: 8,
        buffer_offset: 0x60,
        reserved: 0,
        additional_information: 0,
        file_id: FileId::new(1, 2),
        buffer: vec![0, 0, 0, 0x10, 0, 0, 0, 0],
    };
    let mut buf = Vec::new();
    r.write_to(&mut buf).unwrap();
    assert_eq!(SetInfoRequest::parse(&buf).unwrap(), r);
}

#[test]
fn set_info_response_round_trips() {
    let r = SetInfoResponse::default();
    let mut buf = Vec::new();
    r.write_to(&mut buf).unwrap();
    assert_eq!(SetInfoResponse::parse(&buf).unwrap(), r);
    assert_eq!(buf.len(), 2);
}

#[test]
fn request_decodes_file_id_and_padded_buffer() {
    let mut buf = vec![0; 40];
    buf[0..2].copy_from_slice(&33u16.to_le_bytes());
    buf[2] = 0x01;
    buf[3] = 0x14;
    buf[4..8].copy_from_slice(&4u32.to_le_bytes());
    buf[8..10]
        .copy_from_slice(&(SMB2_HEADER_LEN as u16 + 36).to_le_bytes());
    buf[12..16].copy_from_slice(&0x08u32.to_le_bytes());
    buf[16..24].copy_from_slice(&11u64.to_le_bytes());
    buf[24..32].copy_from_slice(&22u64.to_le_bytes());
    buf[36..40].copy_from_slice(&[5, 6, 7, 8]);

    let decoded = SetInfoRequest::parse(&buf).unwrap();

    assert_eq!(decoded.file_id, FileId::new(11, 22));
    assert_eq!(decoded.additional_information, 0x08);
    assert_eq!(decoded.buffer, [5, 6, 7, 8]);
}

#[test]
fn set_info_request_rejects_wrong_structure_size() {
    let mut buf = vec![0; 32];
    buf[0..2].copy_from_slice(&32u16.to_le_bytes());

    assert!(matches!(
        SetInfoRequest::parse(&buf),
        Err(ProtoError::Malformed(_))
    ));
}

#[test]
fn request_rejects_buffer_out_of_range() {
    let mut buf = vec![0; 32];
    buf[0..2].copy_from_slice(&33u16.to_le_bytes());
    buf[4..8].copy_from_slice(&1u32.to_le_bytes());
    buf[8..10]
        .copy_from_slice(&(SMB2_HEADER_LEN as u16 + 32).to_le_bytes());

    assert!(matches!(
        SetInfoRequest::parse(&buf),
        Err(ProtoError::Malformed(_))
    ));
}

#[test]
fn set_info_response_rejects_wrong_structure_size() {
    let buf = [3, 0];

    assert!(matches!(
        SetInfoResponse::parse(&buf),
        Err(ProtoError::Malformed(_))
    ));
}
