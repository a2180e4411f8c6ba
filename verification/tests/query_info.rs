use smb_server::proto::error::ProtoError;
use smb_server::proto::header::SMB2_HEADER_LEN;
use smb_server::proto::messages::{FileId, InfoType, QueryInfoRequest, QueryInfoResponse};

#[test]
fn query_info_request_round_trips() {
    let r = QueryInfoRequest {
        structure_size: 41,
        info_type: InfoType::File.as_u8(),
        file_information_class: 0x05, // FileStandardInformation
        output_buffer_length: 0x1000,
        input_buffer_offset: 0,
        reserved: 0,
        input_buffer_length: 0,
        additional_information: 0,
        flags: 0,
        file_id: FileId::new(1, 2),
        input_buffer: vec![],
    };
    let mut buf = Vec::new();
    r.write_to(&mut buf).unwrap();
    let decoded = QueryInfoRequest::parse(&buf).unwrap();
    assert_eq!(decoded, r);
    assert_eq!(decoded.info_type_enum(), Some(InfoType::File));
}

#[test]
fn query_info_response_round_trips() {
    let r = QueryInfoResponse {
        structure_size: 9,
        output_buffer_offset: 0x48,
        output_buffer_length: 4,
        buffer: vec![0xAB, 0xCD, 0xEF, 0x01],
    };
    let mut buf = Vec::new();
    r.write_to(&mut buf).unwrap();
    assert_eq!(QueryInfoResponse::parse(&buf).unwrap(), r);
}

#[test]
fn request_decodes_file_id_and_padded_input_buffer() {
    let mut buf = vec![0; 48];
    buf[0..2].copy_from_slice(&41u16.to_le_bytes());
    buf[2] = InfoType::Security.as_u8();
    buf[4..8].copy_from_slice(&1024u32.to_le_bytes());
    buf[8..10]
        .copy_from_slice(&(SMB2_HEADER_LEN as u16 + 44).to_le_bytes());
    buf[12..16].copy_from_slice(&4u32.to_le_bytes());
    buf[16..20].copy_from_slice(&0x07u32.to_le_bytes());
    buf[20..24].copy_from_slice(&0x02u32.to_le_bytes());
    buf[24..32].copy_from_slice(&33u64.to_le_bytes());
    buf[32..40].copy_from_slice(&44u64.to_le_bytes());
    buf[44..48].copy_from_slice(&[1, 2, 3, 4]);

    let decoded = QueryInfoRequest::parse(&buf).unwrap();

    assert_eq!(decoded.file_id, FileId::new(33, 44));
    assert_eq!(decoded.input_buffer, [1, 2, 3, 4]);
    assert_eq!(decoded.additional_information, 0x07);
    assert_eq!(decoded.flags, 0x02);
}

#[test]
fn query_info_request_rejects_wrong_structure_size() {
    let mut buf = vec![0; 40];
    buf[0..2].copy_from_slice(&40u16.to_le_bytes());

    assert!(matches!(
        QueryInfoRequest::parse(&buf),
        Err(ProtoError::Malformed(_))
    ));
}

#[test]
fn request_rejects_input_buffer_out_of_range() {
    let mut buf = vec![0; 40];
    buf[0..2].copy_from_slice(&41u16.to_le_bytes());
    buf[8..10]
        .copy_from_slice(&(SMB2_HEADER_LEN as u16 + 40).to_le_bytes());
    buf[12..16].copy_from_slice(&1u32.to_le_bytes());

    assert!(matches!(
        QueryInfoRequest::parse(&buf),
        Err(ProtoError::Malformed(_))
    ));
}

#[test]
fn query_info_response_rejects_wrong_structure_size() {
    let buf = [8, 0, 0, 0, 0, 0, 0, 0];

    assert!(matches!(
        QueryInfoResponse::parse(&buf),
        Err(ProtoError::Malformed(_))
    ));
}
