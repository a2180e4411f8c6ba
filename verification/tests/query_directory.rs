use smb_server::proto::error::ProtoError;
use smb_server::proto::header::SMB2_HEADER_LEN;
use smb_server::proto::messages::{
    FileId, FileInfoClass, QueryDirectoryRequest, QueryDirectoryResponse,
};

fn utf16le(s: &str) -> Vec<u8> {
    s.encode_utf16().flat_map(u16::to_le_bytes).collect()
}

#[test]
fn query_directory_request_round_trips() {
    let pat = utf16le("*");
    let r = QueryDirectoryRequest {
        structure_size: 33,
        file_information_class: FileInfoClass::FileIdBothDirectoryInformation.as_u8(),
        flags: QueryDirectoryRequest::FLAG_RESTART_SCANS,
        file_index: 0,
        file_id: FileId::new(1, 2),
        file_name_offset: 0x60,
        file_name_length: pat.len() as u16,
        output_buffer_length: 0x10000,
        file_name: pat,
    };
    let mut buf = Vec::new();
    r.write_to(&mut buf).unwrap();
    assert_eq!(QueryDirectoryRequest::parse(&buf).unwrap(), r);
}

#[test]
fn query_directory_response_round_trips() {
    let r = QueryDirectoryResponse {
        structure_size: 9,
        output_buffer_offset: 0x48,
        output_buffer_length: 8,
        buffer: vec![1, 2, 3, 4, 5, 6, 7, 8],
    };
    let mut buf = Vec::new();
    r.write_to(&mut buf).unwrap();
    assert_eq!(QueryDirectoryResponse::parse(&buf).unwrap(), r);
}

#[test]
fn request_decodes_file_id_and_padded_pattern() {
    let pattern = utf16le("*.log");
    let mut buf = vec![0; 40 + pattern.len()];
    buf[0..2].copy_from_slice(&33u16.to_le_bytes());
    buf[2] = FileInfoClass::FileNamesInformation.as_u8();
    buf[3] = QueryDirectoryRequest::FLAG_RESTART_SCANS;
    buf[4..8].copy_from_slice(&7u32.to_le_bytes());
    buf[8..16].copy_from_slice(&13u64.to_le_bytes());
    buf[16..24].copy_from_slice(&17u64.to_le_bytes());
    buf[24..26]
        .copy_from_slice(&(SMB2_HEADER_LEN as u16 + 40).to_le_bytes());
    buf[26..28].copy_from_slice(&(pattern.len() as u16).to_le_bytes());
    buf[28..32].copy_from_slice(&4096u32.to_le_bytes());
    buf[40..40 + pattern.len()].copy_from_slice(&pattern);

    let decoded = QueryDirectoryRequest::parse(&buf).unwrap();

    assert_eq!(decoded.file_id, FileId::new(13, 17));
    assert_eq!(decoded.file_name, pattern);
    assert_eq!(decoded.file_index, 7);
    assert_eq!(decoded.output_buffer_length, 4096);
}

#[test]
fn query_directory_request_rejects_wrong_structure_size() {
    let mut buf = vec![0; 32];
    buf[0..2].copy_from_slice(&32u16.to_le_bytes());

    assert!(matches!(
        QueryDirectoryRequest::parse(&buf),
        Err(ProtoError::Malformed(_))
    ));
}

#[test]
fn request_rejects_odd_file_name_length() {
    let mut buf = vec![0; 33];
    buf[0..2].copy_from_slice(&33u16.to_le_bytes());
    buf[24..26]
        .copy_from_slice(&(SMB2_HEADER_LEN as u16 + 32).to_le_bytes());
    buf[26..28].copy_from_slice(&1u16.to_le_bytes());
    buf[32] = b'*';

    assert!(matches!(
        QueryDirectoryRequest::parse(&buf),
        Err(ProtoError::Malformed(_))
    ));
}

#[test]
fn request_rejects_file_name_out_of_range() {
    let mut buf = vec![0; 32];
    buf[0..2].copy_from_slice(&33u16.to_le_bytes());
    buf[24..26]
        .copy_from_slice(&(SMB2_HEADER_LEN as u16 + 32).to_le_bytes());
    buf[26..28].copy_from_slice(&2u16.to_le_bytes());

    assert!(matches!(
        QueryDirectoryRequest::parse(&buf),
        Err(ProtoError::Malformed(_))
    ));
}

#[test]
fn query_directory_response_rejects_wrong_structure_size() {
    let buf = [8, 0, 0, 0, 0, 0, 0, 0];

    assert!(matches!(
        QueryDirectoryResponse::parse(&buf),
        Err(ProtoError::Malformed(_))
    ));
}
