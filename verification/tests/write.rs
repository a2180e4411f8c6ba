use smb_server::proto::error::ProtoError;
use smb_server::proto::header::SMB2_HEADER_LEN;
use smb_server::proto::messages::{FileId, WriteRequest, WriteResponse};

#[test]
fn write_request_round_trips() {
    let r = WriteRequest {
        structure_size: 49,
        data_offset: WriteRequest::STANDARD_DATA_OFFSET,
        length: 4,
        offset: 0x100,
        file_id: FileId::new(0xAA, 0xBB),
        channel: 0,
        remaining_bytes: 0,
        write_channel_info_offset: 0,
        write_channel_info_length: 0,
        flags: 0,
        data: vec![1, 2, 3, 4],
    };
    let mut buf = Vec::new();
    r.write_to(&mut buf).unwrap();
    assert_eq!(WriteRequest::parse(&buf).unwrap(), r);
}

#[test]
fn write_response_round_trips() {
    let r = WriteResponse::new(0x1000);
    let mut buf = Vec::new();
    r.write_to(&mut buf).unwrap();
    assert_eq!(WriteResponse::parse(&buf).unwrap(), r);
}

#[test]
fn request_decodes_padded_data_from_header_relative_offset() {
    let mut buf = vec![0; 56];
    buf[0..2].copy_from_slice(&49u16.to_le_bytes());
    buf[2..4]
        .copy_from_slice(&(SMB2_HEADER_LEN as u16 + 52).to_le_bytes());
    buf[4..8].copy_from_slice(&4u32.to_le_bytes());
    buf[8..16].copy_from_slice(&0x100u64.to_le_bytes());
    buf[16..24].copy_from_slice(&0x11u64.to_le_bytes());
    buf[24..32].copy_from_slice(&0x22u64.to_le_bytes());
    buf[32..36].copy_from_slice(&1u32.to_le_bytes());
    buf[36..40].copy_from_slice(&512u32.to_le_bytes());
    buf[40..42].copy_from_slice(&48u16.to_le_bytes());
    buf[42..44].copy_from_slice(&8u16.to_le_bytes());
    buf[44..48].copy_from_slice(&WriteRequest::FLAG_WRITE_UNBUFFERED.to_le_bytes());
    buf[52..56].copy_from_slice(&[1, 2, 3, 4]);

    let decoded = WriteRequest::parse(&buf).unwrap();

    assert_eq!(decoded.file_id, FileId::new(0x11, 0x22));
    assert_eq!(decoded.offset, 0x100);
    assert_eq!(decoded.channel, 1);
    assert_eq!(decoded.remaining_bytes, 512);
    assert_eq!(decoded.write_channel_info_offset, 48);
    assert_eq!(decoded.write_channel_info_length, 8);
    assert_eq!(decoded.flags, WriteRequest::FLAG_WRITE_UNBUFFERED);
    assert_eq!(decoded.data, [1, 2, 3, 4]);
}

#[test]
fn write_request_rejects_wrong_structure_size() {
    let mut buf = vec![0; 48];
    buf[0..2].copy_from_slice(&48u16.to_le_bytes());

    assert!(matches!(
        WriteRequest::parse(&buf),
        Err(ProtoError::Malformed(_))
    ));
}

#[test]
fn request_rejects_data_out_of_range() {
    let mut buf = vec![0; 48];
    buf[0..2].copy_from_slice(&49u16.to_le_bytes());
    buf[2..4]
        .copy_from_slice(&(SMB2_HEADER_LEN as u16 + 48).to_le_bytes());
    buf[4..8].copy_from_slice(&1u32.to_le_bytes());

    assert!(matches!(
        WriteRequest::parse(&buf),
        Err(ProtoError::Malformed(_))
    ));
}

#[test]
fn write_response_rejects_wrong_structure_size() {
    let buf = [16, 0, 0, 0, 0, 0, 0, 0, 0, 0, 0, 0, 0, 0, 0, 0];

    assert!(matches!(
        WriteResponse::parse(&buf),
        Err(ProtoError::Malformed(_))
    ));
}
