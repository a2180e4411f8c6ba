use smb_server::proto::error::ProtoError;
use smb_server::proto::header::SMB2_HEADER_LEN;
use smb_server::proto::messages::{FileId, ReadRequest, ReadResponse};

#[test]
fn read_request_round_trips() {
    let r = ReadRequest {
        structure_size: 49,
        padding: 0x50,
        flags: 0,
        length: 0x1000,
        offset: 0x2000,
        file_id: FileId::new(0xAAAA, 0xBBBB),
        minimum_count: 1,
        channel: 0,
        remaining_bytes: 0,
        read_channel_info_offset: 0,
        read_channel_info_length: 0,
        buffer: vec![0],
    };
    let mut buf = Vec::new();
    r.write_to(&mut buf).unwrap();
    assert_eq!(ReadRequest::parse(&buf).unwrap(), r);
}

#[test]
fn read_response_round_trips() {
    let r = ReadResponse {
        structure_size: 17,
        data_offset: ReadResponse::STANDARD_DATA_OFFSET,
        reserved: 0,
        data_length: 5,
        data_remaining: 0,
        flags: 0,
        data: vec![1, 2, 3, 4, 5],
    };
    let mut buf = Vec::new();
    r.write_to(&mut buf).unwrap();
    assert_eq!(ReadResponse::parse(&buf).unwrap(), r);
}

#[test]
fn request_accepts_fixed_body_without_trailing_padding_byte() {
    let mut buf = vec![0; 48];
    buf[0..2].copy_from_slice(&49u16.to_le_bytes());
    buf[2] = ReadResponse::STANDARD_DATA_OFFSET;
    buf[4..8].copy_from_slice(&0x1000u32.to_le_bytes());
    buf[8..16].copy_from_slice(&0x2000u64.to_le_bytes());
    buf[16..24].copy_from_slice(&0x11u64.to_le_bytes());
    buf[24..32].copy_from_slice(&0x22u64.to_le_bytes());
    buf[32..36].copy_from_slice(&128u32.to_le_bytes());
    buf[36..40].copy_from_slice(&1u32.to_le_bytes());
    buf[40..44].copy_from_slice(&256u32.to_le_bytes());
    buf[44..46].copy_from_slice(&48u16.to_le_bytes());
    buf[46..48].copy_from_slice(&8u16.to_le_bytes());

    let decoded = ReadRequest::parse(&buf).unwrap();

    assert_eq!(decoded.file_id, FileId::new(0x11, 0x22));
    assert_eq!(decoded.length, 0x1000);
    assert_eq!(decoded.offset, 0x2000);
    assert_eq!(decoded.minimum_count, 128);
    assert_eq!(decoded.channel, 1);
    assert_eq!(decoded.remaining_bytes, 256);
    assert_eq!(decoded.read_channel_info_offset, 48);
    assert_eq!(decoded.read_channel_info_length, 8);
    assert!(decoded.buffer.is_empty());
}

#[test]
fn read_request_rejects_wrong_structure_size() {
    let mut buf = vec![0; 48];
    buf[0..2].copy_from_slice(&48u16.to_le_bytes());

    assert!(matches!(
        ReadRequest::parse(&buf),
        Err(ProtoError::Malformed(_))
    ));
}

#[test]
fn response_decodes_padded_data_from_header_relative_offset() {
    let mut buf = vec![0; 24];
    buf[0..2].copy_from_slice(&17u16.to_le_bytes());
    buf[2] = SMB2_HEADER_LEN as u8 + 20;
    buf[4..8].copy_from_slice(&4u32.to_le_bytes());
    buf[8..12].copy_from_slice(&2u32.to_le_bytes());
    buf[12..16].copy_from_slice(&1u32.to_le_bytes());
    buf[20..24].copy_from_slice(&[9, 8, 7, 6]);

    let decoded = ReadResponse::parse(&buf).unwrap();

    assert_eq!(decoded.data, [9, 8, 7, 6]);
    assert_eq!(decoded.data_remaining, 2);
    assert_eq!(decoded.flags, 1);
}

#[test]
fn read_response_rejects_wrong_structure_size() {
    let buf = [16, 0, ReadResponse::STANDARD_DATA_OFFSET, 0, 0, 0, 0, 0];

    assert!(matches!(
        ReadResponse::parse(&buf),
        Err(ProtoError::Malformed(_))
    ));
}

#[test]
fn response_rejects_data_out_of_range() {
    let mut buf = vec![0; 16];
    buf[0..2].copy_from_slice(&17u16.to_le_bytes());
    buf[2] = ReadResponse::STANDARD_DATA_OFFSET;
    buf[4..8].copy_from_slice(&1u32.to_le_bytes());

    assert!(matches!(
        ReadResponse::parse(&buf),
        Err(ProtoError::Malformed(_))
    ));
}
