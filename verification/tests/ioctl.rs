use smb_server::proto::error::ProtoError;
use smb_server::proto::header::SMB2_HEADER_LEN;
use smb_server::proto::messages::{FileId, Fsctl, IoctlRequest, IoctlResponse};

#[test]
fn fsctl_decode_known() {
    assert_eq!(Fsctl::from_u32(0x0014_0204), Fsctl::ValidateNegotiateInfo);
    assert_eq!(Fsctl::from_u32(0x0009_00C0), Fsctl::CreateOrGetObjectId);
    assert_eq!(Fsctl::from_u32(0x0014_01D4), Fsctl::LmrRequestResiliency);
    assert_eq!(Fsctl::from_u32(0xDEAD_BEEF), Fsctl::Other(0xDEAD_BEEF));
    assert_eq!(Fsctl::ValidateNegotiateInfo.as_u32(), 0x0014_0204);
    assert_eq!(Fsctl::CreateOrGetObjectId.as_u32(), 0x0009_00C0);
    assert_eq!(Fsctl::LmrRequestResiliency.as_u32(), 0x0014_01D4);
    assert_eq!(Fsctl::Other(0xDEAD_BEEF).as_u32(), 0xDEAD_BEEF);
}

#[test]
fn ioctl_request_round_trips() {
    let r = IoctlRequest {
        structure_size: 57,
        reserved: 0,
        ctl_code: Fsctl::VALIDATE_NEGOTIATE_INFO,
        file_id: FileId::any(),
        input_offset: 0x78,
        input_count: 4,
        max_input_response: 0,
        output_offset: 0,
        output_count: 0,
        max_output_response: 0x1000,
        flags: IoctlRequest::FLAG_IS_FSCTL,
        reserved2: 0,
        input: vec![0xCA, 0xFE, 0xBA, 0xBE],
    };
    let mut buf = Vec::new();
    r.write_to(&mut buf).unwrap();
    let decoded = IoctlRequest::parse(&buf).unwrap();
    assert_eq!(decoded, r);
    assert_eq!(decoded.fsctl(), Fsctl::ValidateNegotiateInfo);
}

#[test]
fn request_decodes_padded_input_from_header_relative_offset() {
    let mut buf = vec![0; 64];
    buf[0..2].copy_from_slice(&57u16.to_le_bytes());
    buf[4..8].copy_from_slice(&Fsctl::PIPE_TRANSCEIVE.to_le_bytes());
    buf[8..16].copy_from_slice(&1u64.to_le_bytes());
    buf[16..24].copy_from_slice(&2u64.to_le_bytes());
    buf[24..28]
        .copy_from_slice(&(SMB2_HEADER_LEN as u32 + 60).to_le_bytes());
    buf[28..32].copy_from_slice(&4u32.to_le_bytes());
    buf[48..52].copy_from_slice(&IoctlRequest::FLAG_IS_FSCTL.to_le_bytes());
    buf[60..64].copy_from_slice(&[1, 2, 3, 4]);

    let decoded = IoctlRequest::parse(&buf).unwrap();

    assert_eq!(decoded.file_id, FileId::new(1, 2));
    assert_eq!(decoded.input, [1, 2, 3, 4]);
    assert_eq!(decoded.fsctl(), Fsctl::PipeTranscede);
}

#[test]
fn ioctl_request_rejects_wrong_structure_size() {
    let mut buf = vec![0; 56];
    buf[0..2].copy_from_slice(&56u16.to_le_bytes());

    assert!(matches!(
        IoctlRequest::parse(&buf),
        Err(ProtoError::Malformed(_))
    ));
}

#[test]
fn request_rejects_input_out_of_range() {
    let mut buf = vec![0; 56];
    buf[0..2].copy_from_slice(&57u16.to_le_bytes());
    buf[24..28]
        .copy_from_slice(&(SMB2_HEADER_LEN as u32 + 56).to_le_bytes());
    buf[28..32].copy_from_slice(&1u32.to_le_bytes());

    assert!(matches!(
        IoctlRequest::parse(&buf),
        Err(ProtoError::Malformed(_))
    ));
}

#[test]
fn ioctl_response_round_trips() {
    let r = IoctlResponse {
        structure_size: 49,
        reserved: 0,
        ctl_code: Fsctl::VALIDATE_NEGOTIATE_INFO,
        file_id: FileId::any(),
        input_offset: 0,
        input_count: 0,
        output_offset: 0x70,
        output_count: 4,
        flags: 0,
        reserved2: 0,
        output: vec![1, 2, 3, 4],
    };
    let mut buf = Vec::new();
    r.write_to(&mut buf).unwrap();
    assert_eq!(IoctlResponse::parse(&buf).unwrap(), r);
}

#[test]
fn response_decodes_padded_output_from_header_relative_offset() {
    let mut buf = vec![0; 56];
    buf[0..2].copy_from_slice(&49u16.to_le_bytes());
    buf[4..8].copy_from_slice(&Fsctl::VALIDATE_NEGOTIATE_INFO.to_le_bytes());
    buf[8..16].copy_from_slice(&1u64.to_le_bytes());
    buf[16..24].copy_from_slice(&2u64.to_le_bytes());
    buf[32..36]
        .copy_from_slice(&(SMB2_HEADER_LEN as u32 + 52).to_le_bytes());
    buf[36..40].copy_from_slice(&4u32.to_le_bytes());
    buf[52..56].copy_from_slice(&[5, 6, 7, 8]);

    let decoded = IoctlResponse::parse(&buf).unwrap();

    assert_eq!(decoded.file_id, FileId::new(1, 2));
    assert_eq!(decoded.output, [5, 6, 7, 8]);
}

#[test]
fn ioctl_response_rejects_wrong_structure_size() {
    let mut buf = vec![0; 48];
    buf[0..2].copy_from_slice(&48u16.to_le_bytes());

    assert!(matches!(
        IoctlResponse::parse(&buf),
        Err(ProtoError::Malformed(_))
    ));
}

#[test]
fn response_rejects_output_out_of_range() {
    let mut buf = vec![0; 48];
    buf[0..2].copy_from_slice(&49u16.to_le_bytes());
    buf[32..36]
        .copy_from_slice(&(SMB2_HEADER_LEN as u32 + 48).to_le_bytes());
    buf[36..40].copy_from_slice(&1u32.to_le_bytes());

    assert!(matches!(
        IoctlResponse::parse(&buf),
        Err(ProtoError::Malformed(_))
    ));
}
