use smb_server::proto::error::ProtoError;
use smb_server::proto::header::SMB2_HEADER_LEN;
use smb_server::proto::messages::{
    CreateContext, CreateRequest, CreateResponse, FileId, ImpersonationLevel, OplockLevel,
};

fn utf16le(s: &str) -> Vec<u8> {
    s.encode_utf16().flat_map(u16::to_le_bytes).collect()
}

fn create_request_with_raw_contexts(contexts: &[u8]) -> Vec<u8> {
    let mut body = vec![0; 56];
    body[0..2].copy_from_slice(&57u16.to_le_bytes());
    body[44..46]
        .copy_from_slice(&(SMB2_HEADER_LEN as u16 + 56).to_le_bytes());
    body[48..52]
        .copy_from_slice(&(SMB2_HEADER_LEN as u32 + 56).to_le_bytes());
    body[52..56].copy_from_slice(&(contexts.len() as u32).to_le_bytes());
    body.extend_from_slice(contexts);
    body
}

#[test]
fn create_request_round_trips() {
    let name = utf16le("dir\\file.txt");
    let r = CreateRequest {
        structure_size: 57,
        security_flags: 0,
        requested_oplock_level: 0,
        impersonation_level: ImpersonationLevel::Impersonation.as_u32(),
        smb_create_flags: 0,
        reserved: 0,
        desired_access: 0x0012_0089,
        file_attributes: 0,
        share_access: 0x0000_0007,
        create_disposition: 1,
        create_options: 0x0000_0040,
        name_offset: 0x78,
        name_length: name.len() as u16,
        create_contexts_offset: 0,
        create_contexts_length: 0,
        name,
        create_contexts: vec![],
    };
    let mut buf = Vec::new();
    r.write_to(&mut buf).unwrap();
    let decoded = CreateRequest::parse(&buf).unwrap();
    assert_eq!(decoded, r);
    assert_eq!(decoded.name_str().unwrap(), "dir\\file.txt");
}

#[test]
fn request_decodes_padded_name_from_header_relative_offset() {
    let name = utf16le("hi");
    let mut buf = vec![0; 68];
    buf[0..2].copy_from_slice(&57u16.to_le_bytes());
    buf[3] = 0x02;
    buf[4..8].copy_from_slice(&(ImpersonationLevel::Impersonation.as_u32()).to_le_bytes());
    buf[24..28].copy_from_slice(&0x0012_0089u32.to_le_bytes());
    buf[32..36].copy_from_slice(&0x7u32.to_le_bytes());
    buf[36..40].copy_from_slice(&1u32.to_le_bytes());
    buf[44..46]
        .copy_from_slice(&(SMB2_HEADER_LEN as u16 + 64).to_le_bytes());
    buf[46..48].copy_from_slice(&(name.len() as u16).to_le_bytes());
    buf[64..68].copy_from_slice(&name);

    let decoded = CreateRequest::parse(&buf).unwrap();

    assert_eq!(decoded.requested_oplock_level, 0x02);
    assert_eq!(decoded.name, name);
    assert_eq!(decoded.name_str().as_deref(), Some("hi"));
}

#[test]
fn request_decodes_gosmb_requested_oplock_fixture() {
    let name = utf16le("hello.txt");
    let mut buf = vec![0; 56 + name.len()];
    buf[0..2].copy_from_slice(&57u16.to_le_bytes());
    buf[3] = OplockLevel::Lease.as_u8();
    buf[4..8].copy_from_slice(&(ImpersonationLevel::Impersonation.as_u32()).to_le_bytes());
    buf[24..28].copy_from_slice(&0x8000_0000u32.to_le_bytes());
    buf[32..36].copy_from_slice(&0x0000_0007u32.to_le_bytes());
    buf[36..40].copy_from_slice(&1u32.to_le_bytes());
    buf[40..44].copy_from_slice(&0x0000_0040u32.to_le_bytes());
    buf[44..46]
        .copy_from_slice(&(SMB2_HEADER_LEN as u16 + 56).to_le_bytes());
    buf[46..48].copy_from_slice(&(name.len() as u16).to_le_bytes());
    buf[56..].copy_from_slice(&name);

    let decoded = CreateRequest::parse(&buf).unwrap();

    assert_eq!(decoded.requested_oplock_level, OplockLevel::Lease.as_u8());
    assert_eq!(
        decoded.impersonation_level,
        ImpersonationLevel::Impersonation.as_u32()
    );
    assert_eq!(decoded.desired_access, 0x8000_0000);
    assert_eq!(decoded.share_access, 0x0000_0007);
    assert_eq!(decoded.create_disposition, 1);
    assert_eq!(decoded.create_options, 0x0000_0040);
    assert_eq!(decoded.name_str().as_deref(), Some("hello.txt"));
}

#[test]
fn create_request_rejects_wrong_structure_size() {
    let mut buf = vec![0; 56];
    buf[0..2].copy_from_slice(&56u16.to_le_bytes());
    buf[44..46]
        .copy_from_slice(&(SMB2_HEADER_LEN as u16 + 56).to_le_bytes());

    assert!(matches!(
        CreateRequest::parse(&buf),
        Err(ProtoError::Malformed(_))
    ));
}

#[test]
fn request_rejects_odd_name_length() {
    let mut buf = vec![0; 57];
    buf[0..2].copy_from_slice(&57u16.to_le_bytes());
    buf[44..46]
        .copy_from_slice(&(SMB2_HEADER_LEN as u16 + 56).to_le_bytes());
    buf[46..48].copy_from_slice(&1u16.to_le_bytes());

    assert!(matches!(
        CreateRequest::parse(&buf),
        Err(ProtoError::Malformed(_))
    ));
}

#[test]
fn request_rejects_name_out_of_range() {
    let mut buf = vec![0; 56];
    buf[0..2].copy_from_slice(&57u16.to_le_bytes());
    buf[44..46]
        .copy_from_slice(&(SMB2_HEADER_LEN as u16 + 56).to_le_bytes());
    buf[46..48].copy_from_slice(&2u16.to_le_bytes());

    assert!(matches!(
        CreateRequest::parse(&buf),
        Err(ProtoError::Malformed(_))
    ));
}

#[test]
fn request_rejects_short_create_context_name() {
    let mut ctx = vec![0; 24];
    ctx[4..6].copy_from_slice(&16u16.to_le_bytes());
    ctx[6..8].copy_from_slice(&3u16.to_le_bytes());
    ctx[16..19].copy_from_slice(b"Bad");

    assert!(matches!(
        CreateRequest::parse(&create_request_with_raw_contexts(&ctx)),
        Err(ProtoError::Malformed(_))
    ));
}

#[test]
fn request_bounds_context_data_by_next_entry() {
    let mut first = vec![0; 24];
    let first_len = first.len() as u32;
    first[0..4].copy_from_slice(&first_len.to_le_bytes());
    first[4..6].copy_from_slice(&16u16.to_le_bytes());
    first[6..8].copy_from_slice(&4u16.to_le_bytes());
    first[10..12].copy_from_slice(&24u16.to_le_bytes());
    first[12..16].copy_from_slice(&16u32.to_le_bytes());
    first[16..20].copy_from_slice(&CreateContext::NAME_MXAC);

    let mut second = vec![0; 24];
    second[4..6].copy_from_slice(&16u16.to_le_bytes());
    second[6..8].copy_from_slice(&4u16.to_le_bytes());
    second[16..20].copy_from_slice(&CreateContext::NAME_QFID);

    let mut contexts = first;
    contexts.extend_from_slice(&second);

    assert!(matches!(
        CreateRequest::parse(&create_request_with_raw_contexts(&contexts)),
        Err(ProtoError::Malformed(_))
    ));
}

#[test]
fn create_response_round_trips() {
    let r = CreateResponse {
        structure_size: 89,
        oplock_level: 0,
        flags: 0,
        create_action: 1,
        creation_time: 0x01D9_0000_0000_0000,
        last_access_time: 0x01D9_0000_0000_0000,
        last_write_time: 0x01D9_0000_0000_0000,
        change_time: 0x01D9_0000_0000_0000,
        allocation_size: 0x1000,
        end_of_file: 0x800,
        file_attributes: 0x0020,
        reserved2: 0,
        file_id: FileId::new(0x1234, 0x5678),
        create_contexts_offset: 0,
        create_contexts_length: 0,
        create_contexts: vec![],
    };
    let mut buf = Vec::new();
    r.write_to(&mut buf).unwrap();
    let decoded = CreateResponse::parse(&buf).unwrap();
    assert_eq!(decoded, r);
}

#[test]
fn response_encodes_gosmb_granted_oplock_fixture() {
    let response = CreateResponse {
        structure_size: 89,
        oplock_level: OplockLevel::Ii.as_u8(),
        flags: 0,
        create_action: 1,
        creation_time: 0,
        last_access_time: 0,
        last_write_time: 0,
        change_time: 0,
        allocation_size: 0,
        end_of_file: 0,
        file_attributes: 0,
        reserved2: 0,
        file_id: FileId::new(1, 2),
        create_contexts_offset: 0,
        create_contexts_length: 0,
        create_contexts: Vec::new(),
    };
    let mut body = Vec::new();
    response.write_to(&mut body).unwrap();

    assert_eq!(body[2], OplockLevel::Ii.as_u8());
    assert_eq!(CreateResponse::parse(&body).unwrap().oplock_level, body[2]);
}

#[test]
fn response_decodes_padded_contexts_from_header_relative_offset() {
    let ctxs = [CreateContext {
        name: CreateContext::NAME_QFID.to_vec(),
        data: Vec::new(),
    }];
    let mut contexts = Vec::new();
    CreateContext::encode_chain(&ctxs, &mut contexts).unwrap();
    let mut buf = vec![0; 96 + contexts.len()];
    buf[0..2].copy_from_slice(&89u16.to_le_bytes());
    buf[4..8].copy_from_slice(&1u32.to_le_bytes());
    buf[64..72].copy_from_slice(&1u64.to_le_bytes());
    buf[72..80].copy_from_slice(&2u64.to_le_bytes());
    buf[80..84]
        .copy_from_slice(&(SMB2_HEADER_LEN as u32 + 96).to_le_bytes());
    buf[84..88].copy_from_slice(&(contexts.len() as u32).to_le_bytes());
    buf[96..].copy_from_slice(&contexts);

    let decoded = CreateResponse::parse(&buf).unwrap();

    assert_eq!(decoded.file_id, FileId::new(1, 2));
    assert_eq!(decoded.create_contexts, contexts);
}

#[test]
fn create_response_rejects_wrong_structure_size() {
    let mut buf = vec![0; 88];
    buf[0..2].copy_from_slice(&88u16.to_le_bytes());

    assert!(matches!(
        CreateResponse::parse(&buf),
        Err(ProtoError::Malformed(_))
    ));
}

#[test]
fn response_rejects_context_out_of_range() {
    let mut buf = vec![0; 88];
    buf[0..2].copy_from_slice(&89u16.to_le_bytes());
    buf[80..84]
        .copy_from_slice(&(SMB2_HEADER_LEN as u32 + 88).to_le_bytes());
    buf[84..88].copy_from_slice(&1u32.to_le_bytes());

    assert!(matches!(
        CreateResponse::parse(&buf),
        Err(ProtoError::Malformed(_))
    ));
}

#[test]
fn create_context_chain_round_trips_single() {
    let ctxs = vec![CreateContext {
        name: b"MxAc".to_vec(),
        data: vec![],
    }];
    let mut buf = Vec::new();
    CreateContext::encode_chain(&ctxs, &mut buf).unwrap();
    let decoded = CreateContext::parse_chain(&buf).unwrap();
    assert_eq!(decoded, ctxs);
}

#[test]
fn create_context_chain_round_trips_multi() {
    let ctxs = vec![
        CreateContext {
            name: b"DHnQ".to_vec(),
            data: vec![0u8; 16],
        },
        CreateContext {
            name: b"MxAc".to_vec(),
            data: vec![],
        },
        CreateContext {
            name: b"QFid".to_vec(),
            data: vec![0xAA; 32],
        },
    ];
    let mut buf = Vec::new();
    CreateContext::encode_chain(&ctxs, &mut buf).unwrap();
    let decoded = CreateContext::parse_chain(&buf).unwrap();
    assert_eq!(decoded, ctxs);
}

#[test]
fn empty_chain_round_trips() {
    let ctxs: Vec<CreateContext> = vec![];
    let mut buf = Vec::new();
    CreateContext::encode_chain(&ctxs, &mut buf).unwrap();
    assert!(buf.is_empty());
    let decoded = CreateContext::parse_chain(&buf).unwrap();
    assert!(decoded.is_empty());
}
