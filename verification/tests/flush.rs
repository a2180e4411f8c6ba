use smb_server::proto::error::ProtoError;
use smb_server::proto::messages::{FlushRequest, FlushResponse};

#[test]
fn flush_round_trips() {
    let r = FlushRequest::new(0x1122_3344_5566_7788, 0xAABB_CCDD_EEFF_0011);
    let mut buf = Vec::new();
    r.write_to(&mut buf).unwrap();
    assert_eq!(buf.len(), 24);
    assert_eq!(FlushRequest::parse(&buf).unwrap(), r);

    let r = FlushResponse::default();
    let mut buf = Vec::new();
    r.write_to(&mut buf).unwrap();
    assert_eq!(FlushResponse::parse(&buf).unwrap(), r);
}

#[test]
fn flush_request_rejects_wrong_structure_size() {
    let mut buf = vec![0; 24];
    buf[0..2].copy_from_slice(&23u16.to_le_bytes());

    assert!(matches!(
        FlushRequest::parse(&buf),
        Err(ProtoError::Malformed(_))
    ));
}

#[test]
fn flush_response_rejects_wrong_structure_size() {
    let buf = [3, 0, 0, 0];

    assert!(matches!(
        FlushResponse::parse(&buf),
        Err(ProtoError::Malformed(_))
    ));
}
