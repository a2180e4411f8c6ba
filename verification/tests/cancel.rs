use smb_server::proto::error::ProtoError;
use smb_server::proto::messages::CancelRequest;

#[test]
fn cancel_round_trips() {
    let r = CancelRequest::default();
    let mut buf = Vec::new();
    r.write_to(&mut buf).unwrap();
    assert_eq!(buf.len(), 4);
    assert_eq!(CancelRequest::parse(&buf).unwrap(), r);
}

#[test]
fn rejects_wrong_structure_size() {
    let buf = [5, 0, 0, 0];
    assert!(matches!(
        CancelRequest::parse(&buf),
        Err(ProtoError::Malformed(_))
    ));
}
