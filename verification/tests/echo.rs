use smb_server::proto::error::ProtoError;
use smb_server::proto::messages::{EchoRequest, EchoResponse};

#[test]
fn echo_round_trips() {
    let req = EchoRequest::default();
    let mut buf = Vec::new();
    req.write_to(&mut buf).unwrap();
    assert_eq!(buf.len(), 4);
    assert_eq!(EchoRequest::parse(&buf).unwrap(), req);

    let resp = EchoResponse::default();
    let mut buf = Vec::new();
    resp.write_to(&mut buf).unwrap();
    assert_eq!(EchoResponse::parse(&buf).unwrap(), resp);
}

#[test]
fn echo_request_rejects_wrong_structure_size() {
    let buf = [5, 0, 0, 0];
    assert!(matches!(
        EchoRequest::parse(&buf),
        Err(ProtoError::Malformed(_))
    ));
}

#[test]
fn echo_response_rejects_wrong_structure_size() {
    let buf = [5, 0, 0, 0];
    assert!(matches!(
        EchoResponse::parse(&buf),
        Err(ProtoError::Malformed(_))
    ));
}
