use smb_server::proto::error::ProtoError;
use smb_server::proto::messages::{FileId, LockElement, LockRequest, LockResponse};

#[test]
fn lock_request_round_trips() {
    let r = LockRequest {
        structure_size: 48,
        lock_count: 2,
        lock_sequence: 0,
        file_id: FileId::new(1, 2),
        locks: vec![
            LockElement {
                offset: 0,
                length: 16,
                flags: LockElement::FLAG_EXCLUSIVE_LOCK,
                reserved: 0,
            },
            LockElement {
                offset: 0,
                length: 16,
                flags: LockElement::FLAG_UNLOCK,
                reserved: 0,
            },
        ],
    };
    let mut buf = Vec::new();
    r.write_to(&mut buf).unwrap();
    assert_eq!(LockRequest::parse(&buf).unwrap(), r);
}

#[test]
fn lock_response_round_trips() {
    let r = LockResponse::default();
    let mut buf = Vec::new();
    r.write_to(&mut buf).unwrap();
    assert_eq!(LockResponse::parse(&buf).unwrap(), r);
}

#[test]
fn lock_request_rejects_wrong_structure_size() {
    let mut buf = vec![0; 48];
    buf[0..2].copy_from_slice(&47u16.to_le_bytes());
    buf[2..4].copy_from_slice(&1u16.to_le_bytes());

    assert!(matches!(
        LockRequest::parse(&buf),
        Err(ProtoError::Malformed(_))
    ));
}

#[test]
fn request_rejects_zero_lock_count() {
    let mut buf = vec![0; 48];
    buf[0..2].copy_from_slice(&48u16.to_le_bytes());

    assert!(matches!(
        LockRequest::parse(&buf),
        Err(ProtoError::Malformed(_))
    ));
}

#[test]
fn request_rejects_truncated_lock_elements() {
    let mut buf = vec![0; 48];
    buf[0..2].copy_from_slice(&48u16.to_le_bytes());
    buf[2..4].copy_from_slice(&2u16.to_le_bytes());

    assert!(matches!(
        LockRequest::parse(&buf),
        Err(ProtoError::Malformed(_))
    ));
}

#[test]
fn lock_response_rejects_wrong_structure_size() {
    let buf = [3, 0, 0, 0];

    assert!(matches!(
        LockResponse::parse(&buf),
        Err(ProtoError::Malformed(_))
    ));
}
