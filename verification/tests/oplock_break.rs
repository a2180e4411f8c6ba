use smb_server::proto::error::ProtoError;
use smb_server::proto::messages::{
    FileId, LeaseBreakAck, LeaseBreakNotification, OplockBreakNotification,
};

#[test]
fn oplock_break_round_trips() {
    let r = OplockBreakNotification {
        structure_size: 24,
        oplock_level: 0,
        reserved: 0,
        reserved2: 0,
        file_id: FileId::new(1, 2),
    };
    let mut buf = Vec::new();
    r.write_to(&mut buf).unwrap();
    assert_eq!(OplockBreakNotification::parse(&buf).unwrap(), r);
}

#[test]
fn oplock_break_rejects_wrong_structure_size() {
    let mut buf = vec![0; 24];
    buf[0..2].copy_from_slice(&25u16.to_le_bytes());

    assert!(matches!(
        OplockBreakNotification::parse(&buf),
        Err(ProtoError::Malformed(_))
    ));
}

#[test]
fn lease_break_ack_round_trips() {
    let r = LeaseBreakAck {
        structure_size: 36,
        reserved: 0,
        flags: 0,
        lease_key: *b"0123456789abcdef",
        lease_state: 1,
        lease_duration: 0,
    };
    let mut buf = Vec::new();
    r.write_to(&mut buf).unwrap();
    assert_eq!(buf.len(), 36);
    assert_eq!(LeaseBreakAck::parse(&buf).unwrap(), r);
}

#[test]
fn lease_break_ack_rejects_wrong_structure_size() {
    let mut buf = vec![0; 36];
    buf[0..2].copy_from_slice(&44u16.to_le_bytes());

    assert!(matches!(
        LeaseBreakAck::parse(&buf),
        Err(ProtoError::Malformed(_))
    ));
}

#[test]
fn lease_break_notification_round_trips() {
    let r = LeaseBreakNotification {
        structure_size: 44,
        new_epoch: 2,
        flags: 1,
        lease_key: *b"0123456789abcdef",
        current_lease_state: 7,
        new_lease_state: 1,
        break_reason: 0,
        access_mask_hint: 0,
        share_mask_hint: 0,
    };
    let mut buf = Vec::new();
    r.write_to(&mut buf).unwrap();
    assert_eq!(buf.len(), 44);
    assert_eq!(LeaseBreakNotification::parse(&buf).unwrap(), r);
}

#[test]
fn lease_break_wire_fields_match_gosmb_offsets() {
    let key = *b"0123456789abcdef";
    let ack = LeaseBreakAck {
        structure_size: 36,
        reserved: 0,
        flags: 0,
        lease_key: key,
        lease_state: 0,
        lease_duration: 0,
    };
    let mut ack_buf = Vec::new();
    ack.write_to(&mut ack_buf).unwrap();
    assert_eq!(u16::from_le_bytes(ack_buf[0..2].try_into().unwrap()), 36);
    assert_eq!(&ack_buf[8..24], &key);
    assert_eq!(u32::from_le_bytes(ack_buf[24..28].try_into().unwrap()), 0);

    let notification = LeaseBreakNotification {
        structure_size: 44,
        new_epoch: 8,
        flags: 1,
        lease_key: key,
        current_lease_state: 1,
        new_lease_state: 0,
        break_reason: 0,
        access_mask_hint: 0,
        share_mask_hint: 0,
    };
    let mut notify_buf = Vec::new();
    notification.write_to(&mut notify_buf).unwrap();
    assert_eq!(u16::from_le_bytes(notify_buf[0..2].try_into().unwrap()), 44);
    assert_eq!(u16::from_le_bytes(notify_buf[2..4].try_into().unwrap()), 8);
    assert_eq!(u32::from_le_bytes(notify_buf[4..8].try_into().unwrap()), 1);
    assert_eq!(&notify_buf[8..24], &key);
    assert_eq!(
        u32::from_le_bytes(notify_buf[24..28].try_into().unwrap()),
        1
    );
    assert_eq!(
        u32::from_le_bytes(notify_buf[28..32].try_into().unwrap()),
        0
    );
}

#[test]
fn oplock_break_wire_fields_match_gosmb_offsets() {
    let file_id = FileId::new(0x1122_3344_5566_7788, 0x99aa_bbcc_ddee_ff00);
    let message = OplockBreakNotification {
        structure_size: 24,
        oplock_level: 0x01,
        reserved: 0,
        reserved2: 0,
        file_id,
    };
    let mut buf = Vec::new();
    message.write_to(&mut buf).unwrap();

    assert_eq!(u16::from_le_bytes(buf[0..2].try_into().unwrap()), 24);
    assert_eq!(buf[2], 0x01);
    assert_eq!(
        u64::from_le_bytes(buf[8..16].try_into().unwrap()),
        file_id.persistent
    );
    assert_eq!(
        u64::from_le_bytes(buf[16..24].try_into().unwrap()),
        file_id.volatile
    );
}

#[test]
fn lease_break_notification_rejects_wrong_structure_size() {
    let mut buf = vec![0; 44];
    buf[0..2].copy_from_slice(&36u16.to_le_bytes());

    assert!(matches!(
        LeaseBreakNotification::parse(&buf),
        Err(ProtoError::Malformed(_))
    ));
}
