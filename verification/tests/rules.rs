use smb_server::ntstatus::{STATUS_CANCELLED, STATUS_NOTIFY_CLEANUP, STATUS_RANGE_NOT_LOCKED};
use smb_server::server::rules::{
    access_is_lease_stat_open, cleanup_status_for_byte_range_lock_wait,
    durable_reconnect_caching_valid, normalize_stored_file_attributes, oplock_break_target,
    preserve_detached_durable_for_fresh_open, ranges_overlap, round_allocation_size,
    share_conflict, share_enforced_by_access, staged_lease_break_target,
    valid_lease_break_ack_state, valid_oplock_break_ack_for_target, volume_id_for_share,
    RequestedLease, DELETE, FILE_APPEND_DATA, FILE_EXECUTE, FILE_READ_ATTRIBUTES, FILE_READ_DATA,
    FILE_SHARE_ALL, FILE_SHARE_DELETE, FILE_SHARE_READ, FILE_SHARE_WRITE, FILE_WRITE_ATTRIBUTES,
    FILE_WRITE_DATA, OPLOCK_BATCH, OPLOCK_EXCLUSIVE, OPLOCK_LEVEL_II, OPLOCK_NONE, SYNCHRONIZE,
};

#[test]
fn access_conflicts_with_what_is_not_shared() {
    for (access, share) in [
        (FILE_READ_DATA, FILE_SHARE_READ),
        (FILE_EXECUTE, FILE_SHARE_READ),
        (FILE_WRITE_DATA, FILE_SHARE_WRITE),
        (FILE_APPEND_DATA, FILE_SHARE_WRITE),
        (DELETE, FILE_SHARE_DELETE),
    ] {
        assert!(share_enforced_by_access(access));
        assert!(share_conflict(access, FILE_SHARE_ALL & !share));
        assert!(!share_conflict(access, share));
        assert!(!share_conflict(access, FILE_SHARE_ALL));
    }
    assert!(!share_enforced_by_access(FILE_READ_ATTRIBUTES | SYNCHRONIZE));
    assert!(!share_conflict(FILE_READ_ATTRIBUTES, 0));
}

#[test]
fn only_attribute_access_is_a_stat_open() {
    assert!(access_is_lease_stat_open(FILE_READ_ATTRIBUTES | FILE_WRITE_ATTRIBUTES | SYNCHRONIZE));
    assert!(!access_is_lease_stat_open(FILE_READ_ATTRIBUTES | FILE_READ_DATA));
    assert!(!access_is_lease_stat_open(DELETE));
}

#[test]
fn overlaps_are_mutual_and_need_a_common_byte() {
    let cases = [
        ((0, 10), (9, 1), true),
        ((0, 10), (10, 1), false),
        ((5, 5), (0, 5), false),
        ((5, 5), (0, 6), true),
        ((u64::MAX, 1), (0, u64::MAX), false),
        ((u64::MAX, 1), (1, u64::MAX), true),
        // An empty range overlaps what it lies within.
        ((5, 0), (0, 10), true),
        ((0, 0), (0, 10), false),
        ((10, 0), (0, 10), false),
        ((5, 0), (5, 0), false),
    ];
    for ((a, al), (b, bl), expected) in cases {
        assert_eq!(ranges_overlap(a, al, b, bl), expected);
        assert_eq!(ranges_overlap(b, bl, a, al), expected);
    }
}

#[test]
fn allocations_are_whole_clusters() {
    assert_eq!(round_allocation_size(0), 0);
    assert_eq!(round_allocation_size(1), 4096);
    assert_eq!(round_allocation_size(4096), 4096);
    assert_eq!(round_allocation_size(4097), 8192);
    assert_eq!(round_allocation_size(u64::MAX), u64::MAX - 4095);
}

#[test]
fn stored_attributes_keep_what_means_something() {
    assert_eq!(normalize_stored_file_attributes(0, false), 0x80);
    assert_eq!(normalize_stored_file_attributes(0x80, false), 0x80);
    assert_eq!(normalize_stored_file_attributes(0xA1, false), 0x21);
    assert_eq!(normalize_stored_file_attributes(0x10, false), 0x80);
    assert_eq!(normalize_stored_file_attributes(0x22, true), 0x12);
    assert_eq!(normalize_stored_file_attributes(0xFFFF_FFFF, true), 0x1117);
    for attributes in [0, 0x21, 0x80, 0x11B7, 0xFFFF_FFFF] {
        for directory in [false, true] {
            let once = normalize_stored_file_attributes(attributes, directory);
            assert_eq!(normalize_stored_file_attributes(once, directory), once);
        }
    }
}

#[test]
fn volume_ids_ignore_case() {
    assert_eq!(volume_id_for_share("share"), 0x6E30_8E49_3ACB_8858);
    assert_eq!(volume_id_for_share("SHARE"), 0x6E30_8E49_3ACB_8858);
    assert_eq!(volume_id_for_share(""), 0xCBF2_9CE4_8422_2325);
}

#[test]
fn lease_breaks_go_by_stages() {
    assert_eq!(staged_lease_break_target(7, 0), 3);
    assert_eq!(staged_lease_break_target(3, 0), 1);
    assert_eq!(staged_lease_break_target(1, 0), 0);
    assert_eq!(staged_lease_break_target(0, 0), 0);
    assert_eq!(staged_lease_break_target(7, 1), 3);
    assert_eq!(staged_lease_break_target(7, 5), 5);
    assert_eq!(staged_lease_break_target(5, 7), 5);
}

#[test]
fn acknowledgments_must_not_ask_for_more() {
    assert!(valid_lease_break_ack_state(0, 0));
    assert!(valid_lease_break_ack_state(1, 3));
    assert!(!valid_lease_break_ack_state(4, 3));
    assert!(!valid_lease_break_ack_state(2, 3));
    assert!(valid_oplock_break_ack_for_target(OPLOCK_NONE, OPLOCK_LEVEL_II));
    assert!(valid_oplock_break_ack_for_target(OPLOCK_LEVEL_II, OPLOCK_LEVEL_II));
    assert!(!valid_oplock_break_ack_for_target(OPLOCK_LEVEL_II, OPLOCK_NONE));
}

#[test]
fn oplocks_are_broken_downwards() {
    assert_eq!(oplock_break_target(OPLOCK_BATCH, OPLOCK_LEVEL_II), OPLOCK_LEVEL_II);
    assert_eq!(oplock_break_target(OPLOCK_EXCLUSIVE, OPLOCK_NONE), OPLOCK_NONE);
    assert_eq!(oplock_break_target(OPLOCK_LEVEL_II, OPLOCK_LEVEL_II), OPLOCK_LEVEL_II);
    assert_eq!(oplock_break_target(OPLOCK_NONE, OPLOCK_NONE), OPLOCK_NONE);
}

#[test]
fn waiting_locks_are_told_that_the_range_is_not_locked() {
    assert_eq!(
        cleanup_status_for_byte_range_lock_wait(STATUS_NOTIFY_CLEANUP),
        STATUS_RANGE_NOT_LOCKED
    );
    assert_eq!(cleanup_status_for_byte_range_lock_wait(STATUS_CANCELLED), STATUS_CANCELLED);
}

#[test]
fn detached_opens_are_spared_by_those_who_cache_handles() {
    let key = [1; 16];
    let wants = |state: u32, key: [u8; 16]| Some(RequestedLease { key, state });
    assert!(preserve_detached_durable_for_fresh_open(2, 3, key, wants(3, [2; 16])));
    assert!(preserve_detached_durable_for_fresh_open(2, 7, key, wants(7, key)));
    assert!(!preserve_detached_durable_for_fresh_open(2, 7, key, wants(7, [2; 16])));
    assert!(!preserve_detached_durable_for_fresh_open(2, 3, key, wants(1, key)));
    assert!(!preserve_detached_durable_for_fresh_open(1, 3, key, wants(3, key)));
    assert!(!preserve_detached_durable_for_fresh_open(2, 3, key, None));
}

#[test]
fn reconnecting_needs_handle_caching_or_a_batch_oplock() {
    assert!(durable_reconnect_caching_valid(3, OPLOCK_NONE));
    assert!(!durable_reconnect_caching_valid(1, OPLOCK_BATCH));
    assert!(durable_reconnect_caching_valid(0, OPLOCK_BATCH));
    assert!(!durable_reconnect_caching_valid(0, OPLOCK_EXCLUSIVE));
}
