use smb_server::backend::{DirEntry, FileInfo, default_file_attributes};
use smb_server::info_class::directory::{
    encode_dir_entry_with_index, encode_dir_entry_with_index_and_posix,
};
use smb_server::info_class::ea::{
    ExtendedAttribute, decode_file_full_ea_information, encode_file_full_ea_information,
    full_ea_information_size,
};
use smb_server::info_class::security::{
    ACCESS_ALLOWED_ACE_TYPE, ACCESS_DENIED_ACE_TYPE, CONTAINER_INHERIT_ACE, OBJECT_INHERIT_ACE,
    encode_minimal_security_descriptor, encode_nil_dacl_security_descriptor,
    filter_security_descriptor, normalize_set_security_descriptor,
    security_descriptor_denies_access, security_descriptor_has_deny_ace,
    security_descriptor_has_inheritable_ace,
};
use smb_server::info_class::{
    FILE_BOTH_DIRECTORY_INFORMATION, FILE_ID_64_EXTD_BOTH_DIRECTORY_INFORMATION,
    FILE_ID_64_EXTD_DIRECTORY_INFORMATION, FILE_ID_ALL_EXTD_BOTH_DIRECTORY_INFORMATION,
    FILE_ID_ALL_EXTD_DIRECTORY_INFORMATION, FILE_ID_BOTH_DIRECTORY_INFORMATION,
    FILE_ID_EXTD_DIRECTORY_INFORMATION, FILE_POSIX_INFORMATION, FileStream, PosixMetadata,
    encode_file_all_information, encode_file_alternate_name_information,
    encode_file_attribute_tag_information, encode_file_basic_information,
    encode_file_compression_information, encode_file_id_information,
    encode_file_name_information, encode_file_network_open_information,
    encode_file_posix_information, encode_file_remote_protocol_information,
    encode_file_standard_information, encode_file_stream_information,
    encode_fs_attribute_information, encode_fs_control_information,
    encode_fs_full_size_information, encode_fs_size_information,
};
use smb_server::proto::messages::Dialect;

fn utf16le(s: &str) -> Vec<u8> {
    s.encode_utf16().flat_map(u16::to_le_bytes).collect()
}

fn fake_info() -> FileInfo {
    FileInfo {
        name: "file.txt".to_string(),
        end_of_file: 100,
        allocation_size: 100,
        creation_time: 0x01D9_0000_0000_0000,
        last_access_time: 0x01D9_0000_0000_0000,
        last_write_time: 0x01D9_0000_0000_0000,
        change_time: 0x01D9_0000_0000_0000,
        is_directory: false,
        file_index: 1,
        file_attributes: default_file_attributes(false),
    }
}

#[test]
fn basic_information_is_40_bytes() {
    let bytes = encode_file_basic_information(&fake_info());
    assert_eq!(bytes.len(), 40);
}

#[test]
fn standard_information_is_24_bytes() {
    let bytes = encode_file_standard_information(&fake_info(), false);
    assert_eq!(bytes.len(), 24);
}

#[test]
fn standard_information_includes_delete_pending() {
    let bytes = encode_file_standard_information(&fake_info(), true);
    assert_eq!(bytes[20], 1);
}

#[test]
fn network_open_information_is_56_bytes() {
    let bytes = encode_file_network_open_information(&fake_info());
    assert_eq!(bytes.len(), 56);
}

#[test]
fn file_stream_information_multi_record_chain_matches_gosmb_fixture() {
    let streams = [
        FileStream {
            name: "::$DATA".to_string(),
            size: 4,
            allocation: 4096,
        },
        FileStream {
            name: ":streamtwo:$DATA".to_string(),
            size: 12,
            allocation: 4096,
        },
    ];

    let output = encode_file_stream_information(&fake_info(), &streams);
    let first_next = u32::from_le_bytes(output[0..4].try_into().unwrap()) as usize;
    assert!(first_next > 0 && first_next < output.len());
    assert_eq!(u64::from_le_bytes(output[8..16].try_into().unwrap()), 4);

    let first_name_len = u32::from_le_bytes(output[4..8].try_into().unwrap()) as usize;
    assert_eq!(
        &output[24..24 + first_name_len],
        utf16le("::$DATA").as_slice()
    );

    let second = &output[first_next..];
    assert_eq!(u32::from_le_bytes(second[0..4].try_into().unwrap()), 0);
    assert_eq!(u64::from_le_bytes(second[8..16].try_into().unwrap()), 12);

    let second_name_len = u32::from_le_bytes(second[4..8].try_into().unwrap()) as usize;
    assert_eq!(
        &second[24..24 + second_name_len],
        utf16le(":streamtwo:$DATA").as_slice()
    );
}

#[test]
fn alternate_name_information_uses_dos_short_name() {
    let bytes = encode_file_alternate_name_information("torture_search.txt");
    assert_eq!(
        u32::from_le_bytes(bytes[0..4].try_into().unwrap()),
        "TORTUR~1.TXT".len() as u32 * 2
    );
    assert_eq!(&bytes[4..], &utf16le("TORTUR~1.TXT"));
}

#[test]
fn both_directory_information_includes_dos_short_name() {
    let mut info = fake_info();
    info.name = "torture_search.txt".to_string();
    let entry = DirEntry { info };

    let bytes = encode_dir_entry_with_index(FILE_BOTH_DIRECTORY_INFORMATION, &entry, 1, 1);

    let short = utf16le("TORTUR~1.TXT");
    assert_eq!(bytes[68], short.len() as u8);
    assert_eq!(&bytes[70..70 + short.len()], short.as_slice());
}

#[test]
fn file_id_both_directory_information_keeps_file_id_with_dos_short_name() {
    let mut info = fake_info();
    info.name = "another long name.bin".to_string();
    let entry = DirEntry { info };

    let bytes = encode_dir_entry_with_index(
        FILE_ID_BOTH_DIRECTORY_INFORMATION,
        &entry,
        1,
        0x1122_3344_5566_7788,
    );

    let short = utf16le("ANOTHE~1.BIN");
    assert_eq!(bytes[68], short.len() as u8);
    assert_eq!(&bytes[70..70 + short.len()], short.as_slice());
    assert_eq!(
        u64::from_le_bytes(bytes[96..104].try_into().unwrap()),
        0x1122_3344_5566_7788
    );
}

struct Case {
    class: u8,
    header_size: usize,
    file_id_off: usize,
    file_id128_off: Option<usize>,
    short_off: Option<usize>,
    name_off: usize,
    short_name: Option<&'static str>,
}

#[test]
fn extended_directory_information_classes_match_gosmb_offsets() {
    let mut info = fake_info();
    info.name = "extended name.txt".to_string();
    info.end_of_file = 5;
    info.allocation_size = 4096;
    info.file_attributes = 0x20;
    let entry = DirEntry { info };
    let name = utf16le("extended name.txt");

    for case in [
        Case {
            class: FILE_ID_EXTD_DIRECTORY_INFORMATION,
            header_size: 88,
            file_id_off: 72,
            file_id128_off: Some(72),
            short_off: None,
            name_off: 88,
            short_name: None,
        },
        Case {
            class: FILE_ID_64_EXTD_DIRECTORY_INFORMATION,
            header_size: 80,
            file_id_off: 72,
            file_id128_off: None,
            short_off: None,
            name_off: 80,
            short_name: None,
        },
        Case {
            class: FILE_ID_64_EXTD_BOTH_DIRECTORY_INFORMATION,
            header_size: 106,
            file_id_off: 72,
            file_id128_off: None,
            short_off: Some(80),
            name_off: 106,
            short_name: Some("EXTEND~1.TXT"),
        },
        Case {
            class: FILE_ID_ALL_EXTD_DIRECTORY_INFORMATION,
            header_size: 96,
            file_id_off: 72,
            file_id128_off: Some(80),
            short_off: None,
            name_off: 96,
            short_name: None,
        },
        Case {
            class: FILE_ID_ALL_EXTD_BOTH_DIRECTORY_INFORMATION,
            header_size: 122,
            file_id_off: 72,
            file_id128_off: Some(80),
            short_off: Some(96),
            name_off: 122,
            short_name: Some("EXTEND~1.TXT"),
        },
    ] {
        let bytes = encode_dir_entry_with_index(case.class, &entry, 7, 0x1122_3344_5566_7788);
        assert!(bytes.len() >= case.header_size);
        assert_eq!(u32::from_le_bytes(bytes[4..8].try_into().unwrap()), 7);
        assert_eq!(u64::from_le_bytes(bytes[40..48].try_into().unwrap()), 5);
        assert_eq!(u64::from_le_bytes(bytes[48..56].try_into().unwrap()), 4096);
        assert_eq!(u32::from_le_bytes(bytes[56..60].try_into().unwrap()), 0x20);
        assert_eq!(
            u32::from_le_bytes(bytes[60..64].try_into().unwrap()) as usize,
            name.len()
        );
        assert_eq!(u32::from_le_bytes(bytes[64..68].try_into().unwrap()), 0);
        assert_eq!(u32::from_le_bytes(bytes[68..72].try_into().unwrap()), 0);
        assert_eq!(
            u64::from_le_bytes(
                bytes[case.file_id_off..case.file_id_off + 8]
                    .try_into()
                    .unwrap()
            ),
            0x1122_3344_5566_7788
        );
        if let Some(off) = case.file_id128_off {
            assert_eq!(
                u64::from_le_bytes(bytes[off..off + 8].try_into().unwrap()),
                0x1122_3344_5566_7788
            );
            assert_eq!(
                u64::from_le_bytes(bytes[off + 8..off + 16].try_into().unwrap()),
                0
            );
        }
        if let (Some(off), Some(short)) = (case.short_off, case.short_name) {
            let short_len = bytes[off] as usize;
            assert_eq!(
                &bytes[off + 2..off + 2 + short_len],
                utf16le(short).as_slice()
            );
        }
        assert_eq!(
            &bytes[case.name_off..case.name_off + name.len()],
            name.as_slice()
        );
    }
}

#[test]
fn normalized_name_information_reuses_name_encoding() {
    let bytes = encode_file_name_information("dir\\file.txt");
    assert_eq!(
        u32::from_le_bytes(bytes[0..4].try_into().unwrap()),
        "dir\\file.txt".len() as u32 * 2
    );
    assert_eq!(&bytes[4..], &utf16le("dir\\file.txt"));
}

#[test]
fn compression_information_reports_uncompressed_storage() {
    let bytes = encode_file_compression_information();
    assert_eq!(bytes.len(), 16);
    assert!(bytes.iter().all(|b| *b == 0));
}

#[test]
fn attribute_tag_information_includes_attributes_and_zero_reparse_tag() {
    let bytes = encode_file_attribute_tag_information(&fake_info());
    assert_eq!(bytes.len(), 8);
    assert_eq!(u32::from_le_bytes(bytes[0..4].try_into().unwrap()), 0x20);
    assert_eq!(u32::from_le_bytes(bytes[4..8].try_into().unwrap()), 0);
}

#[test]
fn remote_protocol_information_includes_dialect_version() {
    let bytes = encode_file_remote_protocol_information(Some(Dialect::Smb311));
    assert_eq!(bytes.len(), 180);
    assert_eq!(u16::from_le_bytes(bytes[0..2].try_into().unwrap()), 1);
    assert_eq!(u16::from_le_bytes(bytes[2..4].try_into().unwrap()), 180);
    assert_eq!(
        u32::from_le_bytes(bytes[4..8].try_into().unwrap()),
        0x0002_0000
    );
    assert_eq!(u16::from_le_bytes(bytes[8..10].try_into().unwrap()), 3);
    assert_eq!(u16::from_le_bytes(bytes[10..12].try_into().unwrap()), 1);
    assert_eq!(u16::from_le_bytes(bytes[12..14].try_into().unwrap()), 1);
}

#[test]
fn file_id_information_is_24_bytes_with_reserved_gap() {
    let bytes = encode_file_id_information(0xAABB_CCDD_EEFF_0011, 0x1122_3344_5566_7788);
    assert_eq!(bytes.len(), 24);
    assert_eq!(
        u64::from_le_bytes(bytes[0..8].try_into().unwrap()),
        0xAABB_CCDD_EEFF_0011
    );
    assert_eq!(u64::from_le_bytes(bytes[8..16].try_into().unwrap()), 0);
    assert_eq!(
        u64::from_le_bytes(bytes[16..24].try_into().unwrap()),
        0x1122_3344_5566_7788
    );
}

#[test]
fn posix_information_uses_default_mode_and_root_identity() {
    let bytes = encode_file_posix_information(&fake_info(), 0x1020_3040_5060_7080, None);
    assert_eq!(bytes.len(), 136);
    assert_eq!(
        u64::from_le_bytes(bytes[40..48].try_into().unwrap()),
        fake_info().end_of_file
    );
    assert_eq!(
        u64::from_le_bytes(bytes[52..60].try_into().unwrap()),
        0x1020_3040_5060_7080
    );
    assert_eq!(u32::from_le_bytes(bytes[68..72].try_into().unwrap()), 1);
    assert_eq!(u32::from_le_bytes(bytes[76..80].try_into().unwrap()), 0o644);
    assert_eq!(u32::from_le_bytes(bytes[88..92].try_into().unwrap()), 88);
    assert_eq!(u32::from_le_bytes(bytes[92..96].try_into().unwrap()), 1);
    assert_eq!(u32::from_le_bytes(bytes[96..100].try_into().unwrap()), 0);
    assert_eq!(u32::from_le_bytes(bytes[116..120].try_into().unwrap()), 88);
    assert_eq!(u32::from_le_bytes(bytes[120..124].try_into().unwrap()), 2);
    assert_eq!(u32::from_le_bytes(bytes[124..128].try_into().unwrap()), 0);
}

#[test]
fn posix_information_uses_stored_mode_and_identity() {
    let bytes = encode_file_posix_information(
        &fake_info(),
        1,
        Some(PosixMetadata {
            mode: 0o600,
            uid: 1001,
            gid: 1001,
        }),
    );
    assert_eq!(u32::from_le_bytes(bytes[76..80].try_into().unwrap()), 0o600);
    assert_eq!(u32::from_le_bytes(bytes[96..100].try_into().unwrap()), 1001);
    assert_eq!(
        u32::from_le_bytes(bytes[124..128].try_into().unwrap()),
        1001
    );
}

#[test]
fn posix_directory_entry_has_148_byte_fixed_prefix() {
    let mut info = fake_info();
    info.name = "posix name.txt".to_string();
    info.end_of_file = 37;
    info.allocation_size = 4096;
    info.file_attributes = 0x20;
    let entry = DirEntry { info };
    let name = utf16le("posix name.txt");

    let bytes = encode_dir_entry_with_index_and_posix(
        FILE_POSIX_INFORMATION,
        &entry,
        9,
        0x1020_3040_5060_7080,
        Some(PosixMetadata {
            mode: 0o600,
            uid: 1001,
            gid: 1002,
        }),
    );
    assert_eq!(u32::from_le_bytes(bytes[4..8].try_into().unwrap()), 9);
    assert_eq!(u64::from_le_bytes(bytes[40..48].try_into().unwrap()), 4096);
    assert_eq!(u64::from_le_bytes(bytes[48..56].try_into().unwrap()), 37);
    assert_eq!(u32::from_le_bytes(bytes[56..60].try_into().unwrap()), 0x20);
    assert_eq!(
        u64::from_le_bytes(bytes[60..68].try_into().unwrap()),
        0x1020_3040_5060_7080
    );
    assert_eq!(u32::from_le_bytes(bytes[84..88].try_into().unwrap()), 0o600);
    assert_eq!(
        u32::from_le_bytes(bytes[144..148].try_into().unwrap()) as usize,
        name.len()
    );
    assert_eq!(&bytes[148..], name.as_slice());
}

#[test]
fn file_all_information_empty_name_keeps_linux_minimum_size() {
    let mut info = fake_info();
    info.name.clear();
    let bytes = encode_file_all_information(&info, 1, 0x001F_01FF, 0, 0, false);
    assert_eq!(bytes.len(), 101);
}

#[test]
fn file_all_information_ea_size_slot_matches_gosmb_zero() {
    let bytes = encode_file_all_information(&fake_info(), 1, 0x001F_01FF, 0, 0, false);
    assert_eq!(u32::from_le_bytes(bytes[72..76].try_into().unwrap()), 0);
}

#[test]
fn filesystem_information_encoders_match_gosmb_wire_sizes() {
    let size = encode_fs_size_information(1024, 512, 8, 512);
    assert_eq!(size.len(), 24);
    assert_ne!(u32::from_le_bytes(size[16..20].try_into().unwrap()), 0);

    let full = encode_fs_full_size_information(1024, 512, 512, 8, 512);
    assert_eq!(full.len(), 32);

    let control = encode_fs_control_information();
    assert_eq!(control.len(), 48);

    let attrs = encode_fs_attribute_information(0x0000_0007, 255, "GOSMB");
    assert!(attrs.len() > 12);
}

#[test]
fn file_all_information_includes_position_and_mode() {
    let bytes = encode_file_all_information(&fake_info(), 1, 0x001F_01FF, 123456, 2, false);
    assert_eq!(
        u64::from_le_bytes(bytes[80..88].try_into().unwrap()),
        123456
    );
    assert_eq!(u32::from_le_bytes(bytes[88..92].try_into().unwrap()), 2);
}

#[test]
fn file_all_information_includes_delete_pending() {
    let bytes = encode_file_all_information(&fake_info(), 1, 0x001F_01FF, 0, 0, true);
    assert_eq!(bytes[60], 1);
}

#[test]
fn full_ea_information_empty_is_four_zero_bytes_but_size_is_zero() {
    let bytes = encode_file_full_ea_information(&[]);
    assert_eq!(bytes, vec![0; 4]);
    assert_eq!(full_ea_information_size(&[]), 0);
    assert_eq!(decode_file_full_ea_information(&bytes).unwrap(), Vec::new());
}

#[test]
fn full_ea_information_round_trips_multiple_records() {
    let eas = vec![
        ExtendedAttribute {
            flags: 0,
            name: "EAONE".to_string(),
            value: b"VALUE1".to_vec(),
        },
        ExtendedAttribute {
            flags: 0x80,
            name: "SECONDEA".to_string(),
            value: b"ValueTwo".to_vec(),
        },
    ];
    let bytes = encode_file_full_ea_information(&eas);
    assert_eq!(full_ea_information_size(&eas), bytes.len() as u32);
    assert_eq!(decode_file_full_ea_information(&bytes).unwrap(), eas);
    assert_eq!(u32::from_le_bytes(bytes[0..4].try_into().unwrap()) % 4, 0);
}

#[test]
fn full_ea_information_rejects_missing_name_terminator() {
    let mut bytes = encode_file_full_ea_information(&[ExtendedAttribute {
        flags: 0,
        name: "EAONE".to_string(),
        value: b"VALUE1".to_vec(),
    }]);
    bytes[13] = b'!';
    assert!(decode_file_full_ea_information(&bytes).is_err());
}

#[test]
fn security_descriptor_is_self_relative() {
    let sd = encode_minimal_security_descriptor();
    assert!(sd.len() >= 20);
    assert_eq!(sd[0], 0x01);
    let control = u16::from_le_bytes(sd[2..4].try_into().unwrap());
    assert!(control & 0x8000 != 0);
    assert!(control & 0x0004 != 0);

    let owner = u32::from_le_bytes(sd[4..8].try_into().unwrap()) as usize;
    assert!((20..sd.len()).contains(&owner));

    let dacl = u32::from_le_bytes(sd[16..20].try_into().unwrap()) as usize;
    assert!((20..sd.len()).contains(&dacl));
}

#[test]
fn security_descriptor_filter_returns_full_for_zero_information() {
    let sd = encode_minimal_security_descriptor();
    assert_eq!(filter_security_descriptor(&sd, 0), sd);
}

#[test]
fn security_descriptor_filter_can_return_owner_only() {
    let sd = encode_minimal_security_descriptor();
    let filtered = filter_security_descriptor(&sd, 0x1);
    assert!(filtered.len() >= 20);
    assert_ne!(u32::from_le_bytes(filtered[4..8].try_into().unwrap()), 0);
    assert_eq!(u32::from_le_bytes(filtered[8..12].try_into().unwrap()), 0);
    assert_eq!(u32::from_le_bytes(filtered[16..20].try_into().unwrap()), 0);
    assert_eq!(
        u16::from_le_bytes(filtered[2..4].try_into().unwrap()),
        0x8000
    );
}

#[test]
fn security_descriptor_filter_preserves_dacl_present_when_requested() {
    let sd = encode_minimal_security_descriptor();
    let filtered = filter_security_descriptor(&sd, 0x4);
    assert_eq!(u32::from_le_bytes(filtered[4..8].try_into().unwrap()), 0);
    assert_eq!(u32::from_le_bytes(filtered[16..20].try_into().unwrap()), 20);
    assert_eq!(
        u16::from_le_bytes(filtered[2..4].try_into().unwrap()) & 0x8004,
        0x8004
    );
}

#[test]
fn set_security_descriptor_rejects_short_descriptor() {
    assert!(normalize_set_security_descriptor(&[0; 19]).is_none());
}

#[test]
fn set_security_descriptor_without_dacl_becomes_nil_dacl() {
    let mut sd = vec![0; 20];
    sd[0] = 1;
    sd[2..4].copy_from_slice(&0x8000u16.to_le_bytes());

    assert_eq!(
        normalize_set_security_descriptor(&sd).unwrap(),
        encode_nil_dacl_security_descriptor()
    );
}

#[test]
fn set_security_descriptor_with_dacl_is_preserved() {
    let mut sd = encode_minimal_security_descriptor();
    sd.extend_from_slice(&[0x11, 0x22]);
    assert_eq!(normalize_set_security_descriptor(&sd).unwrap(), sd);
}

#[test]
fn empty_dacl_denies_non_security_open_access() {
    let sd = test_empty_dacl_security_descriptor();
    assert!(security_descriptor_denies_access(&sd, 0x0000_0002));
}

#[test]
fn allow_only_dacl_denies_access_outside_allowed_mask() {
    let sd = test_security_descriptor_with_ace(ACCESS_ALLOWED_ACE_TYPE, 0, 0x0012_0089);
    assert!(!security_descriptor_denies_access(&sd, 0x0000_0001));
    assert!(security_descriptor_denies_access(&sd, 0x0000_0002));
}

#[test]
fn deny_ace_detection_matches_requested_access() {
    let sd = test_security_descriptor_with_ace(ACCESS_DENIED_ACE_TYPE, 0x02, 0x0000_0002);
    assert!(security_descriptor_has_deny_ace(&sd, 0x0000_0002));
    assert!(!security_descriptor_has_deny_ace(&sd, 0x0000_0004));
}

#[test]
fn inheritable_ace_detection_distinguishes_file_and_directory_children() {
    let object_sd = test_security_descriptor_with_ace(
        ACCESS_DENIED_ACE_TYPE,
        OBJECT_INHERIT_ACE,
        0x0000_0002,
    );
    assert!(security_descriptor_has_inheritable_ace(&object_sd, false));
    assert!(!security_descriptor_has_inheritable_ace(&object_sd, true));

    let container_sd = test_security_descriptor_with_ace(
        ACCESS_DENIED_ACE_TYPE,
        CONTAINER_INHERIT_ACE,
        0x0000_0002,
    );
    assert!(!security_descriptor_has_inheritable_ace(
        &container_sd,
        false
    ));
    assert!(security_descriptor_has_inheritable_ace(&container_sd, true));
}

fn test_security_descriptor_with_ace(ace_type: u8, ace_flags: u8, mask: u32) -> Vec<u8> {
    let everyone = [
        0x01, 0x01, 0x00, 0x00, 0x00, 0x00, 0x00, 0x01, 0x00, 0x00, 0x00, 0x00,
    ];

    let mut ace = Vec::new();
    ace.extend_from_slice(&[ace_type, ace_flags]);
    ace.extend_from_slice(&(8 + everyone.len() as u16).to_le_bytes());
    ace.extend_from_slice(&mask.to_le_bytes());
    ace.extend_from_slice(&everyone);

    let mut dacl = Vec::new();
    dacl.extend_from_slice(&[0x02, 0x00]);
    dacl.extend_from_slice(&(8 + ace.len() as u16).to_le_bytes());
    dacl.extend_from_slice(&1u16.to_le_bytes());
    dacl.extend_from_slice(&0u16.to_le_bytes());
    dacl.extend_from_slice(&ace);

    let mut sd = Vec::new();
    sd.extend_from_slice(&[0x01, 0x00]);
    sd.extend_from_slice(&0x8004u16.to_le_bytes());
    sd.extend_from_slice(&20u32.to_le_bytes());
    sd.extend_from_slice(&0u32.to_le_bytes());
    sd.extend_from_slice(&0u32.to_le_bytes());
    sd.extend_from_slice(&(20 + everyone.len() as u32).to_le_bytes());
    sd.extend_from_slice(&everyone);
    sd.extend_from_slice(&dacl);
    sd
}

fn test_empty_dacl_security_descriptor() -> Vec<u8> {
    let mut sd = vec![0; 28];
    sd[0] = 1;
    sd[2..4].copy_from_slice(&0x8004u16.to_le_bytes());
    sd[16..20].copy_from_slice(&20u32.to_le_bytes());
    sd[20] = 2;
    sd[22..24].copy_from_slice(&8u16.to_le_bytes());
    sd
}
