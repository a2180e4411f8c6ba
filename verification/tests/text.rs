use smb_server::error::SmbError;
use smb_server::info_class::ea::{
    decode_file_full_ea_information, encode_file_full_ea_information, ExtendedAttribute,
};
use smb_server::info_class::short_name::make_short_name;
use smb_server::path::SmbPath;
use smb_server::text::{decode_utf16le, encode_utf16le};

#[test]
fn short_names_hold_letters_and_digits() {
    assert_eq!(make_short_name("long file name.text"), "LONGFI~1.TEX");
    assert_eq!(make_short_name("a-b_c"), "ABC~1");
    assert_eq!(make_short_name("--.--"), "FILE~1");
    assert_eq!(make_short_name(" . "), "");
    assert_eq!(make_short_name(".."), "");
    assert_eq!(make_short_name(".profile"), "FILE~1.PRO");
    assert_eq!(make_short_name("a.b.c"), "A~1.BC");
}

#[test]
fn short_names_are_in_upper_case_beyond_ascii() {
    // The length is counted in bytes of UTF-8, and only the first letter of an upper
    // case that has several is kept.
    assert_eq!(make_short_name("ébcdef.txt"), "ÉBCDE~1.TXT");
    assert_eq!(make_short_name("straße"), "STRASE~1");
    assert_eq!(make_short_name("日本語"), "日本~1");
    assert_eq!(make_short_name("☃"), "FILE~1");
}

#[test]
fn attributes_beyond_ascii_come_back() {
    let eas = vec![
        ExtendedAttribute { flags: 0, name: "größe".to_string(), value: b"1".to_vec() },
        ExtendedAttribute { flags: 0x80, name: "b".to_string(), value: vec![] },
    ];
    let bytes = encode_file_full_ea_information(&eas);
    assert_eq!(decode_file_full_ea_information(&bytes), Ok(eas));
}

#[test]
fn attribute_names_are_utf8() {
    let record = |name: u8| vec![0, 0, 0, 0, 0, 1, 0, 0, name, 0];
    assert!(decode_file_full_ea_information(&record(b'a')).is_ok());
    assert_eq!(decode_file_full_ea_information(&record(0xFF)), Err(()));
}

#[test]
fn attributes_must_be_whole() {
    assert_eq!(decode_file_full_ea_information(&[]), Ok(vec![]));
    assert_eq!(decode_file_full_ea_information(&[0; 4]), Ok(vec![]));
    // No name, a value that is not there, and a next record outside.
    assert_eq!(decode_file_full_ea_information(&[0, 0, 0, 0, 0, 0, 1, 0, 0, 9]), Err(()));
    assert_eq!(decode_file_full_ea_information(&[0, 0, 0, 0, 0, 1, 1, 0, b'a', 0]), Err(()));
    assert_eq!(decode_file_full_ea_information(&[12, 0, 0, 0, 0, 1, 0, 0, b'a', 0]), Err(()));
}

#[test]
fn names_come_back_from_utf16() {
    for s in ["", "a", "größe", "日本", "😀x"] {
        assert_eq!(decode_utf16le(&encode_utf16le(s)).as_deref(), Some(s));
    }
    assert_eq!(encode_utf16le("😀"), vec![0x3D, 0xD8, 0x00, 0xDE]);
    assert_eq!(decode_utf16le(&[0x61]), None);
}

#[test]
fn names_that_are_no_utf16_are_mended() {
    assert_eq!(decode_utf16le(&[0x3D, 0xD8, 0x61, 0]).as_deref(), Some("\u{FFFD}a"));
    assert_eq!(decode_utf16le(&[0x00, 0xDE]).as_deref(), Some("\u{FFFD}"));
    assert_eq!(decode_utf16le(&[0x3D, 0xD8]).as_deref(), Some("\u{FFFD}"));
}

#[test]
fn paths_are_split_at_separators() {
    let p = SmbPath::parse("\\a\\\\b/c\\");
    assert_eq!(p.components, vec!["a", "b", "c"]);
    assert!(SmbPath::parse("").is_root());
    assert_eq!(p.parent().expect("a parent").components, vec!["a", "b"]);
    assert!(SmbPath::parse("").parent().is_none());
}

#[test]
fn errors_have_a_status() {
    assert_eq!(SmbError::NotFound.to_nt_status(), 0xC000_0034);
    assert_eq!(SmbError::PathNotFound.to_nt_status(), 0xC000_003A);
    assert_eq!(SmbError::Exists.to_nt_status(), 0xC000_0035);
    assert_eq!(SmbError::NotSupported.to_nt_status(), 0xC000_00BB);
    assert_eq!(SmbError::NotADirectory.to_nt_status(), 0xC000_0103);
}
