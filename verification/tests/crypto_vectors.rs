use smb_server::proto::crypto::ccm::{ccm_open, ccm_seal};
use smb_server::proto::crypto::encryption::{
    decrypt_ccm, decrypt_gcm, encrypt_ccm, encrypt_ccm_with_nonce, encrypt_gcm,
    encrypt_gcm_with_nonce, encryption_key_300_c2s, encryption_key_300_s2c, encryption_key_311_c2s,
    encryption_key_311_s2c_256, finish_gcm_open, finish_gcm_seal, is_encryption_transform,
};
use smb_server::proto::crypto::kdf::{smb2_kdf, smb2_kdf_bytes};
use smb_server::proto::error::ProtoError;

const KEY_128: &[u8] = b"0123456789abcdef";
const KEY_256: &[u8] = b"0123456789abcdef0123456789abcdef";
const SESSION_ID: u64 = 0x1122;
const NONCE: [u8; 12] = [0, 1, 2, 3, 4, 5, 6, 7, 8, 9, 10, 11];

const PLAIN: [u8; 27] = [
    0xFE, 0x53, 0x4D, 0x42, 0x01, 0x02, 0x03, 0x04, 0x30, 0x31, 0x32, 0x33, 0x34, 0x35, 0x36,
    0x37, 0x38, 0x39, 0x61, 0x62, 0x63, 0x64, 0x65, 0x66, 0x58, 0x59, 0x5A,
];

const GCM_128: [u8; 79] = [
    0xFD, 0x53, 0x4D, 0x42, 0x2E, 0x43, 0x14, 0x0F, 0x4F, 0x02, 0xD0, 0x19, 0x27, 0x83, 0x33,
    0x67, 0x7A, 0xA7, 0xEB, 0x0C, 0x00, 0x01, 0x02, 0x03, 0x04, 0x05, 0x06, 0x07, 0x08, 0x09,
    0x0A, 0x0B, 0x00, 0x00, 0x00, 0x00, 0x1B, 0x00, 0x00, 0x00, 0x00, 0x00, 0x01, 0x00, 0x22,
    0x11, 0x00, 0x00, 0x00, 0x00, 0x00, 0x00, 0x03, 0x6C, 0x89, 0x5F, 0x1F, 0x76, 0x38, 0x32,
    0xD8, 0x17, 0x35, 0x29, 0xF4, 0xAE, 0x86, 0x1A, 0x38, 0xEE, 0x36, 0x98, 0x64, 0xD7, 0x2F,
    0x2D, 0x2F, 0x30, 0xB0,
];

const GCM_256: [u8; 79] = [
    0xFD, 0x53, 0x4D, 0x42, 0x63, 0x61, 0x6C, 0x6B, 0x5B, 0xAD, 0x01, 0x09, 0x9C, 0xEC, 0xA0,
    0xA5, 0x15, 0xD8, 0x23, 0xA9, 0x00, 0x01, 0x02, 0x03, 0x04, 0x05, 0x06, 0x07, 0x08, 0x09,
    0x0A, 0x0B, 0x00, 0x00, 0x00, 0x00, 0x1B, 0x00, 0x00, 0x00, 0x00, 0x00, 0x01, 0x00, 0x22,
    0x11, 0x00, 0x00, 0x00, 0x00, 0x00, 0x00, 0xD3, 0xB6, 0xF6, 0x3E, 0xD8, 0x1A, 0xD1, 0xA8,
    0x98, 0xED, 0x43, 0x8D, 0x45, 0xFA, 0xE7, 0x33, 0xDE, 0x31, 0x62, 0xE5, 0x5F, 0xD8, 0x11,
    0xED, 0x78, 0x85, 0xE1,
];

const CCM_128: [u8; 79] = [
    0xFD, 0x53, 0x4D, 0x42, 0xA2, 0xD2, 0xB9, 0x7E, 0x6E, 0x02, 0xA5, 0xB0, 0x7E, 0x92, 0xF6,
    0x4C, 0xA6, 0xB0, 0x42, 0x02, 0x00, 0x01, 0x02, 0x03, 0x04, 0x05, 0x06, 0x07, 0x08, 0x09,
    0x0A, 0x00, 0x00, 0x00, 0x00, 0x00, 0x1B, 0x00, 0x00, 0x00, 0x00, 0x00, 0x01, 0x00, 0x22,
    0x11, 0x00, 0x00, 0x00, 0x00, 0x00, 0x00, 0xEA, 0xF2, 0x2A, 0x1A, 0xF1, 0xB7, 0x85, 0x64,
    0xAB, 0x29, 0x09, 0xBC, 0xB9, 0x7E, 0x88, 0x3D, 0xD8, 0x88, 0x82, 0x90, 0xA4, 0xEB, 0x04,
    0x75, 0x58, 0xAD, 0xB1,
];

const CCM_256: [u8; 79] = [
    0xFD, 0x53, 0x4D, 0x42, 0xD3, 0x19, 0x04, 0x2B, 0xBE, 0x26, 0xCD, 0x82, 0xB3, 0x7C, 0xA0,
    0x72, 0x70, 0x55, 0x9B, 0x23, 0x00, 0x01, 0x02, 0x03, 0x04, 0x05, 0x06, 0x07, 0x08, 0x09,
    0x0A, 0x00, 0x00, 0x00, 0x00, 0x00, 0x1B, 0x00, 0x00, 0x00, 0x00, 0x00, 0x01, 0x00, 0x22,
    0x11, 0x00, 0x00, 0x00, 0x00, 0x00, 0x00, 0xEA, 0xB0, 0xA1, 0x8E, 0x7C, 0x88, 0x97, 0xE3,
    0xCE, 0x7F, 0x28, 0x9E, 0x8C, 0x16, 0xEF, 0xAF, 0x26, 0xCC, 0xCB, 0xAF, 0x4D, 0xE9, 0x35,
    0xF4, 0xB1, 0x07, 0xF3,
];

#[test]
fn gcm_frames_have_known_bytes() {
    let sealed = encrypt_gcm_with_nonce(KEY_128, SESSION_ID, &PLAIN, &NONCE).expect("seal");
    assert_eq!(sealed, GCM_128);
    let sealed = encrypt_gcm_with_nonce(KEY_256, SESSION_ID, &PLAIN, &NONCE).expect("seal");
    assert_eq!(sealed, GCM_256);
    assert_eq!(decrypt_gcm(KEY_128, &GCM_128).expect("open"), PLAIN);
    assert_eq!(decrypt_gcm(KEY_256, &GCM_256).expect("open"), PLAIN);
}

#[test]
fn ccm_frames_have_known_bytes() {
    let sealed = encrypt_ccm_with_nonce(KEY_128, SESSION_ID, &PLAIN, &NONCE[..11]).expect("seal");
    assert_eq!(sealed, CCM_128);
    let sealed = encrypt_ccm_with_nonce(KEY_256, SESSION_ID, &PLAIN, &NONCE[..11]).expect("seal");
    assert_eq!(sealed, CCM_256);
    assert_eq!(decrypt_ccm(KEY_128, &CCM_128).expect("open"), PLAIN);
    assert_eq!(decrypt_ccm(KEY_256, &CCM_256).expect("open"), PLAIN);
}

#[test]
fn random_nonces_differ() {
    let a = encrypt_gcm(KEY_128, SESSION_ID, &PLAIN).expect("seal");
    let b = encrypt_gcm(KEY_128, SESSION_ID, &PLAIN).expect("seal");
    assert_ne!(a[20..32], b[20..32]);
    let a = encrypt_ccm(KEY_128, SESSION_ID, &PLAIN).expect("seal");
    let b = encrypt_ccm(KEY_128, SESSION_ID, &PLAIN).expect("seal");
    assert_ne!(a[20..31], b[20..31]);
    assert_eq!(decrypt_ccm(KEY_128, &a).expect("open"), PLAIN);
}

#[test]
fn keys_of_other_lengths_are_refused() {
    assert_eq!(
        encrypt_gcm_with_nonce(b"short", 1, &PLAIN, &NONCE),
        Err(ProtoError::Crypto("unsupported AES-GCM key length"))
    );
    assert_eq!(
        decrypt_gcm(b"short", &GCM_128),
        Err(ProtoError::Crypto("unsupported AES-GCM key length"))
    );
    assert!(matches!(
        encrypt_ccm_with_nonce(b"short", 1, &PLAIN, &NONCE[..11]),
        Err(ProtoError::Crypto(_))
    ));
    assert!(matches!(decrypt_ccm(b"short", &CCM_128), Err(ProtoError::Crypto(_))));
}

#[test]
fn frames_that_are_no_transforms_are_refused() {
    assert!(is_encryption_transform(&GCM_128));
    assert!(!is_encryption_transform(&GCM_128[..3]));
    assert!(!is_encryption_transform(b"\xFESMB"));
    let invalid = Err(ProtoError::Crypto("invalid SMB encryption transform"));
    assert_eq!(decrypt_gcm(KEY_128, &GCM_128[..51]), invalid);
    assert_eq!(decrypt_ccm(KEY_128, &CCM_128[..51]), invalid);
    let mut plain_magic = GCM_128;
    plain_magic[0] = 0xFE;
    assert_eq!(decrypt_gcm(KEY_128, &plain_magic), invalid);
    let mut unflagged = GCM_128;
    unflagged[42] = 0;
    assert_eq!(
        decrypt_gcm(KEY_128, &unflagged),
        Err(ProtoError::Crypto("SMB transform is not encrypted"))
    );
}

#[test]
fn changed_associated_data_is_refused() {
    let mut other_session = GCM_128;
    other_session[44] ^= 1;
    assert_eq!(
        decrypt_gcm(KEY_128, &other_session),
        Err(ProtoError::Crypto("AES-GCM decrypt failed"))
    );
    let mut other_session = CCM_128;
    other_session[44] ^= 1;
    assert!(matches!(decrypt_ccm(KEY_128, &other_session), Err(ProtoError::Crypto(_))));
}

#[test]
fn ccm_opens_what_it_sealed_and_nothing_shorter() {
    let sealed = ccm_seal(KEY_128, &NONCE[..11], b"", b"header").expect("seal");
    assert_eq!(sealed.len(), 16);
    assert_eq!(ccm_open(KEY_128, &NONCE[..11], &sealed, b"header").expect("open"), b"");
    assert!(ccm_open(KEY_128, &NONCE[..11], &sealed[..15], b"header").is_err());
    assert!(ccm_open(KEY_128, &NONCE[..11], &sealed, b"Header").is_err());
    assert!(ccm_seal(KEY_128, &[0; 3], b"", b"header").is_err());
}

#[test]
fn derived_keys_have_known_bytes() {
    let preauth = [0u8; 64];
    assert_eq!(
        encryption_key_311_c2s(KEY_128, &preauth),
        [
            0x9B, 0x04, 0xF6, 0xE6, 0xA1, 0xF0, 0x75, 0x2A, 0x3B, 0x1C, 0xC3, 0x4C, 0x20, 0x03,
            0x89, 0xE5,
        ]
    );
    assert_eq!(
        encryption_key_311_s2c_256(KEY_128, &preauth),
        [
            0x03, 0x1A, 0x5E, 0x5B, 0x1C, 0xE1, 0xF8, 0x18, 0xC1, 0x6A, 0x3D, 0xCB, 0x7A, 0xAC,
            0x7F, 0xAA, 0x3A, 0x7E, 0xD3, 0x22, 0x03, 0xD5, 0xD2, 0x7A, 0xC2, 0x24, 0x29, 0x99,
            0x18, 0xBC, 0x48, 0xDB,
        ]
    );
    assert_eq!(
        encryption_key_300_c2s(KEY_128),
        [
            0xF7, 0x9B, 0x38, 0x25, 0x7F, 0x29, 0x9C, 0xE8, 0x30, 0xA3, 0xFA, 0xA8, 0xE2, 0x9C,
            0x4C, 0x8A,
        ]
    );
    assert_eq!(
        encryption_key_300_s2c(KEY_128),
        [
            0x50, 0xC9, 0x6C, 0xC9, 0x84, 0x25, 0x48, 0x3E, 0xBD, 0x66, 0x66, 0x75, 0x0A, 0xE7,
            0x00, 0xCE,
        ]
    );
    assert_eq!(smb2_kdf(KEY_128, b"l", b"c"), smb2_kdf_bytes(KEY_128, b"l", b"c", 16));
    assert!(smb2_kdf_bytes(KEY_128, b"l", b"c", 0).is_empty());
}

#[test]
fn opened_frames_are_checked_for_their_length() {
    assert_eq!(finish_gcm_open(&GCM_128, Some(PLAIN.to_vec())), Ok(PLAIN.to_vec()));
    assert_eq!(
        finish_gcm_open(&GCM_128, Some(PLAIN[1..].to_vec())),
        Err(ProtoError::Crypto("SMB transform size mismatch"))
    );
    assert_eq!(
        finish_gcm_open(&GCM_128, None),
        Err(ProtoError::Crypto("AES-GCM decrypt failed"))
    );
}

#[test]
fn sealed_messages_are_framed() {
    let mut sealed = GCM_128[52..].to_vec();
    sealed.extend_from_slice(&GCM_128[4..20]);
    assert_eq!(finish_gcm_seal(&GCM_128[20..52], Some(sealed)), Ok(GCM_128.to_vec()));
    assert_eq!(
        finish_gcm_seal(&GCM_128[20..52], None),
        Err(ProtoError::Crypto("AES-GCM encrypt failed"))
    );
}
