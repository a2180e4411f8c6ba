use smb_server::proto::crypto::encryption::{
    ENCRYPTION_MAGIC, GCM_NONCE_LEN, TRANSFORM_FLAG_ENCRYPTED, decrypt_ccm, decrypt_gcm,
    encrypt_ccm, encrypt_gcm, encrypt_gcm_with_nonce, encryption_key_311_c2s,
    encryption_key_311_c2s_256, encryption_key_311_s2c, encryption_key_311_s2c_256,
};

const NONCE_OFFSET: usize = 20;
const FLAGS_OFFSET: usize = 42;
const SESSION_ID_OFFSET: usize = 44;
const KEY_128: &[u8] = b"0123456789abcdef";
const KEY_256: &[u8] = b"0123456789abcdef0123456789abcdef";
const PLAIN: &[u8] = &[0xFE, b'S', b'M', b'B', 1, 2, 3, 4];

#[test]
fn encrypt_decrypt_ccm_transform() {
    let encrypted = encrypt_ccm(KEY_128, 42, PLAIN).expect("encrypt");

    assert_eq!(&encrypted[..4], &ENCRYPTION_MAGIC);
    assert_eq!(decrypt_ccm(KEY_128, &encrypted).expect("decrypt"), PLAIN);

    let mut tampered = encrypted;
    let last = tampered.len() - 1;
    tampered[last] ^= 0xFF;
    assert!(decrypt_ccm(KEY_128, &tampered).is_err());
}

#[test]
fn encrypt_decrypt_ccm_transform_aes256_key() {
    let encrypted = encrypt_ccm(KEY_256, 42, PLAIN).expect("encrypt");
    assert_eq!(decrypt_ccm(KEY_256, &encrypted).expect("decrypt"), PLAIN);
}

#[test]
fn encrypt_decrypt_gcm_transform() {
    let encrypted = encrypt_gcm(KEY_128, 42, PLAIN).expect("encrypt");

    assert_eq!(&encrypted[..4], &ENCRYPTION_MAGIC);
    assert_eq!(
        u16::from_le_bytes([encrypted[FLAGS_OFFSET], encrypted[FLAGS_OFFSET + 1]]),
        TRANSFORM_FLAG_ENCRYPTED
    );
    assert_eq!(&encrypted[32..36], &[0, 0, 0, 0]);
    assert_eq!(decrypt_gcm(KEY_128, &encrypted).expect("decrypt"), PLAIN);

    let mut tampered = encrypted;
    let last = tampered.len() - 1;
    tampered[last] ^= 0xFF;
    assert!(decrypt_gcm(KEY_128, &tampered).is_err());
}

#[test]
fn encrypt_decrypt_gcm_transform_aes256_key() {
    let encrypted = encrypt_gcm(KEY_256, 42, PLAIN).expect("encrypt");
    assert_eq!(decrypt_gcm(KEY_256, &encrypted).expect("decrypt"), PLAIN);
}

#[test]
fn gcm_rejects_ccm_transform() {
    let encrypted = encrypt_ccm(KEY_128, 42, b"hello").expect("encrypt");
    assert!(decrypt_gcm(KEY_128, &encrypted).is_err());
}

#[test]
fn encryption_key_311_aes256_length() {
    let session_key = b"0123456789abcdef";
    let preauth = [0u8; 64];

    assert_eq!(encryption_key_311_c2s(session_key, &preauth).len(), 16);
    assert_eq!(encryption_key_311_s2c(session_key, &preauth).len(), 16);
    assert_eq!(encryption_key_311_c2s_256(session_key, &preauth).len(), 32);
    assert_eq!(encryption_key_311_s2c_256(session_key, &preauth).len(), 32);
}

#[test]
fn deterministic_nonce_gcm_round_trip_matches_transform_layout() {
    let nonce = [7u8; GCM_NONCE_LEN];
    let encrypted = encrypt_gcm_with_nonce(KEY_128, 0x1122, PLAIN, &nonce).expect("encrypt");

    assert_eq!(
        &encrypted[NONCE_OFFSET..NONCE_OFFSET + GCM_NONCE_LEN],
        &nonce
    );
    assert_eq!(
        u64::from_le_bytes(
            encrypted[SESSION_ID_OFFSET..SESSION_ID_OFFSET + 8]
                .try_into()
                .unwrap()
        ),
        0x1122
    );
    assert_eq!(decrypt_gcm(KEY_128, &encrypted).expect("decrypt"), PLAIN);
}
