//! Encryption transform frames of SMB 3.x, sealed by AES-GCM or AES-CCM.
//!
//! A frame is the magic, the tag, and the associated data: nonce field, plain length,
//! two reserved bytes, flags and session id. The ciphertext follows.

use crate::proto::crypto::ccm;
use crate::proto::crypto::ccm::{ccm_open, ccm_seal};
use crate::proto::crypto::cipher;
use crate::proto::crypto::cipher::{
    aes128_gcm_open, aes128_gcm_seal, aes256_gcm_open, aes256_gcm_seal, random_bytes,
};
use crate::proto::crypto::kdf;
use crate::proto::crypto::kdf::{smb2_kdf, smb2_kdf_bytes};
use crate::proto::error::{ProtoError, ProtoResult};
use crate::wire;
use vstd::prelude::*;
use vstd::slice::slice_subrange;

verus! {

/// First bytes of an encrypted frame.
pub const ENCRYPTION_MAGIC: [u8; 4] = [0xFD, 0x53, 0x4D, 0x42];

/// Length of the part before the ciphertext.
pub const TRANSFORM_HEADER_SIZE: usize = 52;

/// Flag of an encrypted frame.
pub const TRANSFORM_FLAG_ENCRYPTED: u16 = 0x0001;

/// Length of a GCM nonce.
pub const GCM_NONCE_LEN: usize = 12;

/// Length of a CCM nonce.
pub const CCM_NONCE_LEN: usize = 11;

// ---------------------------------------------------------------------------
// Frames
// ---------------------------------------------------------------------------

/// The associated data of a frame.
pub open spec fn transform_aad(nonce: Seq<u8>, plain_len: int, session_id: u64) -> Seq<u8> {
    nonce + wire::zeros(16 - nonce.len()) + wire::bytes32(plain_len as u32) + wire::bytes16(0)
        + wire::bytes16(TRANSFORM_FLAG_ENCRYPTED) + wire::bytes64(session_id)
}

/// The frame of associated data and a sealed message.
pub open spec fn transform_frame(aad: Seq<u8>, sealed: Seq<u8>) -> Seq<u8> {
    ENCRYPTION_MAGIC@ + sealed.skip(sealed.len() - 16) + aad + sealed.take(sealed.len() - 16)
}

/// Whether bytes start as an encrypted frame does.
pub open spec fn is_transform(frame: Seq<u8>) -> bool {
    frame.len() >= 4 && frame.subrange(0, 4) == ENCRYPTION_MAGIC@
}

/// The error that a frame is refused with before it is opened.
pub open spec fn header_error(frame: Seq<u8>) -> Option<ProtoError> {
    if frame.len() < 52 || !is_transform(frame) {
        Some(ProtoError::Crypto("invalid SMB encryption transform"))
    } else if wire::le16(frame, 42) != TRANSFORM_FLAG_ENCRYPTED {
        Some(ProtoError::Crypto("SMB transform is not encrypted"))
    } else {
        None
    }
}

/// The sealed message of a frame.
pub open spec fn frame_sealed(frame: Seq<u8>) -> Seq<u8> {
    frame.subrange(52, frame.len() as int) + frame.subrange(4, 20)
}

/// The error that an opened message is refused with.
pub open spec fn size_error(frame: Seq<u8>, plain_len: int) -> Option<ProtoError> {
    if wire::le32(frame, 36) != plain_len {
        Some(ProtoError::Crypto("SMB transform size mismatch"))
    } else {
        None
    }
}

/// Whether a frame is encrypted.
pub fn is_encryption_transform(frame: &[u8]) -> (r: bool)
    ensures
        r == is_transform(frame@),
{
    if frame.len() < 4 {
        return false;
    }
    let r: bool = frame[0] == ENCRYPTION_MAGIC[0] && frame[1] == ENCRYPTION_MAGIC[1] && frame[2]
        == ENCRYPTION_MAGIC[2] && frame[3] == ENCRYPTION_MAGIC[3];
    proof {
        let p = frame@.subrange(0, 4);
        assert(p[0] == frame@[0] && p[1] == frame@[1] && p[2] == frame@[2] && p[3] == frame@[3]);
        if r {
            assert(p =~= ENCRYPTION_MAGIC@);
        }
    }
    r
}

/// The associated data of a frame.
fn transform_header(nonce: &[u8], plain_len: usize, session_id: u64) -> (r: Vec<u8>)
    requires
        nonce@.len() <= 16,
    ensures
        r@ == transform_aad(nonce@, plain_len as int, session_id),
        r@.len() == 32,
{
    let mut out: Vec<u8> = Vec::new();
    wire::put_bytes(&mut out, nonce);
    wire::put_zeros(&mut out, 16 - nonce.len());
    wire::put_u32(&mut out, plain_len as u32);
    wire::put_u16(&mut out, 0);
    wire::put_u16(&mut out, TRANSFORM_FLAG_ENCRYPTED);
    wire::put_u64(&mut out, session_id);
    assert(out@ =~= transform_aad(nonce@, plain_len as int, session_id));
    out
}

/// The frame of associated data and a sealed message.
fn write_sealed(aad: &[u8], sealed: &[u8]) -> (r: Vec<u8>)
    requires
        sealed@.len() >= 16,
    ensures
        r@ == transform_frame(aad@, sealed@),
{
    let n: usize = sealed.len() - 16;
    let mut out: Vec<u8> = Vec::new();
    wire::put_bytes(&mut out, ENCRYPTION_MAGIC.as_slice());
    wire::put_bytes(&mut out, slice_subrange(sealed, n, sealed.len()));
    wire::put_bytes(&mut out, aad);
    wire::put_bytes(&mut out, slice_subrange(sealed, 0, n));
    assert(out@ =~= transform_frame(aad@, sealed@));
    out
}

/// Checks a frame before it is opened.
fn validate_transform_header(transform: &[u8]) -> (r: ProtoResult<()>)
    ensures
        match r {
            Ok(_) => header_error(transform@) is None,
            Err(e) => header_error(transform@) == Some(e),
        },
{
    if transform.len() < TRANSFORM_HEADER_SIZE || !is_encryption_transform(transform) {
        return Err(ProtoError::Crypto("invalid SMB encryption transform"));
    }
    if wire::read_u16(transform, 42) != TRANSFORM_FLAG_ENCRYPTED {
        return Err(ProtoError::Crypto("SMB transform is not encrypted"));
    }
    Ok(())
}

/// Checks the length of an opened message.
fn validate_original_size(transform: &[u8], plain_len: usize) -> (r: ProtoResult<()>)
    requires
        transform@.len() >= 52,
    ensures
        match r {
            Ok(_) => size_error(transform@, plain_len as int) is None,
            Err(e) => size_error(transform@, plain_len as int) == Some(e),
        },
{
    if wire::read_u32(transform, 36) as usize != plain_len {
        return Err(ProtoError::Crypto("SMB transform size mismatch"));
    }
    Ok(())
}

/// The sealed message of a frame.
fn sealed_from_transform(transform: &[u8]) -> (r: Vec<u8>)
    requires
        transform@.len() >= 52,
    ensures
        r@ == frame_sealed(transform@),
{
    let mut sealed: Vec<u8> = wire::copy_range(
        transform,
        TRANSFORM_HEADER_SIZE,
        transform.len(),
    );
    wire::put_bytes(&mut sealed, slice_subrange(transform, 4, 20));
    sealed
}

/// The fields of a frame that is put together from its parts.
proof fn lemma_frame_fields(nonce: Seq<u8>, plain_len: int, session_id: u64, sealed: Seq<u8>)
    requires
        nonce.len() <= 16,
        sealed.len() >= 16,
    ensures
        ({
            let aad = transform_aad(nonce, plain_len, session_id);
            let b = transform_frame(aad, sealed);
            &&& header_error(b) is None
            &&& b.len() == 36 + sealed.len()
            &&& b.subrange(20, 52) == aad
            &&& b.subrange(20, 20int + nonce.len()) == nonce
            &&& frame_sealed(b) == sealed
            &&& wire::le32(b, 36) == plain_len as u32
        }),
{
    let aad = transform_aad(nonce, plain_len, session_id);
    let b = transform_frame(aad, sealed);
    assert(aad.len() == 32);
    assert(b.subrange(0, 4) =~= ENCRYPTION_MAGIC@);
    assert(b.subrange(20, 52) =~= aad);
    assert(b.subrange(20, 20int + nonce.len()) =~= nonce) by {
        assert(aad.subrange(0, nonce.len() as int) =~= nonce);
        assert(b.subrange(20, 20int + nonce.len()) =~= b.subrange(20, 52).subrange(
            0,
            nonce.len() as int,
        ));
    }
    assert(frame_sealed(b) =~= sealed);
    assert(aad.subrange(16, 20) =~= wire::bytes32(plain_len as u32));
    assert(aad.subrange(22, 24) =~= wire::bytes16(TRANSFORM_FLAG_ENCRYPTED));
    assert(b.subrange(36, 40) =~= b.subrange(20, 52).subrange(16, 20));
    assert(b.subrange(42, 44) =~= b.subrange(20, 52).subrange(22, 24));
    wire::le32_of_bytes32(b, 36, plain_len as u32);
    wire::le16_of_bytes16(b, 42, TRANSFORM_FLAG_ENCRYPTED);
}

// ---------------------------------------------------------------------------
// GCM
// ---------------------------------------------------------------------------

/// What GCM seals a message to, by the length of the key.
pub open spec fn gcm_sealed(key: Seq<u8>, nonce: Seq<u8>, plain: Seq<u8>, aad: Seq<u8>) -> Seq<u8> {
    if key.len() == 16 {
        cipher::aes128_gcm_sealed(key, nonce, plain, aad)
    } else {
        cipher::aes256_gcm_sealed(key, nonce, plain, aad)
    }
}

/// What GCM opens a sealed message to, by the length of the key.
pub open spec fn gcm_opened(key: Seq<u8>, nonce: Seq<u8>, sealed: Seq<u8>, aad: Seq<u8>) -> Option<
    Seq<u8>,
> {
    if key.len() == 16 {
        cipher::aes128_gcm_opened(key, nonce, sealed, aad)
    } else {
        cipher::aes256_gcm_opened(key, nonce, sealed, aad)
    }
}

/// The error that sealing by GCM fails with.
pub open spec fn gcm_seal_error(key: Seq<u8>, plain: Seq<u8>) -> Option<ProtoError> {
    if !ccm::key_supported(key) {
        Some(ProtoError::Crypto("unsupported AES-GCM key length"))
    } else if plain.len() > 0x10_0000_0000 {
        Some(ProtoError::Crypto("AES-GCM encrypt failed"))
    } else {
        None
    }
}

/// The frame that GCM seals a message to.
pub open spec fn gcm_frame(key: Seq<u8>, session_id: u64, plain: Seq<u8>, nonce: Seq<u8>) -> Seq<
    u8,
> {
    let aad = transform_aad(nonce, plain.len() as int, session_id);
    transform_frame(aad, gcm_sealed(key, nonce, plain, aad))
}

/// Whether what GCM seals a message to is the ciphertext and a whole tag.
pub open spec fn gcm_sealed_whole(
    key: Seq<u8>,
    session_id: u64,
    plain: Seq<u8>,
    nonce: Seq<u8>,
) -> bool {
    gcm_sealed(key, nonce, plain, transform_aad(nonce, plain.len() as int, session_id)).len()
        == plain.len() + 16
}

/// What a frame that GCM sealed opens to.
pub open spec fn gcm_frame_opened(key: Seq<u8>, frame: Seq<u8>) -> Option<Seq<u8>> {
    gcm_opened(key, frame.subrange(20, 32), frame_sealed(frame), frame.subrange(20, 52))
}

/// The error that a frame is refused with by what its cipher opened it to.
pub open spec fn gcm_result_error(frame: Seq<u8>, opened: Option<Seq<u8>>) -> Option<ProtoError> {
    match opened {
        None => Some(ProtoError::Crypto("AES-GCM decrypt failed")),
        Some(plain) => size_error(frame, plain.len() as int),
    }
}

/// The error that opening a frame by GCM fails with.
pub open spec fn gcm_open_error(key: Seq<u8>, frame: Seq<u8>) -> Option<ProtoError> {
    if header_error(frame) is Some {
        header_error(frame)
    } else if !ccm::key_supported(key) {
        Some(ProtoError::Crypto("unsupported AES-GCM key length"))
    } else {
        gcm_result_error(frame, gcm_frame_opened(key, frame))
    }
}

/// The frame of associated data, from what GCM sealed a message to.
pub fn finish_gcm_seal(aad: &[u8], sealed: Option<Vec<u8>>) -> (r: ProtoResult<Vec<u8>>)
    requires
        sealed matches Some(sealed) ==> sealed@.len() >= 16,
    ensures
        match r {
            Ok(frame) => sealed is Some && frame@ == transform_frame(aad@, sealed->0@),
            Err(e) => sealed is None && e == ProtoError::Crypto("AES-GCM encrypt failed"),
        },
{
    match sealed {
        None => Err(ProtoError::Crypto("AES-GCM encrypt failed")),
        Some(sealed) => Ok(write_sealed(aad, sealed.as_slice())),
    }
}

/// Seals a message by GCM under a given nonce.
pub fn encrypt_gcm_with_nonce(key: &[u8], session_id: u64, plain: &[u8], nonce: &[u8]) -> (r:
    ProtoResult<Vec<u8>>)
    requires
        nonce@.len() == GCM_NONCE_LEN,
    ensures
        match r {
            Ok(frame) => gcm_seal_error(key@, plain@) is None && frame@ == gcm_frame(
                key@,
                session_id,
                plain@,
                nonce@,
            ) && gcm_sealed_whole(key@, session_id, plain@, nonce@) && frame@.len()
                == TRANSFORM_HEADER_SIZE + plain@.len(),
            Err(e) => gcm_seal_error(key@, plain@) == Some(e),
        },
{
    let aad: Vec<u8> = transform_header(nonce, plain.len(), session_id);
    let sealed: Option<Vec<u8>> = if key.len() == 16 {
        aes128_gcm_seal(key, nonce, plain, aad.as_slice())
    } else if key.len() == 32 {
        aes256_gcm_seal(key, nonce, plain, aad.as_slice())
    } else {
        return Err(ProtoError::Crypto("unsupported AES-GCM key length"));
    };
    finish_gcm_seal(aad.as_slice(), sealed)
}

/// Seals a message by GCM under a random nonce.
pub fn encrypt_gcm(key: &[u8], session_id: u64, plain: &[u8]) -> (r: ProtoResult<Vec<u8>>)
    ensures
        match r {
            Ok(frame) => gcm_seal_error(key@, plain@) is None && exists|nonce: Seq<u8>|
                nonce.len() == GCM_NONCE_LEN && gcm_sealed_whole(key@, session_id, plain@, nonce)
                    && frame@ == #[trigger] gcm_frame(key@, session_id, plain@, nonce),
            Err(e) => gcm_seal_error(key@, plain@) == Some(e) || e == ProtoError::Crypto(
                "no random bytes for a nonce",
            ),
        },
{
    match random_bytes(GCM_NONCE_LEN) {
        None => Err(ProtoError::Crypto("no random bytes for a nonce")),
        Some(nonce) => encrypt_gcm_with_nonce(key, session_id, plain, nonce.as_slice()),
    }
}

/// The message of a frame, from what GCM opened it to.
pub fn finish_gcm_open(transform: &[u8], opened: Option<Vec<u8>>) -> (r: ProtoResult<Vec<u8>>)
    requires
        transform@.len() >= TRANSFORM_HEADER_SIZE,
    ensures
        match r {
            Ok(plain) => opened == Some(plain) && size_error(
                transform@,
                plain@.len() as int,
            ) is None,
            Err(e) => gcm_result_error(
                transform@,
                match opened {
                    Some(plain) => Some(plain@),
                    None => None,
                },
            ) == Some(e),
        },
{
    match opened {
        None => Err(ProtoError::Crypto("AES-GCM decrypt failed")),
        Some(plain) => match validate_original_size(transform, plain.len()) {
            Ok(_) => Ok(plain),
            Err(e) => Err(e),
        },
    }
}

/// Opens a frame that GCM sealed. What was sealed under the same key opens to the
/// message again.
pub fn decrypt_gcm(key: &[u8], transform: &[u8]) -> (r: ProtoResult<Vec<u8>>)
    ensures
        match r {
            Ok(plain) => gcm_open_error(key@, transform@) is None && gcm_frame_opened(
                key@,
                transform@,
            ) == Some(plain@),
            Err(e) => gcm_open_error(key@, transform@) == Some(e),
        },
        forall|session_id: u64, plain: Seq<u8>, nonce: Seq<u8>|
            ccm::key_supported(key@) && nonce.len() == GCM_NONCE_LEN && plain.len() <= 0xffff_ffff
                && gcm_sealed_whole(key@, session_id, plain, nonce)
                    && transform@ == #[trigger] gcm_frame(key@, session_id, plain, nonce)
                ==> (r matches Ok(got) && got@ == plain),
{
    proof {
        assert forall|session_id: u64, plain: Seq<u8>, nonce: Seq<u8>|
            nonce.len() == GCM_NONCE_LEN && gcm_sealed_whole(key@, session_id, plain, nonce)
                && transform@ == #[trigger] gcm_frame(
                key@,
                session_id,
                plain,
                nonce,
            ) implies header_error(transform@) is None && transform@.subrange(20, 32) == nonce
            && transform@.subrange(20, 52) == transform_aad(nonce, plain.len() as int, session_id)
            && frame_sealed(transform@) == gcm_sealed(
            key@,
            nonce,
            plain,
            transform_aad(nonce, plain.len() as int, session_id),
        ) && wire::le32(transform@, 36) == plain.len() as u32 by {
            let aad = transform_aad(nonce, plain.len() as int, session_id);
            lemma_frame_fields(
                nonce,
                plain.len() as int,
                session_id,
                gcm_sealed(key@, nonce, plain, aad),
            );
        }
    }
    match validate_transform_header(transform) {
        Ok(_) => {},
        Err(e) => {
            return Err(e);
        },
    }
    let nonce: &[u8] = slice_subrange(transform, 20, 32);
    let aad: &[u8] = slice_subrange(transform, 20, 52);
    let sealed: Vec<u8> = sealed_from_transform(transform);
    let opened: Option<Vec<u8>> = if key.len() == 16 {
        aes128_gcm_open(key, nonce, sealed.as_slice(), aad)
    } else if key.len() == 32 {
        aes256_gcm_open(key, nonce, sealed.as_slice(), aad)
    } else {
        return Err(ProtoError::Crypto("unsupported AES-GCM key length"));
    };
    finish_gcm_open(transform, opened)
}

// ---------------------------------------------------------------------------
// CCM
// ---------------------------------------------------------------------------

/// The frame that CCM seals a message to.
pub open spec fn ccm_frame(key: Seq<u8>, session_id: u64, plain: Seq<u8>, nonce: Seq<u8>) -> Seq<
    u8,
> {
    let aad = transform_aad(nonce, plain.len() as int, session_id);
    transform_frame(aad, ccm::ccm_sealed(key, nonce, plain, aad))
}

/// What a frame that CCM sealed opens to.
pub open spec fn ccm_frame_opened(key: Seq<u8>, frame: Seq<u8>) -> Seq<u8> {
    ccm::ccm_uncovered(key, frame.subrange(20, 31), frame_sealed(frame))
}

/// The error that opening a frame by CCM fails with.
pub open spec fn ccm_frame_error(key: Seq<u8>, frame: Seq<u8>) -> Option<ProtoError> {
    let refused = ccm::ccm_open_error(
        key,
        frame.subrange(20, 31),
        frame_sealed(frame),
        frame.subrange(20, 52),
    );
    if header_error(frame) is Some {
        header_error(frame)
    } else if refused is Some {
        refused
    } else {
        size_error(frame, ccm_frame_opened(key, frame).len() as int)
    }
}

/// Seals a message by CCM under a given nonce.
pub fn encrypt_ccm_with_nonce(key: &[u8], session_id: u64, plain: &[u8], nonce: &[u8]) -> (r:
    ProtoResult<Vec<u8>>)
    requires
        nonce@.len() == CCM_NONCE_LEN,
    ensures
        match r {
            Ok(frame) => ccm::key_supported(key@) && frame@ == ccm_frame(
                key@,
                session_id,
                plain@,
                nonce@,
            ) && frame@.len() == TRANSFORM_HEADER_SIZE + plain@.len(),
            Err(e) => !ccm::key_supported(key@) && e == ProtoError::Crypto(
                "unsupported AES-CCM key length",
            ),
        },
{
    let aad: Vec<u8> = transform_header(nonce, plain.len(), session_id);
    match ccm_seal(key, nonce, plain, aad.as_slice()) {
        Ok(sealed) => Ok(write_sealed(aad.as_slice(), sealed.as_slice())),
        Err(e) => Err(e),
    }
}

/// Seals a message by CCM under a random nonce.
pub fn encrypt_ccm(key: &[u8], session_id: u64, plain: &[u8]) -> (r: ProtoResult<Vec<u8>>)
    ensures
        match r {
            Ok(frame) => ccm::key_supported(key@) && exists|nonce: Seq<u8>|
                nonce.len() == CCM_NONCE_LEN && frame@ == #[trigger] ccm_frame(
                    key@,
                    session_id,
                    plain@,
                    nonce,
                ),
            Err(e) => (!ccm::key_supported(key@) && e == ProtoError::Crypto(
                "unsupported AES-CCM key length",
            )) || e == ProtoError::Crypto("no random bytes for a nonce"),
        },
{
    match random_bytes(CCM_NONCE_LEN) {
        None => Err(ProtoError::Crypto("no random bytes for a nonce")),
        Some(nonce) => encrypt_ccm_with_nonce(key, session_id, plain, nonce.as_slice()),
    }
}

/// Opens a frame that CCM sealed.
pub fn decrypt_ccm(key: &[u8], transform: &[u8]) -> (r: ProtoResult<Vec<u8>>)
    ensures
        match r {
            Ok(plain) => ccm_frame_error(key@, transform@) is None && plain@ == ccm_frame_opened(
                key@,
                transform@,
            ),
            Err(e) => ccm_frame_error(key@, transform@) == Some(e),
        },
{
    match validate_transform_header(transform) {
        Ok(_) => {},
        Err(e) => {
            return Err(e);
        },
    }
    let nonce: &[u8] = slice_subrange(transform, 20, 31);
    let aad: &[u8] = slice_subrange(transform, 20, 52);
    let sealed: Vec<u8> = sealed_from_transform(transform);
    match ccm_open(key, nonce, sealed.as_slice(), aad) {
        Err(e) => Err(e),
        Ok(plain) => match validate_original_size(transform, plain.len()) {
            Ok(_) => Ok(plain),
            Err(e) => Err(e),
        },
    }
}

/// A frame that CCM seals opens to the message again, under the same key.
pub proof fn ccm_frame_round_trips(key: Seq<u8>, session_id: u64, plain: Seq<u8>, nonce: Seq<u8>)
    requires
        ccm::key_supported(key),
        nonce.len() == CCM_NONCE_LEN,
        plain.len() <= 0xffff_ffff,
    ensures
        ccm_frame_error(key, ccm_frame(key, session_id, plain, nonce)) is None,
        ccm_frame_opened(key, ccm_frame(key, session_id, plain, nonce)) == plain,
{
    let aad = transform_aad(nonce, plain.len() as int, session_id);
    lemma_frame_fields(
        nonce,
        plain.len() as int,
        session_id,
        ccm::ccm_sealed(key, nonce, plain, aad),
    );
    ccm::ccm_round_trip(key, nonce, plain, aad);
}

// ---------------------------------------------------------------------------
// Keys
// ---------------------------------------------------------------------------

/// Label of the keys from client to server, SMB 3.1.1.
pub const LABEL_C2S: [u8; 16] = [
    0x53, 0x4D, 0x42, 0x43, 0x32, 0x53, 0x43, 0x69, 0x70, 0x68, 0x65, 0x72, 0x4B, 0x65, 0x79, 0x00,
];

/// Label of the keys from server to client, SMB 3.1.1.
pub const LABEL_S2C: [u8; 16] = [
    0x53, 0x4D, 0x42, 0x53, 0x32, 0x43, 0x43, 0x69, 0x70, 0x68, 0x65, 0x72, 0x4B, 0x65, 0x79, 0x00,
];

/// Label of the keys of SMB 3.0.
pub const LABEL_300: [u8; 11] = [
    0x53, 0x4D, 0x42, 0x32, 0x41, 0x45, 0x53, 0x43, 0x43, 0x4D, 0x00,
];

/// Context of the keys from client to server, SMB 3.0.
pub const CONTEXT_SERVER_IN: [u8; 10] = [
    0x53, 0x65, 0x72, 0x76, 0x65, 0x72, 0x49, 0x6E, 0x20, 0x00,
];

/// Context of the keys from server to client, SMB 3.0.
pub const CONTEXT_SERVER_OUT: [u8; 10] = [
    0x53, 0x65, 0x72, 0x76, 0x65, 0x72, 0x4F, 0x75, 0x74, 0x00,
];

/// Derives the key from client to server, SMB 3.1.1.
pub fn encryption_key_311_c2s(session_key: &[u8], preauth_hash: &[u8; 64]) -> (r: Vec<u8>)
    ensures
        r@ == kdf::derived_key(session_key@, LABEL_C2S@, preauth_hash@, 16),
        r@.len() == 16,
{
    smb2_kdf(session_key, LABEL_C2S.as_slice(), preauth_hash.as_slice())
}

/// Derives the key from server to client, SMB 3.1.1.
pub fn encryption_key_311_s2c(session_key: &[u8], preauth_hash: &[u8; 64]) -> (r: Vec<u8>)
    ensures
        r@ == kdf::derived_key(session_key@, LABEL_S2C@, preauth_hash@, 16),
        r@.len() == 16,
{
    smb2_kdf(session_key, LABEL_S2C.as_slice(), preauth_hash.as_slice())
}

/// Derives the 256-bit key from client to server, SMB 3.1.1.
pub fn encryption_key_311_c2s_256(session_key: &[u8], preauth_hash: &[u8; 64]) -> (r: Vec<u8>)
    ensures
        r@ == kdf::derived_key(session_key@, LABEL_C2S@, preauth_hash@, 32),
        r@.len() == 32,
{
    smb2_kdf_bytes(session_key, LABEL_C2S.as_slice(), preauth_hash.as_slice(), 32)
}

/// Derives the 256-bit key from server to client, SMB 3.1.1.
pub fn encryption_key_311_s2c_256(session_key: &[u8], preauth_hash: &[u8; 64]) -> (r: Vec<u8>)
    ensures
        r@ == kdf::derived_key(session_key@, LABEL_S2C@, preauth_hash@, 32),
        r@.len() == 32,
{
    smb2_kdf_bytes(session_key, LABEL_S2C.as_slice(), preauth_hash.as_slice(), 32)
}

/// Derives the key from client to server, SMB 3.0.
pub fn encryption_key_300_c2s(session_key: &[u8]) -> (r: Vec<u8>)
    ensures
        r@ == kdf::derived_key(session_key@, LABEL_300@, CONTEXT_SERVER_IN@, 16),
        r@.len() == 16,
{
    smb2_kdf(session_key, LABEL_300.as_slice(), CONTEXT_SERVER_IN.as_slice())
}

/// Derives the key from server to client, SMB 3.0.
pub fn encryption_key_300_s2c(session_key: &[u8]) -> (r: Vec<u8>)
    ensures
        r@ == kdf::derived_key(session_key@, LABEL_300@, CONTEXT_SERVER_OUT@, 16),
        r@.len() == 16,
{
    smb2_kdf(session_key, LABEL_300.as_slice(), CONTEXT_SERVER_OUT.as_slice())
}

} // verus!
