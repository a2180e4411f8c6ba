//! The outside ciphers and the outside source of random bytes.
//!
//! Nothing here is proved: each function hands its arguments to one function of an
//! outside crate, and its contract says what that function is taken to do.

use aes::cipher::generic_array::GenericArray;
use aes::cipher::{BlockEncrypt, KeyInit};
use aes_gcm::aead::rand_core::RngCore;
use aes_gcm::aead::{Aead, OsRng, Payload};
use hmac::Mac;
use vstd::prelude::*;

verus! {

/// What AES with a key of 16 bytes makes of a block.
pub uninterp spec fn aes128_block(key: Seq<u8>, block: Seq<u8>) -> Seq<u8>;

/// What AES with a key of 32 bytes makes of a block.
pub uninterp spec fn aes256_block(key: Seq<u8>, block: Seq<u8>) -> Seq<u8>;

/// What AES-128-GCM seals a message to: the ciphertext and the tag behind it.
pub uninterp spec fn aes128_gcm_sealed(
    key: Seq<u8>,
    nonce: Seq<u8>,
    plain: Seq<u8>,
    aad: Seq<u8>,
) -> Seq<u8>;

/// What AES-256-GCM seals a message to: the ciphertext and the tag behind it.
pub uninterp spec fn aes256_gcm_sealed(
    key: Seq<u8>,
    nonce: Seq<u8>,
    plain: Seq<u8>,
    aad: Seq<u8>,
) -> Seq<u8>;

/// What AES-128-GCM opens a sealed message to, `None` where its tag is wrong.
pub uninterp spec fn aes128_gcm_opened(
    key: Seq<u8>,
    nonce: Seq<u8>,
    sealed: Seq<u8>,
    aad: Seq<u8>,
) -> Option<Seq<u8>>;

/// What AES-256-GCM opens a sealed message to, `None` where its tag is wrong.
pub uninterp spec fn aes256_gcm_opened(
    key: Seq<u8>,
    nonce: Seq<u8>,
    sealed: Seq<u8>,
    aad: Seq<u8>,
) -> Option<Seq<u8>>;

/// The HMAC-SHA-256 of a message.
pub uninterp spec fn hmac_sha256(key: Seq<u8>, message: Seq<u8>) -> Seq<u8>;

/// `aes::Aes128` encrypts one block; the result is a function of key and block.
#[verifier::external_body]
pub(crate) fn aes128_encrypt_block(key: &[u8], block: [u8; 16]) -> (r: [u8; 16])
    requires
        key@.len() == 16,
    ensures
        r@ == aes128_block(key@, block@),
{
    let mut out = GenericArray::clone_from_slice(&block);
    aes::Aes128::new(GenericArray::from_slice(key)).encrypt_block(&mut out);
    out.into()
}

/// `aes::Aes256` encrypts one block; the result is a function of key and block.
#[verifier::external_body]
pub(crate) fn aes256_encrypt_block(key: &[u8], block: [u8; 16]) -> (r: [u8; 16])
    requires
        key@.len() == 32,
    ensures
        r@ == aes256_block(key@, block@),
{
    let mut out = GenericArray::clone_from_slice(&block);
    aes::Aes256::new(GenericArray::from_slice(key)).encrypt_block(&mut out);
    out.into()
}

/// `aes_gcm::Aes128Gcm` seals a message. It fails on messages and on associated data of
/// more than 2^36 bytes only; what it gives is as long as the message and the 16 bytes
/// of the tag.
#[verifier::external_body]
pub(crate) fn aes128_gcm_seal(key: &[u8], nonce: &[u8], plain: &[u8], aad: &[u8]) -> (r: Option<
    Vec<u8>,
>)
    requires
        key@.len() == 16,
        nonce@.len() == 12,
        aad@.len() <= 0x10_0000_0000,
    ensures
        r is Some <==> plain@.len() <= 0x10_0000_0000,
        r matches Some(v) ==> v@ == aes128_gcm_sealed(key@, nonce@, plain@, aad@) && v@.len()
            == plain@.len() + 16,
{
    aes_gcm::Aes128Gcm::new(GenericArray::from_slice(key)).encrypt(
        GenericArray::from_slice(nonce),
        Payload { msg: plain, aad },
    ).ok()
}

/// `aes_gcm::Aes256Gcm` seals a message. It fails on messages and on associated data of
/// more than 2^36 bytes only; what it gives is as long as the message and the 16 bytes
/// of the tag.
#[verifier::external_body]
pub(crate) fn aes256_gcm_seal(key: &[u8], nonce: &[u8], plain: &[u8], aad: &[u8]) -> (r: Option<
    Vec<u8>,
>)
    requires
        key@.len() == 32,
        nonce@.len() == 12,
        aad@.len() <= 0x10_0000_0000,
    ensures
        r is Some <==> plain@.len() <= 0x10_0000_0000,
        r matches Some(v) ==> v@ == aes256_gcm_sealed(key@, nonce@, plain@, aad@) && v@.len()
            == plain@.len() + 16,
{
    aes_gcm::Aes256Gcm::new(GenericArray::from_slice(key)).encrypt(
        GenericArray::from_slice(nonce),
        Payload { msg: plain, aad },
    ).ok()
}

/// `aes_gcm::Aes128Gcm` opens a sealed message. What was sealed under the same key,
/// nonce and associated data opens to the message; what opens is 16 bytes shorter than
/// what was sealed. That nothing else opens is not stated.
#[verifier::external_body]
pub(crate) fn aes128_gcm_open(key: &[u8], nonce: &[u8], sealed: &[u8], aad: &[u8]) -> (r: Option<
    Vec<u8>,
>)
    requires
        key@.len() == 16,
        nonce@.len() == 12,
        aad@.len() <= 0x10_0000_0000,
    ensures
        r is None <==> aes128_gcm_opened(key@, nonce@, sealed@, aad@) is None,
        r matches Some(v) ==> aes128_gcm_opened(key@, nonce@, sealed@, aad@) == Some(v@)
            && v@.len() + 16 == sealed@.len(),
        r is None ==> forall|plain: Seq<u8>|
            plain.len() <= 0x10_0000_0000 ==> #[trigger] aes128_gcm_sealed(
                key@,
                nonce@,
                plain,
                aad@,
            ) != sealed@,
        r matches Some(v) ==> forall|plain: Seq<u8>|
            plain.len() <= 0x10_0000_0000 && #[trigger] aes128_gcm_sealed(key@, nonce@, plain, aad@)
                == sealed@ ==> v@ == plain,
{
    aes_gcm::Aes128Gcm::new(GenericArray::from_slice(key)).decrypt(
        GenericArray::from_slice(nonce),
        Payload { msg: sealed, aad },
    ).ok()
}

/// `aes_gcm::Aes256Gcm` opens a sealed message. What was sealed under the same key,
/// nonce and associated data opens to the message; what opens is 16 bytes shorter than
/// what was sealed. That nothing else opens is not stated.
#[verifier::external_body]
pub(crate) fn aes256_gcm_open(key: &[u8], nonce: &[u8], sealed: &[u8], aad: &[u8]) -> (r: Option<
    Vec<u8>,
>)
    requires
        key@.len() == 32,
        nonce@.len() == 12,
        aad@.len() <= 0x10_0000_0000,
    ensures
        r is None <==> aes256_gcm_opened(key@, nonce@, sealed@, aad@) is None,
        r matches Some(v) ==> aes256_gcm_opened(key@, nonce@, sealed@, aad@) == Some(v@)
            && v@.len() + 16 == sealed@.len(),
        r is None ==> forall|plain: Seq<u8>|
            plain.len() <= 0x10_0000_0000 ==> #[trigger] aes256_gcm_sealed(
                key@,
                nonce@,
                plain,
                aad@,
            ) != sealed@,
        r matches Some(v) ==> forall|plain: Seq<u8>|
            plain.len() <= 0x10_0000_0000 && #[trigger] aes256_gcm_sealed(key@, nonce@, plain, aad@)
                == sealed@ ==> v@ == plain,
{
    aes_gcm::Aes256Gcm::new(GenericArray::from_slice(key)).decrypt(
        GenericArray::from_slice(nonce),
        Payload { msg: sealed, aad },
    ).ok()
}

/// `hmac::Hmac` over `sha2::Sha256` takes a key of any length; the result is a function
/// of key and message.
#[verifier::external_body]
pub(crate) fn hmac_sha256_of(key: &[u8], message: &[u8]) -> (r: [u8; 32])
    ensures
        r@ == hmac_sha256(key@, message@),
{
    let mut mac = <hmac::Hmac<sha2::Sha256> as Mac>::new_from_slice(key).expect("any length");
    mac.update(message);
    mac.finalize().into_bytes().into()
}

/// `OsRng::try_fill_bytes` fills a buffer from the operating system's source, or fails.
/// Nothing is stated of the bytes.
#[verifier::external_body]
pub(crate) fn random_bytes(len: usize) -> (r: Option<Vec<u8>>)
    ensures
        r matches Some(v) ==> v@.len() == len,
{
    let mut out = vec![0u8; len];
    OsRng.try_fill_bytes(&mut out).ok().map(|_| out)
}

} // verus!
