//! Key derivation: one step of the SP 800-108 counter-mode function over HMAC-SHA-256.

use crate::proto::crypto::cipher;
use crate::proto::crypto::cipher::hmac_sha256_of;
use crate::wire;
use vstd::prelude::*;

verus! {

/// The message whose HMAC is the key: the counter one, the label, a zero byte, the
/// context, and the number of bits of the key.
pub open spec fn kdf_message(label: Seq<u8>, context: Seq<u8>, len: int) -> Seq<u8> {
    seq![0u8, 0u8, 0u8, 1u8] + label + seq![0u8] + context + seq![
        0u8,
        0u8,
        (8 * len / 0x100) as u8,
        (8 * len % 0x100) as u8,
    ]
}

/// The derived key of `len` bytes.
pub open spec fn derived_key(key: Seq<u8>, label: Seq<u8>, context: Seq<u8>, len: int) -> Seq<u8> {
    cipher::hmac_sha256(key, kdf_message(label, context, len)).subrange(0, len)
}

/// Derives a key of up to 32 bytes.
pub fn smb2_kdf_bytes(key: &[u8], label: &[u8], context: &[u8], len: usize) -> (r: Vec<u8>)
    requires
        len <= 32,
    ensures
        r@ == derived_key(key@, label@, context@, len as int),
        r@.len() == len,
{
    let mut message: Vec<u8> = Vec::new();
    message.push(0);
    message.push(0);
    message.push(0);
    message.push(1);
    wire::put_bytes(&mut message, label);
    message.push(0);
    wire::put_bytes(&mut message, context);
    let bits: usize = 8 * len;
    message.push(0);
    message.push(0);
    message.push((bits / 0x100) as u8);
    message.push((bits % 0x100) as u8);
    assert(message@ =~= kdf_message(label@, context@, len as int));
    let mac: [u8; 32] = hmac_sha256_of(key, message.as_slice());
    wire::copy_range(mac.as_slice(), 0, len)
}

/// Derives a key of 16 bytes.
pub fn smb2_kdf(key: &[u8], label: &[u8], context: &[u8]) -> (r: Vec<u8>)
    ensures
        r@ == derived_key(key@, label@, context@, 16),
        r@.len() == 16,
{
    smb2_kdf_bytes(key, label, context, 16)
}

} // verus!
