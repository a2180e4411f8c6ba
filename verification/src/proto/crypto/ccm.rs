//! AES-CCM with a tag of 16 bytes, over the block cipher.

use crate::proto::crypto::cipher;
use crate::proto::crypto::cipher::{aes128_encrypt_block, aes256_encrypt_block};
use crate::proto::error::{ProtoError, ProtoResult};
use crate::wire;
use vstd::prelude::*;
use vstd::slice::slice_subrange;

verus! {

/// Length of the tag.
pub const TAG_LEN: usize = 16;

/// Whether a key has a length that AES is used with.
pub open spec fn key_supported(key: Seq<u8>) -> bool {
    key.len() == 16 || key.len() == 32
}

/// What the cipher of a key makes of a block.
pub open spec fn aes_block(key: Seq<u8>, block: Seq<u8>) -> Seq<u8> {
    if key.len() == 16 {
        cipher::aes128_block(key, block)
    } else {
        cipher::aes256_block(key, block)
    }
}

/// The low `n` bytes of a number, high byte first.
pub open spec fn be_bytes(value: int, n: int) -> Seq<u8>
    decreases n,
{
    if n <= 0 {
        Seq::empty()
    } else {
        be_bytes(value / 0x100, n - 1).push((value % 0x100) as u8)
    }
}

/// The block that starts the authentication of a message of `len` bytes.
pub open spec fn first_block(nonce: Seq<u8>, len: int) -> Seq<u8> {
    seq![(0x78 + (14 - nonce.len())) as u8] + nonce + be_bytes(len, 15 - nonce.len())
}

/// The block that the key stream comes from.
pub open spec fn counter_block_of(nonce: Seq<u8>, counter: int) -> Seq<u8> {
    seq![(14 - nonce.len()) as u8] + nonce + be_bytes(counter, 15 - nonce.len())
}

/// Two blocks, bit by bit exclusive.
pub open spec fn xor16(a: Seq<u8>, b: Seq<u8>) -> Seq<u8> {
    Seq::new(16, |i: int| a[i] ^ b[i])
}

/// The first 16 bytes, with zeros where there are fewer.
pub open spec fn padded_block(data: Seq<u8>) -> Seq<u8> {
    Seq::new(
        16,
        |i: int|
            if i < data.len() {
                data[i]
            } else {
                0u8
            },
    )
}

/// What is left behind the first 16 bytes.
pub open spec fn behind_block(data: Seq<u8>) -> Seq<u8> {
    if data.len() <= 16 { Seq::empty() } else { data.skip(16) }
}

/// The authentication state behind data that is taken in by blocks.
pub open spec fn mac_over(key: Seq<u8>, y: Seq<u8>, data: Seq<u8>) -> Seq<u8>
    decreases data.len(),
{
    if data.len() == 0 {
        y
    } else {
        mac_over(key, aes_block(key, xor16(y, padded_block(data))), behind_block(data))
    }
}

/// The associated data with its length in front.
pub open spec fn aad_message(aad: Seq<u8>) -> Seq<u8> {
    if aad.len() == 0 {
        Seq::empty()
    } else {
        be_bytes(aad.len() as u16 as int, 2) + aad
    }
}

/// The authentication value of a message.
pub open spec fn ccm_mac_of(key: Seq<u8>, nonce: Seq<u8>, plain: Seq<u8>, aad: Seq<u8>) -> Seq<u8> {
    let start = aes_block(key, xor16(wire::zeros(16), first_block(nonce, plain.len() as int)));
    mac_over(key, mac_over(key, start, aad_message(aad)), plain)
}

/// The key stream of a counter.
pub open spec fn stream_block(key: Seq<u8>, nonce: Seq<u8>, counter: int) -> Seq<u8> {
    aes_block(key, counter_block_of(nonce, counter))
}

/// Data under the key stream, from counter one on.
pub open spec fn crypted(key: Seq<u8>, nonce: Seq<u8>, data: Seq<u8>) -> Seq<u8> {
    Seq::new(data.len(), |i: int| data[i] ^ stream_block(key, nonce, 1 + i / 16)[i % 16])
}

/// The tag of a message.
pub open spec fn ccm_tag(key: Seq<u8>, nonce: Seq<u8>, plain: Seq<u8>, aad: Seq<u8>) -> Seq<u8> {
    xor16(ccm_mac_of(key, nonce, plain, aad), stream_block(key, nonce, 0))
}

/// A sealed message: the ciphertext and the tag behind it.
pub open spec fn ccm_sealed(key: Seq<u8>, nonce: Seq<u8>, plain: Seq<u8>, aad: Seq<u8>) -> Seq<u8> {
    crypted(key, nonce, plain) + ccm_tag(key, nonce, plain, aad)
}

/// The error that sealing fails with.
pub open spec fn ccm_seal_error(key: Seq<u8>, nonce: Seq<u8>) -> Option<ProtoError> {
    if !key_supported(key) {
        Some(ProtoError::Crypto("unsupported AES-CCM key length"))
    } else if nonce.len() < 7 || nonce.len() > 13 {
        Some(ProtoError::Crypto("invalid AES-CCM nonce length"))
    } else {
        None
    }
}

/// The message of a sealed one, before its tag is looked at.
pub open spec fn ccm_uncovered(key: Seq<u8>, nonce: Seq<u8>, sealed: Seq<u8>) -> Seq<u8> {
    crypted(key, nonce, sealed.take(sealed.len() - 16))
}

/// The error that opening fails with.
pub open spec fn ccm_open_error(
    key: Seq<u8>,
    nonce: Seq<u8>,
    sealed: Seq<u8>,
    aad: Seq<u8>,
) -> Option<ProtoError> {
    if ccm_seal_error(key, nonce) is Some {
        ccm_seal_error(key, nonce)
    } else if sealed.len() < 16 {
        Some(ProtoError::Crypto("short AES-CCM ciphertext"))
    } else if sealed.skip(sealed.len() - 16) != ccm_tag(
        key,
        nonce,
        ccm_uncovered(key, nonce, sealed),
        aad,
    ) {
        Some(ProtoError::Crypto("AES-CCM tag mismatch"))
    } else {
        None
    }
}

/// Encrypts a block.
fn encrypt_block(key: &[u8], block: [u8; 16]) -> (r: [u8; 16])
    requires
        key_supported(key@),
    ensures
        r@ == aes_block(key@, block@),
{
    if key.len() == 16 {
        aes128_encrypt_block(key, block)
    } else {
        aes256_encrypt_block(key, block)
    }
}

/// Two blocks, bit by bit exclusive.
fn xor_block(a: [u8; 16], b: [u8; 16]) -> (r: [u8; 16])
    ensures
        r@ == xor16(a@, b@),
{
    let mut r: [u8; 16] = [0u8; 16];
    let mut i: usize = 0;
    while i < 16
        invariant
            i <= 16,
            forall|j: int| 0 <= j < i ==> r@[j] == a@[j] ^ b@[j],
        decreases 16 - i,
    {
        r[i] = a[i] ^ b[i];
        i += 1;
    }
    assert(r@ =~= xor16(a@, b@));
    r
}

proof fn lemma_be_bytes_len(value: int, n: int)
    ensures
        be_bytes(value, n).len() == if n <= 0 { 0 } else { n },
    decreases n,
{
    if n > 0 {
        lemma_be_bytes_len(value / 0x100, n - 1);
    }
}

/// A block of a first byte, a nonce and a number that fills the rest.
fn numbered_block(first: u8, nonce: &[u8], value: u64) -> (r: [u8; 16])
    requires
        7 <= nonce@.len() <= 13,
    ensures
        r@ == seq![first] + nonce@ + be_bytes(value as int, 15 - nonce@.len()),
{
    let n: usize = nonce.len();
    let mut r: [u8; 16] = [0u8; 16];
    r[0] = first;
    let mut i: usize = 0;
    while i < n
        invariant
            i <= n <= 13,
            n == nonce@.len(),
            r@[0] == first,
            forall|j: int| 0 <= j < i ==> r@[1 + j] == nonce@[j],
        decreases n - i,
    {
        r[1 + i] = nonce[i];
        i += 1;
    }
    let ghost want = be_bytes(value as int, 15 - n);
    let mut rest: u64 = value;
    let mut left: usize = 15 - n;
    proof {
        lemma_be_bytes_len(value as int, 15 - n);
        assert(want =~= be_bytes(rest as int, left as int) + r@.subrange(
            1 + n + left as int,
            16,
        ));
    }
    while left > 0
        invariant
            7 <= n <= 13,
            n == nonce@.len(),
            left <= 15 - n,
            want.len() == 15 - n,
            r@[0] == first,
            forall|j: int| 0 <= j < n ==> r@[1 + j] == nonce@[j],
            want == be_bytes(rest as int, left as int) + r@.subrange(1 + n + left as int, 16),
        decreases left,
    {
        let ghost before = r@;
        r[n + left] = (rest % 0x100) as u8;
        proof {
            let tail = before.subrange(1 + n + left as int, 16);
            assert(r@.subrange(n + left as int, 16) =~= seq![(rest % 0x100) as u8] + tail);
            assert(want =~= be_bytes(rest as int / 0x100, left - 1) + r@.subrange(
                n + left as int,
                16,
            ));
        }
        rest = rest / 0x100;
        left -= 1;
    }
    assert(r@ =~= seq![first] + nonce@ + want);
    r
}

/// Takes data into the authentication state.
fn ccm_mac_blocks(key: &[u8], start: [u8; 16], data: &[u8]) -> (r: [u8; 16])
    requires
        key_supported(key@),
    ensures
        r@ == mac_over(key@, start@, data@),
{
    let mut y: [u8; 16] = start;
    let mut at: usize = 0;
    let len: usize = data.len();
    assert(data@.skip(0) =~= data@);
    while at < len
        invariant
            len == data@.len(),
            at <= len,
            key_supported(key@),
            mac_over(key@, start@, data@) == mac_over(key@, y@, data@.skip(at as int)),
        decreases len - at,
    {
        let ghost rest = data@.skip(at as int);
        let mut b: [u8; 16] = [0u8; 16];
        let n: usize = if len - at < 16 { len - at } else { 16 };
        let mut i: usize = 0;
        while i < n
            invariant
                i <= n <= 16,
                at + n <= len,
                len == data@.len(),
                forall|j: int| 0 <= j < i ==> b@[j] == data@[at + j],
                forall|j: int| i <= j < 16 ==> b@[j] == 0,
            decreases n - i,
        {
            b[i] = data[at + i];
            i += 1;
        }
        assert(b@ =~= padded_block(rest));
        y = encrypt_block(key, xor_block(y, b));
        at += n;
        assert(data@.skip(at as int) =~= behind_block(rest));
    }
    assert(data@.skip(at as int) =~= Seq::<u8>::empty());
    y
}

/// The authentication value of a message.
fn ccm_mac(key: &[u8], nonce: &[u8], plaintext: &[u8], aad: &[u8]) -> (r: [u8; 16])
    requires
        key_supported(key@),
        7 <= nonce@.len() <= 13,
    ensures
        r@ == ccm_mac_of(key@, nonce@, plaintext@, aad@),
{
    let zero: [u8; 16] = [0u8; 16];
    let first: [u8; 16] = numbered_block(
        (0x78 + (14 - nonce.len())) as u8,
        nonce,
        plaintext.len() as u64,
    );
    assert(zero@ =~= wire::zeros(16));
    let start: [u8; 16] = encrypt_block(key, xor_block(zero, first));
    let mut message: Vec<u8> = Vec::new();
    if aad.len() > 0 {
        let len: u16 = aad.len() as u16;
        message.push((len / 0x100) as u8);
        message.push((len % 0x100) as u8);
        wire::put_bytes(&mut message, aad);
        proof {
            reveal_with_fuel(be_bytes, 3);
            assert(be_bytes(len as int, 2) =~= seq![(len / 0x100) as u8, (len % 0x100) as u8]);
            assert(message@ =~= aad_message(aad@));
        }
    } else {
        assert(message@ =~= aad_message(aad@));
    }
    let y: [u8; 16] = ccm_mac_blocks(key, start, message.as_slice());
    ccm_mac_blocks(key, y, plaintext)
}

/// Puts data under the key stream.
fn ccm_crypt(key: &[u8], nonce: &[u8], src: &[u8]) -> (r: Vec<u8>)
    requires
        key_supported(key@),
        7 <= nonce@.len() <= 13,
    ensures
        r@ == crypted(key@, nonce@, src@),
{
    let mut out: Vec<u8> = Vec::new();
    let len: usize = src.len();
    let first: u8 = (14 - nonce.len()) as u8;
    while out.len() < len
        invariant
            len == src@.len(),
            out@.len() <= len,
            out@.len() % 16 == 0 || out@.len() == len,
            key_supported(key@),
            7 <= nonce@.len() <= 13,
            first == 14 - nonce@.len(),
            out@ == crypted(key@, nonce@, src@).take(out@.len() as int),
        decreases len - out@.len(),
    {
        let at: usize = out.len();
        let counter: u64 = at as u64 / 16 + 1;
        let stream: [u8; 16] = encrypt_block(key, numbered_block(first, nonce, counter));
        let n: usize = if len - at < 16 { len - at } else { 16 };
        let mut i: usize = 0;
        while i < n
            invariant
                i <= n <= 16,
                at + n <= len,
                at % 16 == 0,
                len == src@.len(),
                stream@ == stream_block(key@, nonce@, 1 + at as int / 16),
                out@ == crypted(key@, nonce@, src@).take(at + i),
            decreases n - i,
        {
            assert((at + i) as int / 16 == at as int / 16);
            assert((at + i) as int % 16 == i);
            out.push(src[at + i] ^ stream[i]);
            i += 1;
            assert(out@ =~= crypted(key@, nonce@, src@).take(at + i));
        }
    }
    assert(out@ =~= crypted(key@, nonce@, src@));
    out
}

/// The tag of a message.
fn tag_of(key: &[u8], nonce: &[u8], plaintext: &[u8], aad: &[u8]) -> (r: [u8; 16])
    requires
        key_supported(key@),
        7 <= nonce@.len() <= 13,
    ensures
        r@ == ccm_tag(key@, nonce@, plaintext@, aad@),
{
    let mac: [u8; 16] = ccm_mac(key, nonce, plaintext, aad);
    let s0: [u8; 16] = encrypt_block(key, numbered_block((14 - nonce.len()) as u8, nonce, 0));
    xor_block(mac, s0)
}

/// Compares a tag without stopping at the first difference.
fn constant_time_eq(a: &[u8; 16], b: &[u8]) -> (r: bool)
    ensures
        r == (a@ == b@),
{
    if b.len() != 16 {
        return false;
    }
    let mut diff: u8 = 0;
    let mut i: usize = 0;
    while i < 16
        invariant
            i <= 16,
            b@.len() == 16,
            diff == 0 <==> forall|j: int| 0 <= j < i ==> a@[j] == b@[j],
        decreases 16 - i,
    {
        let x: u8 = a[i];
        let y: u8 = b[i];
        assert((diff | (x ^ y)) == 0 <==> (diff == 0 && x == y)) by (bit_vector);
        diff = diff | (x ^ y);
        i += 1;
    }
    proof {
        if diff == 0 {
            assert(a@ =~= b@);
        }
    }
    diff == 0
}

/// Seals a message.
pub fn ccm_seal(key: &[u8], nonce: &[u8], plaintext: &[u8], aad: &[u8]) -> (r: ProtoResult<Vec<u8>>)
    ensures
        match r {
            Ok(v) => ccm_seal_error(key@, nonce@) is None && v@ == ccm_sealed(
                key@,
                nonce@,
                plaintext@,
                aad@,
            ) && v@.len() == plaintext@.len() + 16,
            Err(e) => ccm_seal_error(key@, nonce@) == Some(e),
        },
{
    if key.len() != 16 && key.len() != 32 {
        return Err(ProtoError::Crypto("unsupported AES-CCM key length"));
    }
    if nonce.len() < 7 || nonce.len() > 13 {
        return Err(ProtoError::Crypto("invalid AES-CCM nonce length"));
    }
    let tag: [u8; 16] = tag_of(key, nonce, plaintext, aad);
    let mut out: Vec<u8> = ccm_crypt(key, nonce, plaintext);
    wire::put_bytes(&mut out, tag.as_slice());
    Ok(out)
}

/// Opens a sealed message.
pub fn ccm_open(key: &[u8], nonce: &[u8], ciphertext: &[u8], aad: &[u8]) -> (r: ProtoResult<
    Vec<u8>,
>)
    ensures
        match r {
            Ok(v) => ccm_open_error(key@, nonce@, ciphertext@, aad@) is None && v@
                == ccm_uncovered(key@, nonce@, ciphertext@) && v@.len() + 16 == ciphertext@.len(),
            Err(e) => ccm_open_error(key@, nonce@, ciphertext@, aad@) == Some(e),
        },
{
    if key.len() != 16 && key.len() != 32 {
        return Err(ProtoError::Crypto("unsupported AES-CCM key length"));
    }
    if nonce.len() < 7 || nonce.len() > 13 {
        return Err(ProtoError::Crypto("invalid AES-CCM nonce length"));
    }
    if ciphertext.len() < TAG_LEN {
        return Err(ProtoError::Crypto("short AES-CCM ciphertext"));
    }
    let n: usize = ciphertext.len() - TAG_LEN;
    let covered: &[u8] = slice_subrange(ciphertext, 0, n);
    assert(covered@ =~= ciphertext@.take(n as int));
    let plain: Vec<u8> = ccm_crypt(key, nonce, covered);
    let want: [u8; 16] = tag_of(key, nonce, plain.as_slice(), aad);
    let got: &[u8] = slice_subrange(ciphertext, n, ciphertext.len());
    assert(got@ =~= ciphertext@.skip(n as int));
    if !constant_time_eq(&want, got) {
        return Err(ProtoError::Crypto("AES-CCM tag mismatch"));
    }
    Ok(plain)
}

/// What is sealed opens to the message again, under the same key, nonce and associated
/// data.
pub proof fn ccm_round_trip(key: Seq<u8>, nonce: Seq<u8>, plain: Seq<u8>, aad: Seq<u8>)
    requires
        ccm_seal_error(key, nonce) is None,
    ensures
        ccm_open_error(key, nonce, ccm_sealed(key, nonce, plain, aad), aad) is None,
        ccm_uncovered(key, nonce, ccm_sealed(key, nonce, plain, aad)) == plain,
{
    let sealed = ccm_sealed(key, nonce, plain, aad);
    let covered = crypted(key, nonce, plain);
    assert(sealed.take(sealed.len() - 16) =~= covered);
    assert(sealed.skip(sealed.len() - 16) =~= ccm_tag(key, nonce, plain, aad));
    assert forall|i: int| 0 <= i < plain.len() implies crypted(key, nonce, covered)[i]
        == plain[i] by {
        let x = plain[i];
        let s = stream_block(key, nonce, 1 + i / 16)[i % 16];
        assert((x ^ s) ^ s == x) by (bit_vector);
    }
    assert(crypted(key, nonce, covered) =~= plain);
}

} // verus!
