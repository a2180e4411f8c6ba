//! How encrypted and compressed frames are laid out, counted in bytes, and what the derivation
//! of keys and the counter mode are given.

use crate::proto::crypto::ccm;
use crate::proto::crypto::cipher;
use crate::proto::crypto::compression;
use crate::proto::crypto::compression::CompressionError;
use crate::proto::crypto::encryption;
use crate::proto::crypto::kdf;
use crate::proto::messages::layout;
use crate::wire;
use vstd::prelude::*;

verus! {

/// The message that a key comes from is the counter one, the label, a zero, the context and the
/// number of bits, the high byte first; the key is the front of its authentication code.
pub proof fn keys_come_from_label_and_context(
    key: Seq<u8>,
    label: Seq<u8>,
    context: Seq<u8>,
    len: int,
)
    requires
        0 <= len <= 32,
    ensures
        ({
            let m = kdf::kdf_message(label, context, len);
            let a = label.len();
            let b = context.len();
            &&& m.len() == 9 + a + b
            &&& m[0] == 0 && m[1] == 0 && m[2] == 0 && m[3] == 1
            &&& m.subrange(4, 4int + a) == label
            &&& m[4int + a] == 0
            &&& m.subrange(5int + a, 5int + a + b) == context
            &&& m[5int + a + b] == 0 && m[6int + a + b] == 0
            &&& 256 * m[7int + a + b] + m[8int + a + b] == 8 * len
            &&& kdf::derived_key(key, label, context, len) == cipher::hmac_sha256(
                key,
                m,
            ).subrange(0, len)
        }),
{
    let m = kdf::kdf_message(label, context, len);
    let a = label.len() as int;
    let b = context.len() as int;
    assert(m.subrange(4, 4 + a) =~= label);
    assert(m.subrange(5 + a, 5 + a + b) =~= context);
}

/// An encrypted frame has its sign, the tag, the nonce filled up with zeros to sixteen bytes, the
/// length of the message, two zero bytes, the flag one, the session and the ciphertext.
pub proof fn encrypted_frames_lie_in_place(
    nonce: Seq<u8>,
    plain_len: u32,
    session_id: u64,
    sealed: Seq<u8>,
)
    requires
        nonce.len() <= 16,
        sealed.len() >= 16,
    ensures
        ({
            let aad = encryption::transform_aad(nonce, plain_len as int, session_id);
            let b = encryption::transform_frame(aad, sealed);
            &&& b.len() == 36 + sealed.len()
            &&& b[0] == 0xFD && b[1] == 0x53 && b[2] == 0x4D && b[3] == 0x42
            &&& b.subrange(4, 20) == sealed.skip(sealed.len() - 16)
            &&& b.subrange(20, 20int + nonce.len()) == nonce
            &&& forall|i: int| 20int + nonce.len() <= i < 36 ==> #[trigger] b[i] == 0
            &&& layout::number(b, 36, 4) == plain_len
            &&& layout::number(b, 40, 2) == 0
            &&& layout::number(b, 42, 2) == 1
            &&& layout::number(b, 44, 8) == session_id
            &&& b.skip(52) == sealed.take(sealed.len() - 16)
            &&& b.subrange(20, 52) == aad
            &&& encryption::header_error(b) is None
            &&& encryption::frame_sealed(b) == sealed
        }),
{
    let aad = encryption::transform_aad(nonce, plain_len as int, session_id);
    let b = encryption::transform_frame(aad, sealed);
    let n = nonce.len() as int;
    assert(aad.len() == 32);
    assert(b.len() == 36 + sealed.len());
    layout::numbers_are_little_endian(b);
    assert(b.subrange(4, 20) =~= sealed.skip(sealed.len() - 16));
    assert(b.subrange(20, 52) =~= aad);
    assert(b.subrange(20, 20 + n) =~= nonce);
    assert(layout::number(b, 36, 4) == plain_len) by {
        assert(b.subrange(36, 40) =~= wire::bytes32(plain_len));
        wire::le32_of_bytes32(b, 36, plain_len);
    }
    assert(layout::number(b, 40, 2) == 0) by {
        assert(b.subrange(40, 42) =~= wire::bytes16(0));
        wire::le16_of_bytes16(b, 40, 0);
    }
    assert(wire::le16(b, 42) == 1) by {
        assert(b.subrange(42, 44) =~= wire::bytes16(1));
        wire::le16_of_bytes16(b, 42, 1);
    }
    assert(wire::le16(b, 42) == layout::number(b, 42, 2));
    assert(layout::number(b, 44, 8) == session_id) by {
        assert(b.subrange(44, 52) =~= wire::bytes64(session_id));
        wire::le64_of_bytes64(b, 44, session_id);
    }
    assert(b.skip(52) =~= sealed.take(sealed.len() - 16));
    assert(b.subrange(0, 4) =~= encryption::ENCRYPTION_MAGIC@);
    assert(encryption::frame_sealed(b) =~= sealed);
}

/// A frame is opened only where it is whole, has the sign of an encrypted one and the flag one,
/// and what comes out has the length that it names.
pub proof fn encrypted_frames_are_accepted_whole(b: Seq<u8>, plain_len: int)
    ensures
        encryption::is_transform(b) <==> (b.len() >= 4 && b[0] == 0xFD && b[1] == 0x53 && b[2]
            == 0x4D && b[3] == 0x42),
        encryption::header_error(b) is None <==> (b.len() >= 52 && encryption::is_transform(b)
            && layout::number(b, 42, 2) == 1),
        encryption::size_error(b, plain_len) is None <==> layout::number(b, 36, 4) == plain_len,
        b.len() >= 52 ==> ({
            let s = encryption::frame_sealed(b);
            s.take(b.len() - 52) == b.skip(52) && s.skip(b.len() - 52) == b.subrange(4, 20)
        }),
{
    layout::numbers_are_little_endian(b);
    assert(wire::le16(b, 42) == layout::number(b, 42, 2));
    assert(wire::le32(b, 36) == layout::number(b, 36, 4));
    if b.len() >= 4 {
        let p = b.subrange(0, 4);
        assert(p[0] == b[0] && p[1] == b[1] && p[2] == b[2] && p[3] == b[3]);
        if b[0] == 0xFD && b[1] == 0x53 && b[2] == 0x4D && b[3] == 0x42 {
            assert(p =~= encryption::ENCRYPTION_MAGIC@);
        }
    }
    if b.len() >= 52 {
        let s = encryption::frame_sealed(b);
        assert(s.take(b.len() - 52) =~= b.skip(52));
        assert(s.skip(b.len() - 52) =~= b.subrange(4, 20));
    }
}

/// A number in `n` bytes, the high byte first.
pub open spec fn big_number(b: Seq<u8>) -> int
    decreases b.len(),
{
    if b.len() == 0 {
        0
    } else {
        big_number(b.drop_last()) * 256 + b.last()
    }
}

/// How many numbers have `n` bytes.
pub open spec fn numbers_of(n: int) -> int
    decreases n,
{
    if n <= 0 {
        1
    } else {
        256 * numbers_of(n - 1)
    }
}

/// Counters and lengths are written with their high byte first.
pub proof fn counters_have_the_high_byte_first(value: int, n: int)
    requires
        0 <= value < numbers_of(n),
        0 <= n,
    ensures
        big_number(ccm::be_bytes(value, n)) == value,
        ccm::be_bytes(value, n).len() == n,
    decreases n,
{
    if n > 0 {
        assert(value / 0x100 < numbers_of(n - 1));
        counters_have_the_high_byte_first(value / 0x100, n - 1);
        let b = ccm::be_bytes(value, n);
        assert(b.drop_last() =~= ccm::be_bytes(value / 0x100, n - 1));
    }
}

/// The blocks that the authentication and the key stream start with hold a byte of flags, the
/// nonce, and the length or the counter in the bytes that are left of sixteen.
pub proof fn blocks_hold_nonce_and_number(nonce: Seq<u8>, x: int)
    requires
        7 <= nonce.len() <= 13,
        0 <= x < numbers_of(15 - nonce.len()),
    ensures
        ({
            let n = nonce.len() as int;
            let first = ccm::first_block(nonce, x);
            let counter = ccm::counter_block_of(nonce, x);
            &&& first.len() == 16 && counter.len() == 16
            &&& first[0] == 0x78 + 14 - n
            &&& counter[0] == 14 - n
            &&& first.subrange(1, 1 + n) == nonce && counter.subrange(1, 1 + n) == nonce
            &&& big_number(first.skip(1 + n)) == x
            &&& big_number(counter.skip(1 + n)) == x
        }),
{
    let n = nonce.len() as int;
    counters_have_the_high_byte_first(x, 15 - n);
    let first = ccm::first_block(nonce, x);
    let counter = ccm::counter_block_of(nonce, x);
    assert(first.subrange(1, 1 + n) =~= nonce);
    assert(counter.subrange(1, 1 + n) =~= nonce);
    assert(first.skip(1 + n) =~= ccm::be_bytes(x, 15 - n));
    assert(counter.skip(1 + n) =~= ccm::be_bytes(x, 15 - n));
}

/// The key stream starts at counter one; the tag is covered with the stream of counter zero.
pub proof fn streams_start_behind_the_tag(
    key: Seq<u8>,
    nonce: Seq<u8>,
    plain: Seq<u8>,
    aad: Seq<u8>,
    i: int,
)
    requires
        0 <= i < plain.len(),
    ensures
        ({
            let s = ccm::ccm_sealed(key, nonce, plain, aad);
            let block = ccm::aes_block(key, ccm::counter_block_of(nonce, 1 + i / 16));
            &&& s.len() == plain.len() + 16
            &&& s[i] == plain[i] ^ block[i % 16]
            &&& forall|j: int| 0 <= j < 16 ==> #[trigger] s.skip(plain.len() as int)[j]
                == ccm::ccm_mac_of(key, nonce, plain, aad)[j] ^ ccm::aes_block(
                key,
                ccm::counter_block_of(nonce, 0),
            )[j]
        }),
        key.len() == 16 ==> ccm::aes_block(key, plain) == cipher::aes128_block(key, plain),
        key.len() == 32 ==> ccm::aes_block(key, plain) == cipher::aes256_block(key, plain),
{
    let s = ccm::ccm_sealed(key, nonce, plain, aad);
    assert(s.skip(plain.len() as int) =~= ccm::ccm_tag(key, nonce, plain, aad));
}

/// Data is authenticated in blocks of sixteen bytes, the last one filled up with zeros; each block
/// is joined with what came out of the one before.
pub proof fn data_is_authenticated_in_blocks(key: Seq<u8>, y: Seq<u8>, data: Seq<u8>, x: Seq<u8>)
    requires
        data.len() > 0,
        x.len() == 16,
        forall|i: int|
            0 <= i < 16 ==> #[trigger] x[i] == y[i] ^ (if i < data.len() {
                data[i]
            } else {
                0u8
            }),
    ensures
        data.len() <= 16 ==> ccm::mac_over(key, y, data) == ccm::aes_block(key, x),
        data.len() > 16 ==> ccm::mac_over(key, y, data) == ccm::mac_over(
            key,
            ccm::aes_block(key, x),
            data.skip(16),
        ),
        ccm::mac_over(key, y, Seq::empty()) == y,
{
    assert(ccm::xor16(y, ccm::padded_block(data)) =~= x);
    reveal_with_fuel(ccm::mac_over, 2);
}

/// Associated data is authenticated behind its length of two bytes; without any there is nothing.
pub proof fn associated_data_has_its_length_in_front(aad: Seq<u8>)
    requires
        aad.len() <= 0xffff,
    ensures
        aad.len() == 0 ==> ccm::aad_message(aad).len() == 0,
        aad.len() > 0 ==> big_number(ccm::aad_message(aad).take(2)) == aad.len()
            && ccm::aad_message(aad).skip(2) == aad,
{
    if aad.len() > 0 {
        let m = ccm::aad_message(aad);
        reveal_with_fuel(numbers_of, 3);
        counters_have_the_high_byte_first(aad.len() as int, 2);
        assert(m.take(2) =~= ccm::be_bytes(aad.len() as int, 2));
        assert(m.skip(2) =~= aad);
    }
}

/// A frame that is compressed as a whole has its sign, the length of the plain frame, the
/// algorithm, no flags and the length of what stands plain in front; it is accepted only where
/// the algorithm is allowed and what comes out has the length that it names and the sign of a
/// plain frame.
pub proof fn frames_compressed_as_a_whole(frame: Seq<u8>, allowed: Seq<u16>, max: int)
    requires
        frame.len() >= 16,
        layout::number(frame, 10, 2) == 0,
        compression::transform_plain(frame, allowed, max) is Ok,
    ensures
        ({
            let plain = compression::transform_plain(frame, allowed, max)->Ok_0;
            let len = layout::number(frame, 4, 4);
            let algorithm = layout::number(frame, 8, 2);
            let front = layout::number(frame, 12, 4);
            let payload = frame.skip(16 + front);
            &&& frame[0] == 0xFC && frame[1] == 0x53 && frame[2] == 0x4D && frame[3] == 0x42
            &&& plain[0] == 0xFE && plain[1] == 0x53 && plain[2] == 0x4D && plain[3] == 0x42
            &&& plain.len() == len
            &&& len != 0
            &&& max != 0 ==> len <= max
            &&& allowed.contains(algorithm as u16)
            &&& 16 + front <= frame.len()
            &&& compression::payload_plain(algorithm, payload, len) matches Ok(x) && plain
                == frame.subrange(16, 16 + front) + x
        }),
{
    layout::numbers_are_little_endian(frame);
    assert(wire::le32(frame, 4) == layout::number(frame, 4, 4));
    assert(wire::le16(frame, 8) == layout::number(frame, 8, 2));
    assert(wire::le16(frame, 10) == layout::number(frame, 10, 2));
    assert(wire::le32(frame, 12) == layout::number(frame, 12, 4));
    let p = frame.subrange(0, 4);
    assert(p[0] == frame[0] && p[1] == frame[1] && p[2] == frame[2] && p[3] == frame[3]);
    let front = wire::le32(frame, 12);
    assert(frame.skip(16 + front) =~= frame.subrange(16 + front, frame.len() as int));
    let plain = compression::transform_plain(frame, allowed, max)->Ok_0;
    let q = plain.subrange(0, 4);
    assert(q[0] == plain[0] && q[1] == plain[1] && q[2] == plain[2] && q[3] == plain[3]);
}

/// Nothing but payloads as they are, LZ77 and patterns is expanded: a payload as it is comes out
/// unchanged, a pattern comes out as its first byte as often as its last four bytes say.
pub proof fn payloads_expand_by_their_algorithm(algorithm: int, payload: Seq<u8>, limit: int)
    ensures
        algorithm == 0 ==> compression::payload_plain(algorithm, payload, limit)
            == Ok::<Seq<u8>, CompressionError>(payload),
        algorithm == 4 && payload.len() == 8 && layout::number(payload, 4, 4) <= limit ==> (
        compression::payload_plain(algorithm, payload, limit) matches Ok(x) && x.len()
            == layout::number(payload, 4, 4) && forall|i: int|
            0 <= i < x.len() ==> #[trigger] x[i] == payload[0]),
        algorithm == 4 && (payload.len() != 8 || layout::number(payload, 4, 4) > limit)
            ==> compression::payload_plain(algorithm, payload, limit) == Err::<
            Seq<u8>,
            CompressionError,
        >(CompressionError::Invalid),
        algorithm == 2 ==> (compression::payload_plain(algorithm, payload, limit) matches Ok(x)
            ==> x.len() == limit && crate::proto::crypto::lz77::lz77_decode(payload) == Some(x)),
        algorithm == 2 && compression::payload_plain(algorithm, payload, limit) is Err ==> (
        crate::proto::crypto::lz77::lz77_decode(payload) matches Some(x) ==> x.len() != limit),
        algorithm != 0 && algorithm != 2 && algorithm != 4 ==> compression::payload_plain(
            algorithm,
            payload,
            limit,
        ) == Err::<Seq<u8>, CompressionError>(CompressionError::Unsupported),
{
    layout::numbers_are_little_endian(payload);
    assert(wire::le32(payload, 4) == layout::number(payload, 4, 4));
}

/// A part of a chain has its algorithm, its flags, its length and its payload; LZ77 has its own
/// length in front of what is packed. The first part has the chain's flag, the others have none.
pub proof fn chains_expand_part_by_part(
    data: Seq<u8>,
    allowed: Seq<u16>,
    original: int,
    at: int,
    out: Seq<u8>,
)
    requires
        0 <= at < data.len(),
        compression::chain_plain(data, allowed, original, at, out) is Ok,
    ensures
        ({
            let algorithm = layout::number(data, at, 2);
            let flags = layout::number(data, at + 2, 2);
            let len = layout::number(data, at + 4, 4);
            let payload = data.subrange(at + 8, at + 8 + len);
            &&& at + 8 + len <= data.len()
            &&& at == 0 ==> flags % 2 == 1
            &&& at != 0 ==> flags == 0
            &&& algorithm == 0 || allowed.contains(algorithm as u16)
            &&& compression::chained_payload_plain(algorithm, payload, original - out.len())
                matches Ok(x) && out.len() + x.len() <= original && compression::chain_plain(
                data,
                allowed,
                original,
                at,
                out,
            ) == compression::chain_plain(data, allowed, original, at + 8 + len, out + x)
            &&& algorithm != 2 ==> compression::chained_payload_plain(
                algorithm,
                payload,
                original - out.len(),
            ) == compression::payload_plain(algorithm, payload, original - out.len())
            &&& algorithm == 2 ==> len >= 4 && layout::number(data, at + 8, 4) <= original
                - out.len() && compression::chained_payload_plain(
                algorithm,
                payload,
                original - out.len(),
            ) == compression::payload_plain(
                2,
                payload.skip(4),
                layout::number(data, at + 8, 4),
            )
        }),
        compression::chain_plain(data, allowed, original, data.len() as int, out) == Ok::<
            Seq<u8>,
            CompressionError,
        >(out),
{
    layout::numbers_are_little_endian(data);
    assert(wire::le16(data, at) == layout::number(data, at, 2));
    assert(wire::le16(data, at + 2) == layout::number(data, at + 2, 2));
    assert(wire::le16(data, 2) == layout::number(data, 2, 2));
    assert(wire::le32(data, at + 4) == layout::number(data, at + 4, 4));
    assert(wire::le32(data, at + 8) == layout::number(data, at + 8, 4));
    let len = wire::le32(data, at + 4);
    let payload = data.subrange(at + 8, at + 8 + len);
    if len >= 4 {
        assert(payload[0] == data[at + 8] && payload[1] == data[at + 9] && payload[2] == data[at
            + 10] && payload[3] == data[at + 11]);
        assert(payload.skip(4) =~= payload.subrange(4, payload.len() as int));
    }
}

/// A plain frame is sent in LZ77 where that is shorter, behind its length and no plain front.
pub proof fn packed_frames_lie_in_place(plain: Seq<u8>)
    requires
        plain.len() <= 0xffff_ffff,
    ensures
        ({
            let packed = crate::proto::crypto::lz77::lz77_encode(plain);
            let sent = compression::response_frame(plain, 2);
            &&& sent is Some <==> plain.len() > 16 && plain[0] == 0xFE && plain[1] == 0x53
                && plain[2] == 0x4D && plain[3] == 0x42 && packed.len() < plain.len()
            &&& sent matches Some(b) ==> b[0] == 0xFC && b[1] == 0x53 && b[2] == 0x4D && b[3]
                == 0x42 && layout::number(b, 4, 4) == plain.len() && layout::number(b, 8, 2) == 2
                && layout::number(b, 10, 2) == 0 && layout::number(b, 12, 4) == 0 && b.skip(16)
                == packed
        }),
{
    let packed = crate::proto::crypto::lz77::lz77_encode(plain);
    if plain.len() > 16 {
        let q = plain.subrange(0, 4);
        assert(q[0] == plain[0] && q[1] == plain[1] && q[2] == plain[2] && q[3] == plain[3]);
        if plain[0] == 0xFE && plain[1] == 0x53 && plain[2] == 0x4D && plain[3] == 0x42 {
            assert(q =~= compression::SMB2_MAGIC@);
        }
    }
    if let Some(b) = compression::lz77_frame(plain) {
        layout::numbers_are_little_endian(b);
        assert(b.len() == 16 + packed.len());
        assert(layout::number(b, 4, 4) == plain.len()) by {
            assert(b.subrange(4, 8) =~= wire::bytes32(plain.len() as u32));
            wire::le32_of_bytes32(b, 4, plain.len() as u32);
        }
        assert(layout::number(b, 8, 2) == 2) by {
            assert(b.subrange(8, 10) =~= wire::bytes16(2));
            wire::le16_of_bytes16(b, 8, 2);
        }
        assert(layout::number(b, 10, 2) == 0) by {
            assert(b.subrange(10, 12) =~= wire::bytes16(0));
            wire::le16_of_bytes16(b, 10, 0);
        }
        assert(layout::number(b, 12, 4) == 0) by {
            assert(b.subrange(12, 16) =~= wire::bytes32(0));
            wire::le32_of_bytes32(b, 12, 0);
        }
        assert(b.skip(16) =~= packed);
    }
}

/// The parts of a chain that the server sends: a pattern has its byte, three zeros and how often
/// it comes; plain bytes stand as they are behind the chain's flag.
pub proof fn parts_of_a_chain_lie_in_place(flags: u16, byte: u8, times: u32, front: Seq<u8>)
    requires
        front.len() <= 0xffff_ffff,
    ensures
        ({
            let b = compression::pattern_part(flags, byte, times);
            &&& b.len() == 16
            &&& layout::number(b, 0, 2) == 4
            &&& layout::number(b, 2, 2) == flags
            &&& layout::number(b, 4, 4) == 8
            &&& b[8] == byte && b[9] == 0 && b[10] == 0 && b[11] == 0
            &&& layout::number(b, 12, 4) == times
        }),
        ({
            let b = compression::plain_part(front);
            &&& b.len() == 8 + front.len()
            &&& layout::number(b, 0, 2) == 0
            &&& layout::number(b, 2, 2) == 1
            &&& layout::number(b, 4, 4) == front.len()
            &&& b.skip(8) == front
        }),
{
    reveal(compression::pattern_part);
    reveal(compression::plain_part);
    let b = compression::pattern_part(flags, byte, times);
    layout::numbers_are_little_endian(b);
    assert(layout::number(b, 0, 2) == 4) by {
        assert(b.subrange(0, 2) =~= wire::bytes16(4));
        wire::le16_of_bytes16(b, 0, 4);
    }
    assert(layout::number(b, 2, 2) == flags) by {
        assert(b.subrange(2, 4) =~= wire::bytes16(flags));
        wire::le16_of_bytes16(b, 2, flags);
    }
    assert(layout::number(b, 4, 4) == 8) by {
        assert(b.subrange(4, 8) =~= wire::bytes32(8));
        wire::le32_of_bytes32(b, 4, 8);
    }
    assert(layout::number(b, 12, 4) == times) by {
        assert(b.subrange(12, 16) =~= wire::bytes32(times));
        wire::le32_of_bytes32(b, 12, times);
    }
    let c = compression::plain_part(front);
    layout::numbers_are_little_endian(c);
    assert(layout::number(c, 0, 2) == 0) by {
        assert(c.subrange(0, 2) =~= wire::bytes16(0));
        wire::le16_of_bytes16(c, 0, 0);
    }
    assert(layout::number(c, 2, 2) == 1) by {
        assert(c.subrange(2, 4) =~= wire::bytes16(1));
        wire::le16_of_bytes16(c, 2, 1);
    }
    assert(layout::number(c, 4, 4) == front.len()) by {
        assert(c.subrange(4, 8) =~= wire::bytes32(front.len() as u32));
        wire::le32_of_bytes32(c, 4, front.len() as u32);
    }
    assert(c.skip(8) =~= front);
}

/// Where a run of the last byte starts: all bytes from there on are the last one, and the one
/// before is another.
pub proof fn runs_are_as_long_as_they_can_be(plain: Seq<u8>, start: int)
    requires
        0 <= start < plain.len(),
        forall|i: int| start <= i < plain.len() ==> #[trigger] plain[i] == plain.last(),
    ensures
        ({
            let at = compression::last_run_start(plain, start);
            &&& 0 <= at <= start
            &&& forall|i: int| at <= i < plain.len() ==> #[trigger] plain[i] == plain.last()
            &&& at > 0 ==> plain[at - 1] != plain.last()
        }),
    decreases start,
{
    if start > 0 && plain[start - 1] == plain.last() {
        runs_are_as_long_as_they_can_be(plain, start - 1);
    }
}

/// Only LZ77 and patterns are sent; a pattern is sent for a run of more than 32 bytes that makes
/// the frame shorter, with what stands in front of it plain.
pub proof fn patterns_are_sent_for_long_runs(plain: Seq<u8>, algorithm: u16)
    requires
        plain.len() <= 0xffff_ffff,
    ensures
        algorithm != 2 && algorithm != 4 ==> compression::response_frame(plain, algorithm) is None,
        compression::response_frame(plain, 4) matches Some(b) ==> ({
            let at = compression::last_run_start(plain, plain.len() - 1);
            let times = plain.len() - at;
            &&& plain.len() > 32 && times > 32
            &&& b.len() < plain.len()
            &&& b[0] == 0xFC && b[1] == 0x53 && b[2] == 0x4D && b[3] == 0x42
            &&& layout::number(b, 4, 4) == plain.len()
            &&& at == 0 ==> b.skip(8) == compression::pattern_part(1, plain.last(), times as u32)
            &&& at != 0 ==> b.skip(8) == compression::plain_part(plain.take(at))
                + compression::pattern_part(0, plain.last(), times as u32)
        }),
{
    if let Some(b) = compression::response_frame(plain, 4) {
        let at = compression::last_run_start(plain, plain.len() - 1);
        runs_are_as_long_as_they_can_be(plain, plain.len() - 1);
        let times = plain.len() - at;
        parts_of_a_chain_lie_in_place(1, plain.last(), times as u32, plain.take(at));
        parts_of_a_chain_lie_in_place(0, plain.last(), times as u32, plain.take(at));
        assert(plain.take(at) =~= plain.subrange(0, at));
        layout::numbers_are_little_endian(b);
        assert(layout::number(b, 4, 4) == plain.len()) by {
            assert(b.subrange(4, 8) =~= wire::bytes32(plain.len() as u32));
            wire::le32_of_bytes32(b, 4, plain.len() as u32);
        }
        if at == 0 {
            assert(b.skip(8) =~= compression::pattern_part(1, plain.last(), times as u32));
        } else {
            assert(b.skip(8) =~= compression::plain_part(plain.take(at))
                + compression::pattern_part(0, plain.last(), times as u32));
        }
    }
}

} // verus!
