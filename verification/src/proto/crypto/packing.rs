//! How packed data is read, item by item, and which matches are chosen to pack it; and what the
//! ciphers are given of a frame.

use crate::proto::crypto::ccm;
use crate::proto::crypto::cipher;
use crate::proto::crypto::encryption;
use crate::proto::crypto::lz77;
use crate::proto::crypto::lz77::Reader;
use crate::proto::messages::layout;
use crate::wire;
use vstd::prelude::*;

verus! {

proof fn lemma_first_flag(f: u32)
    by (bit_vector)
    ensures
        f & (1u32 << 31u32) != 0 ==> f >= 0x8000_0000,
        f >= 0x8000_0000 ==> f & (1u32 << 31u32) != 0,
        f & (1u32 << 0u32) != 0 ==> f % 2 == 1,
        f % 2 == 1 ==> f & (1u32 << 0u32) != 0,
{
}

/// A group of items starts with four bytes of flags, the low byte first; the highest bit is for
/// the first item and the lowest for the last.
pub proof fn groups_start_with_their_flags(b: Seq<u8>, r: Reader)
    requires
        r.count == 0,
        r.pos + 4 <= b.len(),
    ensures
        ({
            let flags = layout::number(b, r.pos, 4);
            let inside = Reader { pos: r.pos + 4, flags: flags as u32, count: 32, ..r };
            &&& lz77::read_item(b, r) == lz77::read_item(b, inside)
            &&& lz77::flag_set(flags as u32, 31) <==> flags >= 0x8000_0000
            &&& lz77::flag_set(flags as u32, 0) <==> flags % 2 == 1
        }),
{
    layout::numbers_are_little_endian(b);
    assert(wire::le32(b, r.pos) == layout::number(b, r.pos, 4));
    lemma_first_flag(wire::le32(b, r.pos) as u32);
}

/// A byte whose flag is not set stands for itself.
pub proof fn bytes_without_flag_stand_for_themselves(b: Seq<u8>, r: Reader)
    requires
        r.count > 0,
        !lz77::flag_set(r.flags, (r.count - 1) as u32),
    ensures
        r.pos < b.len() ==> (lz77::read_item(b, r) matches Some(s) && s.out == r.out.push(b[r.pos])
            && s.pos == r.pos + 1 && s.count == r.count - 1 && s.flags == r.flags && s.nibble
            == r.nibble),
        r.pos >= b.len() ==> lz77::read_item(b, r) is None,
{
}

/// Two bytes whose flag is set stand for a repetition: their upper thirteen bits are the distance
/// less one, their lower three bits the length less three, unless these are all set. A repetition
/// does not reach back behind the start.
pub proof fn flagged_bytes_stand_for_a_repetition(b: Seq<u8>, r: Reader)
    requires
        r.count > 0,
        lz77::flag_set(r.flags, (r.count - 1) as u32),
        r.pos + 2 <= b.len(),
        layout::number(b, r.pos, 2) % 8 != 7,
    ensures
        ({
            let token = layout::number(b, r.pos, 2);
            let distance = token / 8 + 1;
            let length = token % 8 + 3;
            &&& distance <= r.out.len() ==> (lz77::read_item(b, r) matches Some(s) && s.out
                == lz77::repeated(r.out, distance, length) && s.pos == r.pos + 2 && s.count
                == r.count - 1 && s.nibble == r.nibble && s.flags == r.flags)
            &&& distance > r.out.len() ==> lz77::read_item(b, r) is None
        }),
{
    layout::numbers_are_little_endian(b);
    assert(wire::le16(b, r.pos) == layout::number(b, r.pos, 2));
}

/// A longer repetition has its length behind: in half a byte, the lower half first, the upper one
/// kept for the next; then in a byte, in two bytes, or in four.
pub proof fn long_repetitions_have_their_length_behind(b: Seq<u8>, pos: int, nibble: Option<int>)
    requires
        nibble matches Some(n) ==> 0 <= n < b.len(),
        nibble is None ==> 0 <= pos < b.len(),
    ensures
        ({
            let half = if nibble is Some {
                b[nibble->0] as int / 16
            } else {
                b[pos] as int % 16
            };
            let at = if nibble is Some {
                pos
            } else {
                pos + 1
            };
            let left = if nibble is Some {
                None::<int>
            } else {
                Some(pos)
            };
            let r = lz77::long_length(b, pos, nibble);
            &&& half < 15 ==> r == Some((7 + half, at, left))
            &&& half == 15 && at < b.len() && b[at] < 255 ==> r == Some(
                (15int + 7 + b[at], at + 1, left),
            )
            &&& half == 15 && at + 3 <= b.len() && b[at] == 255 && layout::number(b, at + 1, 2)
                >= 22 ==> r == Some((layout::number(b, at + 1, 2), at + 3, left))
            &&& half == 15 && at + 3 <= b.len() && b[at] == 255 && 0 < layout::number(b, at + 1, 2)
                < 22 ==> r is None
            &&& half == 15 && at + 7 <= b.len() && b[at] == 255 && layout::number(b, at + 1, 2) == 0
                && layout::number(b, at + 3, 4) >= 22 ==> r == Some(
                (layout::number(b, at + 3, 4), at + 7, left),
            )
            &&& half == 15 && at >= b.len() ==> r is None
        }),
{
    layout::numbers_are_little_endian(b);
    let at = if nibble is Some {
        pos
    } else {
        pos + 1
    };
    assert(wire::le16(b, at + 1) == layout::number(b, at + 1, 2));
    assert(wire::le32(b, at + 3) == layout::number(b, at + 3, 4));
}

/// A repetition leaves what came before and adds bytes that are each equal to the one the distance
/// back.
pub proof fn repetitions_copy_what_came_before(out: Seq<u8>, distance: int, n: int)
    requires
        1 <= distance <= out.len(),
        0 <= n,
    ensures
        ({
            let all = lz77::repeated(out, distance, n);
            &&& all.len() == out.len() + n
            &&& all.take(out.len() as int) == out
            &&& forall|i: int| out.len() <= i < all.len() ==> #[trigger] all[i] == all[i - distance]
        }),
    decreases n,
{
    if n > 0 {
        let next = out.push(out[out.len() - distance]);
        repetitions_copy_what_came_before(next, distance, n - 1);
        let all = lz77::repeated(out, distance, n);
        let kept = all.take(next.len() as int);
        assert forall|i: int| 0 <= i < out.len() implies all[i] == out[i] by {
            assert(kept[i] == next[i]);
        }
        assert(all.take(out.len() as int) =~= out);
        assert forall|i: int| out.len() <= i < all.len() implies #[trigger] all[i] == all[i
            - distance] by {
            if i == out.len() {
                assert(kept[i] == next[i]);
                assert(all[i - distance] == out[i - distance]);
            }
        }
    } else {
        assert(out.take(out.len() as int) =~= out);
    }
}

/// No match within reach is longer than the one that is chosen, and the chosen one is a match.
pub proof fn the_longest_match_is_chosen(input: Seq<u8>, pos: int, reach: int, other: int)
    requires
        1 <= other <= reach,
    ensures
        ({
            let limit = lz77::match_limit(input, pos);
            let best = lz77::best_match(input, pos, reach);
            &&& lz77::run_length(input, other, pos, 0, limit) <= best.1
            &&& best.1 > 0 ==> 1 <= best.0 <= reach && best.1 == lz77::run_length(
                input,
                best.0,
                pos,
                0,
                limit,
            )
        }),
    decreases reach,
{
    if other < reach {
        the_longest_match_is_chosen(input, pos, reach - 1, other);
    } else if reach > 1 {
        the_longest_match_is_chosen(input, pos, reach - 1, reach - 1);
    } else {
        reveal_with_fuel(lz77::best_match, 2);
    }
}

/// GCM is used with the key length that the key has, on the message, under the nonce, with the
/// header of the frame behind the tag as associated data.
pub proof fn frames_are_sealed_with_their_header(
    key: Seq<u8>,
    session_id: u64,
    plain: Seq<u8>,
    nonce: Seq<u8>,
)
    requires
        nonce.len() == 12,
        plain.len() <= 0xffff_ffff,
        encryption::gcm_sealed_whole(key, session_id, plain, nonce),
    ensures
        ({
            let frame = encryption::gcm_frame(key, session_id, plain, nonce);
            let aad = frame.subrange(20, 52);
            &&& frame.len() == 52 + plain.len()
            &&& frame.subrange(20, 32) == nonce
            &&& layout::number(frame, 36, 4) == plain.len()
            &&& layout::number(frame, 44, 8) == session_id
            &&& key.len() == 16 ==> encryption::frame_sealed(frame) == cipher::aes128_gcm_sealed(
                key,
                nonce,
                plain,
                aad,
            )
            &&& key.len() == 32 ==> encryption::frame_sealed(frame) == cipher::aes256_gcm_sealed(
                key,
                nonce,
                plain,
                aad,
            )
            &&& key.len() == 16 ==> encryption::gcm_frame_opened(key, frame)
                == cipher::aes128_gcm_opened(key, nonce, encryption::frame_sealed(frame), aad)
            &&& key.len() == 32 ==> encryption::gcm_frame_opened(key, frame)
                == cipher::aes256_gcm_opened(key, nonce, encryption::frame_sealed(frame), aad)
        }),
{
    let aad = encryption::transform_aad(nonce, plain.len() as int, session_id);
    let sealed = encryption::gcm_sealed(key, nonce, plain, aad);
    crate::proto::crypto::framing::encrypted_frames_lie_in_place(
        nonce,
        plain.len() as u32,
        session_id,
        sealed,
    );
    let frame = encryption::gcm_frame(key, session_id, plain, nonce);
    assert(frame.subrange(20, 32) =~= nonce);
}

/// CCM takes eleven bytes of the field of the nonce, and the same header.
pub proof fn frames_are_sealed_by_ccm_with_their_header(
    key: Seq<u8>,
    session_id: u64,
    plain: Seq<u8>,
    nonce: Seq<u8>,
)
    requires
        nonce.len() == 11,
        plain.len() <= 0xffff_ffff,
    ensures
        ({
            let frame = encryption::ccm_frame(key, session_id, plain, nonce);
            let aad = frame.subrange(20, 52);
            &&& frame.len() == 52 + plain.len()
            &&& frame.subrange(20, 31) == nonce
            &&& layout::number(frame, 36, 4) == plain.len()
            &&& layout::number(frame, 44, 8) == session_id
            &&& encryption::frame_sealed(frame) == ccm::ccm_sealed(key, nonce, plain, aad)
        }),
{
    let aad = encryption::transform_aad(nonce, plain.len() as int, session_id);
    let sealed = ccm::ccm_sealed(key, nonce, plain, aad);
    crate::proto::crypto::framing::encrypted_frames_lie_in_place(
        nonce,
        plain.len() as u32,
        session_id,
        sealed,
    );
    let frame = encryption::ccm_frame(key, session_id, plain, nonce);
    assert(frame.subrange(20, 31) =~= nonce);
}

/// Keys of sixteen and of thirty-two bytes are taken, nonces for CCM of seven to thirteen bytes,
/// and messages for GCM of up to 2^36 bytes; nothing else is sealed.
pub proof fn keys_and_nonces_have_their_lengths(key: Seq<u8>, nonce: Seq<u8>, plain: Seq<u8>)
    ensures
        ccm::key_supported(key) <==> key.len() == 16 || key.len() == 32,
        ccm::ccm_seal_error(key, nonce) is None <==> (key.len() == 16 || key.len() == 32) && 7
            <= nonce.len() <= 13,
        encryption::gcm_seal_error(key, plain) is None <==> (key.len() == 16 || key.len() == 32)
            && plain.len() <= 0x10_0000_0000,
{
}

/// A frame is not opened where its header is refused, where the key has another length, where the
/// cipher refuses it, or where another length comes out than it names.
pub proof fn frames_are_opened_by_their_key(key: Seq<u8>, frame: Seq<u8>)
    ensures
        encryption::gcm_open_error(key, frame) is None <==> {
            &&& encryption::header_error(frame) is None
            &&& key.len() == 16 || key.len() == 32
            &&& encryption::gcm_frame_opened(key, frame) matches Some(plain) && plain.len()
                == layout::number(frame, 36, 4)
        },
        encryption::ccm_frame_error(key, frame) is None <==> {
            &&& encryption::header_error(frame) is None
            &&& ccm::ccm_open_error(
                key,
                frame.subrange(20, 31),
                encryption::frame_sealed(frame),
                frame.subrange(20, 52),
            ) is None
            &&& encryption::ccm_frame_opened(key, frame).len() == layout::number(frame, 36, 4)
        },
{
    layout::numbers_are_little_endian(frame);
    assert(wire::le32(frame, 36) == layout::number(frame, 36, 4));
}

/// What CCM opens has the tag that the message has under the key, the nonce and the associated
/// data; any other tag is refused.
pub proof fn only_the_right_tag_is_accepted(
    key: Seq<u8>,
    nonce: Seq<u8>,
    sealed: Seq<u8>,
    aad: Seq<u8>,
)
    requires
        key.len() == 16 || key.len() == 32,
        7 <= nonce.len() <= 13,
        sealed.len() >= 16,
    ensures
        ccm::ccm_open_error(key, nonce, sealed, aad) is None <==> sealed == ccm::ccm_sealed(
            key,
            nonce,
            ccm::ccm_uncovered(key, nonce, sealed),
            aad,
        ),
{
    let plain = ccm::ccm_uncovered(key, nonce, sealed);
    let again = ccm::ccm_sealed(key, nonce, plain, aad);
    let n = sealed.len() - 16;
    let covered = sealed.take(n);
    assert forall|i: int| 0 <= i < n implies ccm::crypted(key, nonce, plain)[i] == covered[i] by {
        lemma_twice(covered[i], ccm::stream_block(key, nonce, 1 + i / 16)[i % 16]);
    }
    assert(ccm::crypted(key, nonce, plain) =~= covered);
    assert(again.skip(n) =~= ccm::ccm_tag(key, nonce, plain, aad));
    if sealed.skip(n) == ccm::ccm_tag(key, nonce, plain, aad) {
        assert(sealed =~= covered + sealed.skip(n));
    }
}

proof fn lemma_twice(x: u8, s: u8)
    by (bit_vector)
    ensures
        (x ^ s) ^ s == x,
{
}

} // verus!
