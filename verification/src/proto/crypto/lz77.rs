//! The XPRESS plain LZ77 format: groups of up to 32 items behind a flag word.
//!
//! An item is a literal byte or a match that repeats earlier output. A match is
//! a 16-bit token; a length that does not fit in it goes on in a half byte, which
//! two matches share, and from there in whole bytes.

use crate::proto::crypto::compression::{CompressionError, CompressionResult};
use crate::wire;
use vstd::prelude::*;

verus! {

/// Farthest distance that a match reaches back.
pub const MAX_WINDOW: usize = 8192;

/// Longest match that is written.
pub const MAX_MATCH: usize = 8192;

// ---------------------------------------------------------------------------
// The format, read
// ---------------------------------------------------------------------------

/// A reader of a compressed stream: where it stands, the half byte that is left
/// over from an earlier match, the flag word with the number of its bits that are
/// still to come, and the output so far.
pub struct Reader {
    pub pos: int,
    pub nibble: Option<int>,
    pub flags: u32,
    pub count: int,
    pub out: Seq<u8>,
}

/// Whether bit number `bit` of a flag word is set.
pub open spec fn flag_set(flags: u32, bit: u32) -> bool {
    flags & (1u32 << bit) != 0
}

/// `out` with `n` bytes appended, each a copy of the byte `offset` back.
pub open spec fn repeated(out: Seq<u8>, offset: int, n: int) -> Seq<u8>
    decreases n,
{
    if n <= 0 {
        out
    } else {
        repeated(out.push(out[out.len() - offset]), offset, n - 1)
    }
}

/// A match length that goes on behind its token: the length less three, where
/// the stream goes on, and the half byte that is left over.
pub open spec fn long_length(b: Seq<u8>, pos: int, nibble: Option<int>) -> Option<
    (int, int, Option<int>),
> {
    let next = match nibble {
        Some(n) => if n < b.len() {
            Some((b[n] as int / 16, pos, None::<int>))
        } else {
            None
        },
        None => if pos < b.len() {
            Some((b[pos] as int % 16, pos + 1, Some(pos)))
        } else {
            None
        },
    };
    match next {
        None => None,
        Some((half, at, left)) => if half < 15 {
            Some((7 + half, at, left))
        } else if at >= b.len() {
            None
        } else if b[at] < 255 {
            Some((22 + b[at], at + 1, left))
        } else if at + 3 > b.len() {
            None
        } else if wire::le16(b, at + 1) != 0 {
            if wire::le16(b, at + 1) < 22 {
                None
            } else {
                Some((wire::le16(b, at + 1), at + 3, left))
            }
        } else if at + 7 > b.len() {
            None
        } else if wire::le32(b, at + 3) < 22 {
            None
        } else {
            Some((wire::le32(b, at + 3), at + 7, left))
        },
    }
}

/// The reader behind the next item, or `None` where the stream is malformed.
pub open spec fn read_item(b: Seq<u8>, r: Reader) -> Option<Reader> {
    if r.count == 0 && r.pos + 4 > b.len() {
        None
    } else {
        let flags = if r.count == 0 { wire::le32(b, r.pos) as u32 } else { r.flags };
        let pos = if r.count == 0 { r.pos + 4 } else { r.pos };
        let bit = if r.count == 0 { 31 } else { r.count - 1 };
        if !flag_set(flags, bit as u32) {
            if pos >= b.len() {
                None
            } else {
                Some(
                    Reader {
                        pos: pos + 1,
                        nibble: r.nibble,
                        flags,
                        count: bit,
                        out: r.out.push(b[pos]),
                    },
                )
            }
        } else if pos + 2 > b.len() {
            None
        } else {
            let token = wire::le16(b, pos);
            let length = if token % 8 == 7 {
                long_length(b, pos + 2, r.nibble)
            } else {
                Some((token % 8, pos + 2, r.nibble))
            };
            match length {
                None => None,
                Some((n, at, left)) => if token / 8 + 1 > r.out.len() {
                    None
                } else {
                    Some(
                        Reader {
                            pos: at,
                            nibble: left,
                            flags,
                            count: bit,
                            out: repeated(r.out, token / 8 + 1, n + 3),
                        },
                    )
                },
            }
        }
    }
}

/// The whole output, from a reader on.
pub open spec fn decode_from(b: Seq<u8>, r: Reader) -> Option<Seq<u8>>
    decreases b.len() - r.pos,
{
    if r.pos >= b.len() {
        Some(r.out)
    } else {
        match read_item(b, r) {
            None => None,
            Some(s) => decode_from(b, s),
        }
    }
}

/// What a compressed stream expands to, or `None` where it is malformed.
#[verifier::opaque]
pub open spec fn lz77_decode(b: Seq<u8>) -> Option<Seq<u8>> {
    decode_from(
        b,
        Reader { pos: 0, nibble: None, flags: 0, count: 0, out: Seq::empty() },
    )
}

proof fn lemma_repeated_len(out: Seq<u8>, offset: int, n: int)
    ensures
        repeated(out, offset, n).len() == out.len() + if n <= 0 { 0 } else { n },
    decreases n,
{
    if n > 0 {
        lemma_repeated_len(out.push(out[out.len() - offset]), offset, n - 1);
    }
}

/// Reading on never takes output back.
proof fn lemma_output_grows(b: Seq<u8>, r: Reader)
    ensures
        decode_from(b, r) matches Some(x) ==> x.len() >= r.out.len(),
    decreases b.len() - r.pos,
{
    if r.pos < b.len() {
        if let Some(s) = read_item(b, r) {
            lemma_output_grows(b, s);
            let pos = if r.count == 0 { r.pos + 4 } else { r.pos };
            let token = wire::le16(b, pos);
            if token % 8 == 7 {
                if let Some((n, at, left)) = long_length(b, pos + 2, r.nibble) {
                    lemma_repeated_len(r.out, token / 8 + 1, n + 3);
                }
            } else {
                lemma_repeated_len(r.out, token / 8 + 1, token % 8 + 3);
            }
        }
    }
}

/// Reads a match length behind its token.
fn read_long_length(input: &[u8], pos: usize, nibble: Option<usize>) -> (r: Option<
    (u64, usize, Option<usize>),
>)
    requires
        pos <= input@.len(),
    ensures
        match r {
            None => long_length(
                input@,
                pos as int,
                match nibble {
                    Some(n) => Some(n as int),
                    None => None,
                },
            ) is None,
            Some((n, at, left)) => pos <= at <= input@.len() && n <= 0xffff_ffff && long_length(
                input@,
                pos as int,
                match nibble {
                    Some(n) => Some(n as int),
                    None => None,
                },
            ) == Some(
                (
                    n as int,
                    at as int,
                    match left {
                        Some(n) => Some(n as int),
                        None => None::<int>,
                    },
                ),
            ),
        },
{
    let len: usize = input.len();
    let half: u8;
    let mut at: usize = pos;
    let mut left: Option<usize> = None;
    match nibble {
        Some(n) => {
            if n >= len {
                return None;
            }
            half = input[n] / 16;
        },
        None => {
            if pos >= len {
                return None;
            }
            half = input[pos] % 16;
            left = Some(pos);
            at = pos + 1;
        },
    }
    if half < 15 {
        return Some((7 + half as u64, at, left));
    }
    if at >= len {
        return None;
    }
    if input[at] < 255 {
        return Some((22 + input[at] as u64, at + 1, left));
    }
    if len - at < 3 {
        return None;
    }
    let short: u16 = wire::read_u16(input, at + 1);
    if short != 0 {
        if short < 22 {
            return None;
        }
        return Some((short as u64, at + 3, left));
    }
    if len - at < 7 {
        return None;
    }
    let long: u32 = wire::read_u32(input, at + 3);
    if long < 22 {
        return None;
    }
    Some((long as u64, at + 7, left))
}

/// Expands a compressed stream that must give exactly `max_output` bytes.
#[verifier::rlimit(40)]
pub fn decompress_xpress_lz77(input: &[u8], max_output: usize) -> (r: CompressionResult<Vec<u8>>)
    ensures
        match r {
            Ok(out) => lz77_decode(input@) == Some(out@) && out@.len() == max_output,
            Err(e) => e == CompressionError::Invalid && !(lz77_decode(input@) matches Some(x)
                && x.len() == max_output),
        },
{
    let mut out: Vec<u8> = Vec::new();
    let mut in_off: usize = 0;
    let mut nibble_off: Option<usize> = None;
    let mut flags: u32 = 0;
    let mut flag_count: u8 = 0;
    let len: usize = input.len();
    proof {
        reveal(lz77_decode);
        assert(out@ =~= Seq::<u8>::empty());
    }
    while in_off < len
        invariant
            len == input@.len(),
            in_off <= len,
            flag_count <= 31,
            out@.len() <= max_output,
            lz77_decode(input@) == decode_from(
                input@,
                Reader {
                    pos: in_off as int,
                    nibble: match nibble_off {
                        Some(n) => Some(n as int),
                        None => None,
                    },
                    flags,
                    count: flag_count as int,
                    out: out@,
                },
            ),
        decreases len - in_off,
    {
        let ghost at = Reader {
            pos: in_off as int,
            nibble: match nibble_off {
                Some(n) => Some(n as int),
                None => None,
            },
            flags,
            count: flag_count as int,
            out: out@,
        };
        if flag_count == 0 {
            if len - in_off < 4 {
                return Err(CompressionError::Invalid);
            }
            flags = wire::read_u32(input, in_off);
            in_off += 4;
            flag_count = 32;
        }
        flag_count -= 1;
        if flags & (1u32 << (flag_count as u32)) == 0 {
            if in_off >= len {
                return Err(CompressionError::Invalid);
            }
            let ghost next = read_item(input@, at)->0;
            assert(next.out == out@.push(input@[in_off as int]));
            if out.len() >= max_output {
                proof {
                    lemma_output_grows(input@, next);
                }
                return Err(CompressionError::Invalid);
            }
            out.push(input[in_off]);
            in_off += 1;
            continue ;
        }
        if len - in_off < 2 {
            return Err(CompressionError::Invalid);
        }
        let token: u16 = wire::read_u16(input, in_off);
        in_off += 2;
        let offset: usize = (token / 8) as usize + 1;
        let mut length: u64 = (token % 8) as u64;
        if length == 7 {
            match read_long_length(input, in_off, nibble_off) {
                None => {
                    return Err(CompressionError::Invalid);
                },
                Some((n, next_off, left)) => {
                    length = n;
                    in_off = next_off;
                    nibble_off = left;
                },
            }
        }
        length += 3;
        if offset > out.len() {
            return Err(CompressionError::Invalid);
        }
        let ghost next = read_item(input@, at)->0;
        assert(next.out == repeated(out@, offset as int, length as int));
        if length > (max_output - out.len()) as u64 {
            proof {
                lemma_repeated_len(out@, offset as int, length as int);
                lemma_output_grows(input@, next);
            }
            return Err(CompressionError::Invalid);
        }
        let ghost before = out@;
        let mut k: u64 = 0;
        while k < length
            invariant
                k <= length,
                offset >= 1,
                offset <= before.len(),
                out@.len() == before.len() + k,
                before.len() + length <= max_output,
                repeated(before, offset as int, length as int) == repeated(
                    out@,
                    offset as int,
                    length - k,
                ),
            decreases length - k,
        {
            let b: u8 = out[out.len() - offset];
            out.push(b);
            k += 1;
        }
    }
    if out.len() != max_output {
        return Err(CompressionError::Invalid);
    }
    Ok(out)
}

// ---------------------------------------------------------------------------
// The format, written
// ---------------------------------------------------------------------------

/// A writer of a compressed stream: the bytes so far with room for the flag word
/// of the group under way, the flags of that group, how many there are, and the
/// half byte that the next long match can use.
pub struct Writer {
    pub out: Seq<u8>,
    pub flag_off: int,
    pub flags: u32,
    pub count: int,
    pub nibble: Option<int>,
}

/// A literal byte, or a match by its distance and length.
pub enum Item {
    Literal(u8),
    Match(int, int),
}

/// A writer that has written nothing.
pub open spec fn writer_start() -> Writer {
    Writer { out: wire::zeros(4), flag_off: 0, flags: 0, count: 0, nibble: None }
}

/// The bytes that follow a full half byte for a match of `length`.
pub open spec fn length_tail(length: int) -> Seq<u8> {
    if length < 280 {
        seq![(length - 25) as u8]
    } else if length < 0x1_0003 {
        seq![255u8] + wire::bytes16((length - 3) as u16)
    } else {
        seq![255u8, 0u8, 0u8] + wire::bytes32((length - 3) as u32)
    }
}

/// The writer once an item's bytes and flag are in, before a full group is closed.
pub open spec fn with_item(w: Writer, item: Item) -> Writer {
    match item {
        Item::Literal(b) => Writer {
            out: w.out.push(b),
            flags: w.flags << 1,
            count: w.count + 1,
            ..w
        },
        Item::Match(offset, length) => {
            let short = if length < 10 { length - 3 } else { 7 };
            let token = w.out + wire::bytes16(((offset - 1) * 8 + short) as u16);
            let half = if length < 25 { length - 10 } else { 15 };
            let tail = if length < 25 { Seq::empty() } else { length_tail(length) };
            let flags = (w.flags << 1) | 1;
            if length < 10 {
                Writer { out: token, flags, count: w.count + 1, ..w }
            } else {
                match w.nibble {
                    Some(n) => Writer {
                        out: token.update(n, token[n] | ((half as u8) << 4)) + tail,
                        flags,
                        count: w.count + 1,
                        nibble: None,
                        ..w
                    },
                    None => Writer {
                        out: token.push(half as u8) + tail,
                        flags,
                        count: w.count + 1,
                        nibble: Some(token.len() as int),
                        ..w
                    },
                }
            }
        },
    }
}

/// The writer with a group of 32 items closed and room made for the next flags.
pub open spec fn group_closed(w: Writer) -> Writer {
    if w.count == 32 {
        Writer {
            out: wire::overwritten(w.out, w.flag_off, wire::bytes32(w.flags)) + wire::zeros(4),
            flag_off: w.out.len() as int,
            flags: 0,
            count: 0,
            ..w
        }
    } else {
        w
    }
}

/// The writer behind an item.
pub open spec fn put_item(w: Writer, item: Item) -> Writer {
    group_closed(with_item(w, item))
}

/// A flag word of `count` flags, with ones in the bits that no item has.
pub open spec fn padded_flags(flags: u32, count: int) -> u32 {
    let free = (32 - count) as u32;
    (flags << free) | (((1u32 << free) - 1) as u32)
}

/// The stream that a writer has written once nothing more follows.
pub open spec fn finished(w: Writer) -> Seq<u8> {
    if w.count == 0 {
        w.out.subrange(0, w.out.len() - 4)
    } else {
        wire::overwritten(w.out, w.flag_off, wire::bytes32(padded_flags(w.flags, w.count)))
    }
}

/// How far the bytes at `pos` repeat those `offset` back, counted from `n`, up to
/// `max`.
pub open spec fn run_length(input: Seq<u8>, offset: int, pos: int, n: int, max: int) -> int
    decreases max - n,
{
    if n < max && input[pos - offset + n] == input[pos + n] {
        run_length(input, offset, pos, n + 1, max)
    } else {
        n
    }
}

/// The longest match that can start at `pos`.
pub open spec fn match_limit(input: Seq<u8>, pos: int) -> int {
    if input.len() - pos < MAX_MATCH { input.len() - pos } else { MAX_MATCH as int }
}

/// The nearest of the longest matches at `pos` among the distances up to `reach`.
pub open spec fn best_match(input: Seq<u8>, pos: int, reach: int) -> (int, int)
    decreases reach,
{
    if reach <= 0 {
        (0, 0)
    } else {
        let shorter = best_match(input, pos, reach - 1);
        let n = run_length(input, reach, pos, 0, match_limit(input, pos));
        if n > shorter.1 {
            (reach, n)
        } else {
            shorter
        }
    }
}

/// The item that is written at `pos`: the longest match of at least three bytes,
/// and the nearest such, or else the literal byte.
pub open spec fn item_at(input: Seq<u8>, pos: int) -> Item {
    let found = best_match(
        input,
        pos,
        if pos < MAX_WINDOW { pos } else { MAX_WINDOW as int },
    );
    if match_limit(input, pos) < 3 || found.1 < 3 {
        Item::Literal(input[pos])
    } else {
        Item::Match(found.0, found.1)
    }
}

/// How many bytes of input an item stands for.
pub open spec fn item_length(item: Item) -> int {
    match item {
        Item::Literal(_) => 1,
        Item::Match(_, length) => if length < 1 { 1 } else { length },
    }
}

/// The stream that a writer gives when it goes on with the input from `pos`.
pub open spec fn encode_from(input: Seq<u8>, pos: int, w: Writer) -> Seq<u8>
    decreases (if pos < input.len() { input.len() - pos } else { 0 }),
{
    if pos >= input.len() {
        finished(w)
    } else {
        let item = item_at(input, pos);
        encode_from(input, pos + item_length(item), put_item(w, item))
    }
}

/// The compressed stream of an input.
#[verifier::opaque]
pub open spec fn lz77_encode(input: Seq<u8>) -> Seq<u8> {
    if input.len() == 0 {
        Seq::empty()
    } else {
        encode_from(input, 0, writer_start())
    }
}

/// Whether the byte `k` behind `pos` repeats the one `offset` back.
spec fn same_back(input: Seq<u8>, offset: int, pos: int, k: int) -> bool {
    input[pos - offset + k] == input[pos + k]
}

proof fn lemma_run_length(input: Seq<u8>, offset: int, pos: int, n: int, max: int)
    requires
        n <= max,
    ensures
        n <= run_length(input, offset, pos, n, max) <= max,
        forall|k: int|
            n <= k < run_length(input, offset, pos, n, max) ==> same_back(input, offset, pos, k),
    decreases max - n,
{
    if n < max && input[pos - offset + n] == input[pos + n] {
        lemma_run_length(input, offset, pos, n + 1, max);
    }
}

proof fn lemma_best_match(input: Seq<u8>, pos: int, reach: int)
    requires
        0 <= reach <= pos <= input.len(),
    ensures
        ({
            let (offset, length) = best_match(input, pos, reach);
            &&& 0 <= offset <= reach
            &&& 0 <= length <= match_limit(input, pos)
            &&& length > 0 ==> offset >= 1
            &&& forall|k: int| 0 <= k < length ==> same_back(input, offset, pos, k)
        }),
    decreases reach,
{
    if reach > 0 {
        lemma_best_match(input, pos, reach - 1);
        lemma_run_length(input, reach, pos, 0, match_limit(input, pos));
    }
}

/// Once a match is as long as can be, no farther one replaces it.
proof fn lemma_best_match_settled(input: Seq<u8>, pos: int, reach: int, farther: int)
    requires
        0 <= reach <= farther <= pos <= input.len(),
        best_match(input, pos, reach).1 == match_limit(input, pos),
    ensures
        best_match(input, pos, farther) == best_match(input, pos, reach),
    decreases farther,
{
    if reach < farther {
        lemma_best_match_settled(input, pos, reach, farther - 1);
        lemma_run_length(input, farther, pos, 0, match_limit(input, pos));
    }
}

/// Finds the longest match at `pos`, the nearest of several; `(0, 0)` where there is
/// none of at least three bytes.
fn find_xpress_match(input: &[u8], pos: usize) -> (r: (usize, usize))
    requires
        pos < input@.len(),
    ensures
        match item_at(input@, pos as int) {
            Item::Literal(b) => r == (0usize, 0usize) && b == input@[pos as int],
            Item::Match(offset, length) => r.0 == offset && r.1 == length && r.1 >= 3 && r.1
                <= MAX_MATCH && pos + r.1 <= input@.len() && 1 <= r.0 <= pos && r.0 <= MAX_WINDOW,
        },
{
    let max_offset: usize = if pos < MAX_WINDOW { pos } else { MAX_WINDOW };
    let total: usize = input.len();
    let rest: usize = total - pos;
    let max_length: usize = if rest < MAX_MATCH { rest } else { MAX_MATCH };
    if max_length < 3 {
        return (0, 0);
    }
    let mut best_offset: usize = 0;
    let mut best_length: usize = 0;
    let mut offset: usize = 0;
    while offset < max_offset && best_length < max_length
        invariant
            offset <= max_offset <= pos < input@.len(),
            max_offset <= MAX_WINDOW,
            max_length == match_limit(input@, pos as int),
            total == input@.len(),
            pos + max_length <= total,
            best_length <= max_length,
            (best_offset as int, best_length as int) == best_match(
                input@,
                pos as int,
                offset as int,
            ),
        decreases max_offset - offset,
    {
        offset += 1;
        let base: usize = pos - offset;
        let mut length: usize = 0;
        while length < max_length && input[base + length] == input[pos + length]
            invariant
                base + offset == pos,
                offset >= 1,
                length <= max_length,
                total == input@.len(),
                pos + max_length <= total,
                run_length(input@, offset as int, pos as int, 0, max_length as int) == run_length(
                    input@,
                    offset as int,
                    pos as int,
                    length as int,
                    max_length as int,
                ),
            decreases max_length - length,
        {
            length += 1;
        }
        if length > best_length {
            best_length = length;
            best_offset = offset;
        }
    }
    proof {
        lemma_best_match(input@, pos as int, max_offset as int);
        lemma_best_match(input@, pos as int, offset as int);
        if best_length == max_length {
            lemma_best_match_settled(input@, pos as int, offset as int, max_offset as int);
        }
    }
    if best_length < 3 {
        (0, 0)
    } else {
        (best_offset, best_length)
    }
}

/// Appends the length bytes of a match that fills its half byte.
fn append_xpress_long_length(out: &mut Vec<u8>, length: usize)
    requires
        25 <= length <= 0xffff_ffff,
    ensures
        final(out)@ == old(out)@ + length_tail(length as int),
{
    if length < 280 {
        out.push((length - 25) as u8);
    } else if length < 0x1_0003 {
        out.push(255);
        wire::put_u16(out, (length - 3) as u16);
    } else {
        out.push(255);
        out.push(0);
        out.push(0);
        wire::put_u32(out, (length - 3) as u32);
    }
    assert(out@ =~= old(out)@ + length_tail(length as int));
}

/// Compresses an input.
#[verifier::rlimit(60)]
pub fn compress_xpress_lz77(input: &[u8]) -> (r: Vec<u8>)
    ensures
        r@ == lz77_encode(input@),
{
    proof {
        reveal(lz77_encode);
    }
    let mut out: Vec<u8> = Vec::new();
    if input.len() == 0 {
        assert(out@ =~= Seq::<u8>::empty());
        return out;
    }
    wire::put_zeros(&mut out, 4);
    assert(out@ =~= wire::zeros(4));
    let mut flag_off: usize = 0;
    let mut flags: u32 = 0;
    let mut flag_count: u8 = 0;
    let mut nibble_off: Option<usize> = None;
    let mut in_off: usize = 0;
    while in_off < input.len()
        invariant
            in_off <= input@.len(),
            flag_count < 32,
            flag_off + 4 <= out@.len(),
            flag_count == 0 ==> out@.len() >= 4,
            nibble_off matches Some(n) ==> n < out@.len(),
            lz77_encode(input@) == encode_from(
                input@,
                in_off as int,
                Writer {
                    out: out@,
                    flag_off: flag_off as int,
                    flags,
                    count: flag_count as int,
                    nibble: match nibble_off {
                        Some(n) => Some(n as int),
                        None => None,
                    },
                },
            ),
        decreases input@.len() - in_off,
    {
        let ghost w = Writer {
            out: out@,
            flag_off: flag_off as int,
            flags,
            count: flag_count as int,
            nibble: match nibble_off {
                Some(n) => Some(n as int),
                None => None,
            },
        };
        let ghost item = item_at(input@, in_off as int);
        let (offset, length): (usize, usize) = find_xpress_match(input, in_off);
        if length < 3 {
            out.push(input[in_off]);
            in_off += 1;
            flags = flags << 1;
        } else {
            let short: usize = if length < 10 { length - 3 } else { 7 };
            let token: u16 = ((offset - 1) * 8 + short) as u16;
            wire::put_u16(&mut out, token);
            if length >= 10 {
                match nibble_off {
                    Some(nibble) => {
                        nibble_off = None;
                        if length < 25 {
                            out[nibble] = out[nibble] | (((length - 10) as u8) << 4);
                        } else {
                            out[nibble] = out[nibble] | (15u8 << 4);
                            append_xpress_long_length(&mut out, length);
                        }
                    },
                    None => {
                        nibble_off = Some(out.len());
                        if length < 25 {
                            out.push((length - 10) as u8);
                        } else {
                            out.push(15);
                            append_xpress_long_length(&mut out, length);
                        }
                    },
                }
            }
            in_off += length;
            flags = (flags << 1) | 1;
        }
        flag_count += 1;
        assert(out@ =~= with_item(w, item).out);
        if flag_count == 32 {
            wire::set_u32(&mut out, flag_off, flags);
            flag_off = out.len();
            wire::put_zeros(&mut out, 4);
            flags = 0;
            flag_count = 0;
        }
        assert(put_item(w, item) == Writer {
            out: out@,
            flag_off: flag_off as int,
            flags,
            count: flag_count as int,
            nibble: match nibble_off {
                Some(n) => Some(n as int),
                None => None,
            },
        });
    }
    if flag_count == 0 {
        let keep: usize = out.len() - 4;
        out.truncate(keep);
        return out;
    }
    let free: u32 = 32 - flag_count as u32;
    assert(1u32 <= (1u32 << free)) by (bit_vector)
        requires
            free < 32,
    ;
    flags = (flags << free) | ((1u32 << free) - 1);
    wire::set_u32(&mut out, flag_off, flags);
    out
}

// ---------------------------------------------------------------------------
// Written, then read
// ---------------------------------------------------------------------------

/// The flag of item number `j` in a word that holds `count` flags.
spec fn item_flag(flags: u32, count: int, j: int) -> bool {
    flag_set(flags, (count - 1 - j) as u32)
}

/// How many bytes of a writer stand for items and closed groups.
spec fn settled(w: Writer) -> int {
    if w.count == 0 { w.out.len() - 4 } else { w.out.len() as int }
}

spec fn writer_ok(w: Writer) -> bool {
    &&& 0 <= w.count <= 32
    &&& 0 <= w.flag_off
    &&& w.flag_off + 4 <= w.out.len()
    &&& w.count == 0 ==> w.flag_off + 4 == w.out.len()
    &&& w.nibble matches Some(n) ==> 0 <= n < settled(w) && !(w.flag_off <= n < w.flag_off + 4)
        && w.out[n] < 16
}

/// Whether a stream can still come out of a writer.
spec fn agrees(b: Seq<u8>, w: Writer) -> bool {
    &&& b.len() >= settled(w)
    &&& forall|i: int|
        0 <= i < settled(w) && !(w.flag_off <= i < w.flag_off + 4) && w.nibble != Some(i)
            ==> #[trigger] b[i] == w.out[i]
    &&& w.nibble matches Some(n) ==> b[n] % 16 == w.out[n]
    &&& w.count > 0 ==> forall|j: int|
        0 <= j < w.count ==> #[trigger] item_flag(wire::le32(b, w.flag_off) as u32, 32, j)
            == item_flag(w.flags, w.count, j)
}

/// The reader that stands where a writer does.
spec fn reader_of(b: Seq<u8>, w: Writer, done: Seq<u8>) -> Reader {
    Reader {
        pos: settled(w),
        nibble: w.nibble,
        flags: if w.count == 0 { 0 } else { wire::le32(b, w.flag_off) as u32 },
        count: if w.count == 0 { 0 } else { 32 - w.count },
        out: done,
    }
}

/// Whether an item can be written behind `done` bytes.
spec fn item_ok(item: Item, done: int) -> bool {
    match item {
        Item::Literal(_) => true,
        Item::Match(offset, length) => 1 <= offset <= done && offset <= MAX_WINDOW && 3 <= length
            <= MAX_MATCH,
    }
}

/// The output behind an item.
spec fn with_output(done: Seq<u8>, item: Item) -> Seq<u8> {
    match item {
        Item::Literal(b) => done.push(b),
        Item::Match(offset, length) => repeated(done, offset, length),
    }
}

proof fn lemma_flag_shift(f: u32, k: u32)
    by (bit_vector)
    requires
        k < 31,
    ensures
        (((f << 1) & (1u32 << ((k + 1) as u32))) != 0) == ((f & (1u32 << k)) != 0),
        ((((f << 1) | 1) & (1u32 << ((k + 1) as u32))) != 0) == ((f & (1u32 << k)) != 0),
{
}

proof fn lemma_flag_low(f: u32)
    by (bit_vector)
    ensures
        (f << 1) & (1u32 << 0u32) == 0,
        ((f << 1) | 1) & (1u32 << 0u32) != 0,
{
}

proof fn lemma_flag_padding(f: u32, free: u32, k: u32)
    by (bit_vector)
    requires
        free + k < 32,
    ensures
        ((((f << free) | (((1u32 << free) - 1) as u32)) & (1u32 << ((free + k) as u32))) != 0) == ((
        f & (1u32 << k)) != 0),
{
}

proof fn lemma_half_bytes(low: u8, high: u8)
    by (bit_vector)
    requires
        low < 16,
        high < 16,
    ensures
        (low | (high << 4)) % 16 == low,
        (low | (high << 4)) / 16 == high,
{
}

/// The flags of a writer follow from those of the writer one item on.
proof fn lemma_item_flags(f: u32, w: Writer, item: Item)
    requires
        0 <= w.count < 32,
        forall|j: int|
            0 <= j < w.count + 1 ==> #[trigger] item_flag(f, 32, j) == item_flag(
                with_item(w, item).flags,
                w.count + 1,
                j,
            ),
    ensures
        forall|j: int|
            0 <= j < w.count ==> #[trigger] item_flag(f, 32, j) == item_flag(w.flags, w.count, j),
        flag_set(f, (31 - w.count) as u32) == (item is Match),
{
    let next = with_item(w, item).flags;
    assert forall|j: int| 0 <= j < w.count implies #[trigger] item_flag(f, 32, j) == item_flag(
        w.flags,
        w.count,
        j,
    ) by {
        assert(item_flag(f, 32, j) == item_flag(next, w.count + 1, j));
        lemma_flag_shift(w.flags, (w.count - 1 - j) as u32);
    }
    assert(item_flag(f, 32, w.count) == item_flag(next, w.count + 1, w.count));
    lemma_flag_low(w.flags);
}

/// A stream that agrees with a writer whose group is closed agrees with the writer
/// before that.
proof fn lemma_group_open(b: Seq<u8>, w: Writer)
    requires
        writer_ok(w),
        w.count > 0,
        agrees(b, group_closed(w)),
    ensures
        agrees(b, w),
        writer_ok(group_closed(w)),
{
    if w.count == 32 {
        let c = group_closed(w);
        let word = wire::bytes32(w.flags);
        assert(settled(c) == w.out.len());
        assert forall|i: int| w.flag_off <= i < w.flag_off + 4 implies #[trigger] b[i] == word[i
            - w.flag_off] by {
            assert(b[i] == c.out[i]);
        }
        assert(b.subrange(w.flag_off, w.flag_off + 4) =~= word);
        wire::le32_of_bytes32(b, w.flag_off, w.flags);
        assert forall|i: int|
            0 <= i < settled(w) && !(w.flag_off <= i < w.flag_off + 4) && w.nibble != Some(
                i,
            ) implies #[trigger] b[i] == w.out[i] by {
            assert(b[i] == c.out[i]);
        }
    }
}

/// One item: the reader goes from where the writer stood to where it stands then.
#[verifier::rlimit(80)]
proof fn lemma_item(b: Seq<u8>, w: Writer, item: Item, done: Seq<u8>)
    requires
        writer_ok(w),
        w.count < 32,
        item_ok(item, done.len() as int),
        agrees(b, with_item(w, item)),
    ensures
        agrees(b, w),
        writer_ok(with_item(w, item)),
        read_item(b, reader_of(b, w, done)) == Some(
            reader_of(b, with_item(w, item), with_output(done, item)),
        ),
{
    let n = with_item(w, item);
    let f = wire::le32(b, w.flag_off) as u32;
    lemma_item_flags(f, w, item);
    let at = w.out.len() as int;
    assert(n.out.len() >= at + 1);
    assert forall|i: int|
        0 <= i < settled(w) && !(w.flag_off <= i < w.flag_off + 4) && w.nibble != Some(
            i,
        ) implies #[trigger] b[i] == w.out[i] by {
        assert(b[i] == n.out[i]);
    }
    match item {
        Item::Literal(x) => {
            assert(b[at] == n.out[at]);
        },
        Item::Match(offset, length) => {
            let short = if length < 10 { length - 3 } else { 7 };
            let value = (offset - 1) * 8 + short;
            assert(0 <= value < 0x1_0000);
            let token = w.out + wire::bytes16(value as u16);
            assert(b[at] == n.out[at] && n.out[at] == token[at]);
            assert(b[at + 1] == n.out[at + 1] && n.out[at + 1] == token[at + 1]);
            assert(wire::le16(b, at) == value);
            assert(value % 8 == short && value / 8 + 1 == offset);
            if length >= 10 {
                let half = if length < 25 { length - 10 } else { 15 };
                let tail = if length < 25 { Seq::<u8>::empty() } else { length_tail(length) };
                let tail_at = match w.nibble {
                    Some(_) => at + 2,
                    None => at + 3,
                };
                assert(n.out.len() == tail_at + tail.len());
                assert forall|i: int| 0 <= i < tail.len() implies #[trigger] b[tail_at + i]
                    == tail[i] by {
                    assert(b[tail_at + i] == n.out[tail_at + i]);
                }
                match w.nibble {
                    Some(k) => {
                        lemma_half_bytes(w.out[k], half as u8);
                        assert(b[k] == n.out[k]);
                        assert(b[k] as int / 16 == half);
                    },
                    None => {
                        assert(b[at + 2] % 16 == half);
                    },
                }
                if length >= 25 {
                    assert(b[tail_at + 0] == tail[0]);
                    if length >= 280 {
                        assert(b[tail_at + 1] == tail[1]);
                        assert(b[tail_at + 2] == tail[2]);
                        assert(wire::le16(b, tail_at + 1) == length - 3);
                    }
                }
                assert(long_length(b, at + 2, w.nibble) == Some(
                    (length - 3, n.out.len() as int, n.nibble),
                ));
            }
        },
    }
}

proof fn lemma_flags_unread(b: Seq<u8>, r: Reader, flags: u32)
    requires
        r.count == 0,
    ensures
        decode_from(b, r) == decode_from(b, Reader { flags, ..r }),
{
}

/// Repeating what stands `offset` back gives the input that it was matched against.
proof fn lemma_repeated_is_input(input: Seq<u8>, pos: int, offset: int, length: int)
    requires
        1 <= offset <= pos,
        0 <= length,
        pos + length <= input.len(),
        forall|k: int| 0 <= k < length ==> same_back(input, offset, pos, k),
    ensures
        repeated(input.subrange(0, pos), offset, length) == input.subrange(0, pos + length),
    decreases length,
{
    if length > 0 {
        let out = input.subrange(0, pos);
        assert(same_back(input, offset, pos, 0));
        assert(out.push(out[pos - offset]) =~= input.subrange(0, pos + 1));
        let next = pos + 1;
        assert forall|k: int| 0 <= k < length - 1 implies same_back(input, offset, next, k) by {
            assert(same_back(input, offset, pos, k + 1));
        }
        lemma_repeated_is_input(input, next, offset, length - 1);
    }
}

proof fn lemma_item_at(input: Seq<u8>, pos: int)
    requires
        0 <= pos < input.len(),
    ensures
        item_ok(item_at(input, pos), pos),
        pos + item_length(item_at(input, pos)) <= input.len(),
        with_output(input.subrange(0, pos), item_at(input, pos)) == input.subrange(
            0,
            pos + item_length(item_at(input, pos)),
        ),
{
    let reach = if pos < MAX_WINDOW { pos } else { MAX_WINDOW as int };
    lemma_best_match(input, pos, reach);
    match item_at(input, pos) {
        Item::Literal(x) => {
            assert(input.subrange(0, pos).push(x) =~= input.subrange(0, pos + 1));
        },
        Item::Match(offset, length) => {
            lemma_repeated_is_input(input, pos, offset, length);
        },
    }
}

/// A finished stream agrees with its writer and is read to its end.
proof fn lemma_finished(w: Writer, done: Seq<u8>)
    requires
        writer_ok(w),
        w.count < 32,
    ensures
        agrees(finished(w), w),
        decode_from(finished(w), reader_of(finished(w), w, done)) == Some(done),
{
    let b = finished(w);
    if w.count > 0 {
        let word = padded_flags(w.flags, w.count);
        assert(b.subrange(w.flag_off, w.flag_off + 4) =~= wire::bytes32(word));
        wire::le32_of_bytes32(b, w.flag_off, word);
        assert forall|j: int| 0 <= j < w.count implies #[trigger] item_flag(word, 32, j)
            == item_flag(w.flags, w.count, j) by {
            lemma_flag_padding(w.flags, (32 - w.count) as u32, (w.count - 1 - j) as u32);
        }
    }
}

/// The stream that a writer ends with agrees with it, and is read from there on to
/// the whole input.
proof fn lemma_encode_from(input: Seq<u8>, pos: int, w: Writer)
    requires
        0 <= pos <= input.len(),
        writer_ok(w),
        w.count < 32,
    ensures
        ({
            let b = encode_from(input, pos, w);
            agrees(b, w) && decode_from(b, reader_of(b, w, input.subrange(0, pos))) == Some(input)
        }),
    decreases input.len() - pos,
{
    let b = encode_from(input, pos, w);
    let done = input.subrange(0, pos);
    if pos >= input.len() {
        assert(done =~= input);
        lemma_finished(w, input);
    } else {
        let item = item_at(input, pos);
        let mid = with_item(w, item);
        let next = put_item(w, item);
        lemma_item_at(input, pos);
        lemma_writer_kept(w, item, pos);
        lemma_encode_from(input, pos + item_length(item), next);
        lemma_group_open(b, mid);
        lemma_item(b, w, item, done);
        let after = reader_of(b, mid, with_output(done, item));
        if mid.count == 32 {
            lemma_flags_unread(b, after, 0);
        }
        assert(reader_of(b, w, done).pos < b.len());
    }
}

proof fn lemma_writer_kept(w: Writer, item: Item, done: int)
    requires
        writer_ok(w),
        w.count < 32,
        item_ok(item, done),
    ensures
        writer_ok(with_item(w, item)),
        writer_ok(put_item(w, item)),
        put_item(w, item).count < 32,
{
    let mid = with_item(w, item);
    assert(mid.out.len() >= w.out.len());
    match item {
        Item::Literal(_) => {},
        Item::Match(offset, length) => {
            if let Some(n) = w.nibble {
                assert(n < w.out.len());
                if length < 10 {
                    assert(mid.out[n] == w.out[n]);
                }
            }
        },
    }
}

/// What is compressed expands to itself again.
pub proof fn lz77_round_trip(input: Seq<u8>)
    ensures
        lz77_decode(lz77_encode(input)) == Some(input),
{
    reveal(lz77_encode);
    reveal(lz77_decode);
    if input.len() == 0 {
        assert(input =~= Seq::<u8>::empty());
    } else {
        lemma_encode_from(input, 0, writer_start());
        assert(input.subrange(0, 0) =~= Seq::<u8>::empty());
    }
}

} // verus!
