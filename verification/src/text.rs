//! Text: ASCII case, UTF-16 and strings as sequences of characters.

use crate::wire;
use vstd::prelude::*;

verus! {

/// `String::push` appends one character.
pub assume_specification[ String::push ](s: &mut String, c: char)
    ensures
        final(s)@ == old(s)@.push(c),
;

/// `char::from_u32` gives the character of a Unicode scalar value.
pub assume_specification[ char::from_u32 ](code: u32) -> (r: Option<char>)
    ensures
        r == if code < 0xD800 || 0xE000 <= code < 0x11_0000 {
            Some(code as char)
        } else {
            None
        },
;

/// The characters of a string.
pub fn chars_of(s: &str) -> (r: Vec<char>)
    ensures
        r@ == s@,
{
    let mut r: Vec<char> = Vec::new();
    for c in it: s.chars()
        invariant
            r@ == it.seq().take(it.index()),
            it.seq() == s@,
    {
        r.push(c);
        assert(r@ =~= it.seq().take(it.index() + 1));
    }
    assert(r@ =~= s@);
    r
}

/// The string of the given characters.
pub fn string_of(chars: &[char]) -> (r: String)
    ensures
        r@ == chars@,
{
    let mut r: String = String::new();
    let mut i: usize = 0;
    while i < chars.len()
        invariant
            i <= chars@.len(),
            r@ == chars@.take(i as int),
        decreases chars@.len() - i,
    {
        r.push(chars[i]);
        i += 1;
        assert(r@ =~= chars@.take(i as int));
    }
    assert(chars@.take(i as int) =~= chars@);
    r
}

/// Appends a string.
pub fn push_str(out: &mut String, s: &str)
    ensures
        final(out)@ == old(out)@ + s@,
{
    for c in it: s.chars()
        invariant
            out@ == old(out)@ + it.seq().take(it.index()),
            it.seq() == s@,
    {
        out.push(c);
        assert(out@ =~= old(out)@ + it.seq().take(it.index() + 1));
    }
    assert(s@.take(s@.len() as int) =~= s@);
}

/// An owned copy of a string.
pub fn string_of_str(s: &str) -> (r: String)
    ensures
        r@ == s@,
{
    s.to_owned()
}

// ---------------------------------------------------------------------------
// ASCII case
// ---------------------------------------------------------------------------

/// A character in ASCII lower case.
pub open spec fn lower(c: char) -> char {
    if 'A' <= c && c <= 'Z' { ((c as u32) + 32) as char } else { c }
}

/// A text in ASCII lower case.
pub open spec fn lowered(s: Seq<char>) -> Seq<char> {
    s.map_values(|c: char| lower(c))
}

/// Puts a character in ASCII lower case.
pub fn lower_char(c: char) -> (r: char)
    ensures
        r == lower(c),
{
    if 'A' <= c && c <= 'Z' {
        ((c as u8) + 32) as char
    } else {
        c
    }
}

/// Puts a string in ASCII lower case.
pub fn lower_string(s: &str) -> (r: String)
    ensures
        r@ == lowered(s@),
{
    let mut r: String = String::new();
    for c in it: s.chars()
        invariant
            r@ == lowered(it.seq().take(it.index())),
            it.seq() == s@,
    {
        r.push(lower_char(c));
        assert(r@ =~= lowered(it.seq().take(it.index() + 1)));
    }
    assert(s@.take(s@.len() as int) =~= s@);
    r
}

/// Whether two texts are equal but for ASCII case.
pub open spec fn same_ignoring_case(a: Seq<char>, b: Seq<char>) -> bool {
    lowered(a) == lowered(b)
}

/// Whether two strings are equal but for ASCII case.
pub fn eq_ignore_ascii_case(a: &str, b: &str) -> (r: bool)
    ensures
        r == same_ignoring_case(a@, b@),
{
    lower_string(a) == lower_string(b)
}

/// Whether two strings are equal.
pub fn str_equal(a: &str, b: &str) -> (r: bool)
    ensures
        r == (a@ == b@),
{
    a.to_owned() == b.to_owned()
}

/// Lower case is in lower case already.
pub proof fn lowered_twice(s: Seq<char>)
    ensures
        lowered(lowered(s)) == lowered(s),
{
    assert forall|i: int| 0 <= i < s.len() implies lower(lower(s[i])) == lower(s[i]) by {}
    assert(lowered(lowered(s)) =~= lowered(s));
}

/// Whether a character is an ASCII capital letter.
pub open spec fn is_upper(c: char) -> bool {
    'A' <= c && c <= 'Z'
}

/// Whether a character is an ASCII small letter.
pub open spec fn is_lower(c: char) -> bool {
    'a' <= c && c <= 'z'
}

/// Whether a character is an ASCII digit.
pub open spec fn is_digit(c: char) -> bool {
    '0' <= c && c <= '9'
}

/// A character in ASCII upper case.
pub open spec fn upper(c: char) -> char {
    if is_lower(c) {
        ((c as u32) - 32) as char
    } else {
        c
    }
}

/// Whether a character is an ASCII capital letter.
pub fn is_ascii_uppercase(c: char) -> (r: bool)
    ensures
        r == is_upper(c),
{
    'A' <= c && c <= 'Z'
}

/// Whether a character is an ASCII small letter.
pub fn is_ascii_lowercase(c: char) -> (r: bool)
    ensures
        r == is_lower(c),
{
    'a' <= c && c <= 'z'
}

/// Whether a character is an ASCII digit.
pub fn is_ascii_digit(c: char) -> (r: bool)
    ensures
        r == is_digit(c),
{
    '0' <= c && c <= '9'
}

/// Puts a character in ASCII upper case.
pub fn upper_char(c: char) -> (r: char)
    ensures
        r == upper(c),
{
    if is_ascii_lowercase(c) {
        ((c as u8) - 32) as char
    } else {
        c
    }
}

// ---------------------------------------------------------------------------
// White space
// ---------------------------------------------------------------------------

/// Whether a character is white space in Unicode.
pub open spec fn is_white_space(c: char) -> bool {
    let code = c as u32;
    0x09 <= code <= 0x0D || code == 0x20 || code == 0x85 || code == 0xA0 || code == 0x1680 || 0x2000
        <= code <= 0x200A || code == 0x2028 || code == 0x2029 || code == 0x202F || code == 0x205F
        || code == 0x3000
}

/// A text without the white space in front.
pub open spec fn trimmed_start(s: Seq<char>) -> Seq<char>
    decreases s.len(),
{
    if s.len() > 0 && is_white_space(s[0]) {
        trimmed_start(s.skip(1))
    } else {
        s
    }
}

/// A text without the white space behind.
pub open spec fn trimmed_end(s: Seq<char>) -> Seq<char>
    decreases s.len(),
{
    if s.len() > 0 && is_white_space(s.last()) {
        trimmed_end(s.drop_last())
    } else {
        s
    }
}

/// A text without the white space around it.
pub open spec fn trimmed(s: Seq<char>) -> Seq<char> {
    trimmed_end(trimmed_start(s))
}

fn white_space(c: char) -> (r: bool)
    ensures
        r == is_white_space(c),
{
    let code: u32 = c as u32;
    (0x09 <= code && code <= 0x0D) || code == 0x20 || code == 0x85 || code == 0xA0 || code == 0x1680
        || (0x2000 <= code && code <= 0x200A) || code == 0x2028 || code == 0x2029 || code == 0x202F
        || code == 0x205F || code == 0x3000
}

/// Takes the white space around a text away.
pub fn trim(s: &[char]) -> (r: Vec<char>)
    ensures
        r@ == trimmed(s@),
{
    let mut from: usize = 0;
    assert(s@.skip(0) =~= s@);
    while from < s.len() && white_space(s[from])
        invariant
            from <= s@.len(),
            trimmed_start(s@.skip(from as int)) == trimmed_start(s@),
        decreases s@.len() - from,
    {
        assert(s@.skip(from as int).skip(1) =~= s@.skip(from + 1));
        from += 1;
    }
    let mut to: usize = s.len();
    assert(s@.subrange(from as int, to as int) =~= s@.skip(from as int));
    while from < to && white_space(s[to - 1])
        invariant
            from <= to <= s@.len(),
            trimmed_end(s@.subrange(from as int, to as int)) == trimmed(s@),
        decreases to,
    {
        assert(s@.subrange(from as int, to as int).drop_last() =~= s@.subrange(
            from as int,
            to - 1,
        ));
        to -= 1;
    }
    vstd::slice::slice_to_vec(vstd::slice::slice_subrange(s, from, to))
}

// ---------------------------------------------------------------------------
// UTF-8
// ---------------------------------------------------------------------------

/// How many bytes of UTF-8 a character takes.
pub open spec fn utf8_width(c: char) -> int {
    let code = c as u32;
    if code < 0x80 {
        1
    } else if code < 0x800 {
        2
    } else if code < 0x1_0000 {
        3
    } else {
        4
    }
}

/// How many bytes of UTF-8 a character takes.
pub fn char_utf8_width(c: char) -> (r: usize)
    ensures
        r == utf8_width(c),
        1 <= r <= 4,
{
    let code: u32 = c as u32;
    if code < 0x80 {
        1
    } else if code < 0x800 {
        2
    } else if code < 0x1_0000 {
        3
    } else {
        4
    }
}

/// `core::str::from_utf8` gives the text of UTF-8 bytes and refuses other bytes.
#[verifier::external_body]
pub(crate) fn decode_utf8_text(b: &[u8]) -> (r: Option<String>)
    ensures
        r is Some <==> vstd::utf8::valid_utf8(b@),
        r matches Some(s) ==> s@ == vstd::utf8::decode_utf8(b@),
{
    core::str::from_utf8(b).ok().map(|s| s.to_string())
}

// ---------------------------------------------------------------------------
// UTF-16
// ---------------------------------------------------------------------------

/// The little-endian UTF-16 bytes of a character.
pub open spec fn char_utf16le(c: char) -> Seq<u8> {
    let code = c as u32;
    if code < 0x1_0000 {
        wire::bytes16(code as u16)
    } else {
        wire::bytes16((0xD800 + (code - 0x1_0000) / 0x400) as u16) + wire::bytes16(
            (0xDC00 + (code - 0x1_0000) % 0x400) as u16,
        )
    }
}

/// The little-endian UTF-16 bytes of a text.
pub open spec fn utf16le(s: Seq<char>) -> Seq<u8>
    decreases s.len(),
{
    if s.len() == 0 {
        Seq::empty()
    } else {
        utf16le(s.drop_last()) + char_utf16le(s.last())
    }
}

/// The 16-bit units of little-endian bytes.
pub open spec fn utf16_units(b: Seq<u8>) -> Seq<u16> {
    Seq::new(b.len() / 2, |i: int| wire::le16(b, 2 * i) as u16)
}

/// Whether a unit is the first of a surrogate pair.
pub open spec fn is_high_surrogate(u: u16) -> bool {
    0xD800 <= u < 0xDC00
}

/// Whether a unit is the second of a surrogate pair.
pub open spec fn is_low_surrogate(u: u16) -> bool {
    0xDC00 <= u < 0xE000
}

/// The characters of UTF-16 units, with U+FFFD for each surrogate that has no
/// partner.
pub open spec fn utf16_chars(u: Seq<u16>) -> Seq<char>
    decreases u.len(),
{
    if u.len() == 0 {
        Seq::empty()
    } else if is_high_surrogate(u[0]) && u.len() > 1 && is_low_surrogate(u[1]) {
        seq![(0x1_0000 + (u[0] - 0xD800) * 0x400 + (u[1] - 0xDC00)) as u32 as char] + utf16_chars(
            u.skip(2),
        )
    } else if is_high_surrogate(u[0]) || is_low_surrogate(u[0]) {
        seq!['\u{FFFD}'] + utf16_chars(u.skip(1))
    } else {
        seq![u[0] as char] + utf16_chars(u.skip(1))
    }
}

/// Appends the UTF-16 bytes of a string.
pub fn put_utf16le(out: &mut Vec<u8>, s: &str)
    ensures
        final(out)@ == old(out)@ + utf16le(s@),
{
    for c in it: s.chars()
        invariant
            out@ == old(out)@ + utf16le(it.seq().take(it.index())),
            it.seq() == s@,
    {
        let ghost so_far = it.seq().take(it.index());
        let ghost next = it.seq().take(it.index() + 1);
        let code: u32 = c as u32;
        if code < 0x1_0000 {
            wire::put_u16(out, code as u16);
        } else {
            wire::put_u16(out, (0xD800 + (code - 0x1_0000) / 0x400) as u16);
            wire::put_u16(out, (0xDC00 + (code - 0x1_0000) % 0x400) as u16);
        }
        assert(next.drop_last() =~= so_far);
        assert(out@ =~= old(out)@ + utf16le(next));
    }
    assert(s@.take(s@.len() as int) =~= s@);
}

/// The UTF-16 bytes of a string.
pub fn encode_utf16le(s: &str) -> (r: Vec<u8>)
    ensures
        r@ == utf16le(s@),
{
    let mut r: Vec<u8> = Vec::new();
    put_utf16le(&mut r, s);
    assert(r@ =~= utf16le(s@));
    r
}

/// The text of little-endian UTF-16 bytes; `None` where their number is odd.
pub fn decode_utf16le(b: &[u8]) -> (r: Option<String>)
    ensures
        match r {
            Some(s) => b@.len() % 2 == 0 && s@ == utf16_chars(utf16_units(b@)),
            None => b@.len() % 2 != 0,
        },
{
    if b.len() % 2 != 0 {
        return None;
    }
    let n: usize = b.len();
    let ghost units = utf16_units(b@);
    let mut r: String = String::new();
    let mut i: usize = 0;
    assert(units.skip(0) =~= units);
    assert(r@ + utf16_chars(units.skip(0)) =~= utf16_chars(units));
    while i < n
        invariant
            n == b@.len(),
            n % 2 == 0,
            i <= n,
            i % 2 == 0,
            units == utf16_units(b@),
            r@ + utf16_chars(units.skip(i as int / 2)) == utf16_chars(units),
        decreases n - i,
    {
        let ghost rest = units.skip(i as int / 2);
        let ghost before = r@;
        let u: u16 = wire::read_u16(b, i);
        assert(u == rest[0]);
        let mut code: u32 = u as u32;
        let mut used: usize = 2;
        if 0xD800 <= u && u < 0xE000 {
            code = 0xFFFD;
            if u < 0xDC00 && n - i >= 4 {
                let v: u16 = wire::read_u16(b, i + 2);
                assert(v == rest[1]);
                if 0xDC00 <= v && v < 0xE000 {
                    code = 0x1_0000 + (u as u32 - 0xD800) * 0x400 + (v as u32 - 0xDC00);
                    used = 4;
                }
            }
        }
        match char::from_u32(code) {
            Some(c) => {
                r.push(c);
                proof {
                    assert(rest.skip(used as int / 2) =~= units.skip((i + used) as int / 2));
                    assert(utf16_chars(rest) =~= seq![c] + utf16_chars(rest.skip(used as int / 2)));
                    assert(r@ + utf16_chars(units.skip((i + used) as int / 2)) =~= before
                        + utf16_chars(rest));
                }
            },
            None => {
                assert(false);
            },
        }
        i += used;
    }
    assert(units.skip(i as int / 2) =~= Seq::<u16>::empty());
    assert(r@ =~= utf16_chars(units));
    Some(r)
}

proof fn lemma_utf16le_front(s: Seq<char>)
    requires
        s.len() > 0,
    ensures
        utf16le(s) == char_utf16le(s[0]) + utf16le(s.skip(1)),
    decreases s.len(),
{
    if s.len() == 1 {
        assert(s.drop_last() =~= Seq::<char>::empty());
        assert(s.skip(1) =~= Seq::<char>::empty());
        assert(utf16le(s) =~= char_utf16le(s[0]) + utf16le(s.skip(1)));
    } else {
        lemma_utf16le_front(s.drop_last());
        assert(s.drop_last().skip(1) =~= s.skip(1).drop_last());
        assert(utf16le(s) =~= char_utf16le(s[0]) + utf16le(s.skip(1)));
    }
}

proof fn lemma_utf16le_even(s: Seq<char>)
    ensures
        utf16le(s).len() % 2 == 0,
    decreases s.len(),
{
    if s.len() > 0 {
        lemma_utf16le_even(s.drop_last());
    }
}

/// Text that is written as UTF-16 is read back as it was.
pub proof fn utf16_round_trips(s: Seq<char>)
    ensures
        utf16le(s).len() % 2 == 0,
        utf16_chars(utf16_units(utf16le(s))) == s,
    decreases s.len(),
{
    lemma_utf16le_even(s);
    let b = utf16le(s);
    if s.len() == 0 {
        assert(utf16_units(b) =~= Seq::<u16>::empty());
        assert(s =~= Seq::<char>::empty());
    } else {
        lemma_utf16le_front(s);
        let head = char_utf16le(s[0]);
        let tail = utf16le(s.skip(1));
        let n = head.len() as int / 2;
        lemma_utf16le_even(s.skip(1));
        utf16_round_trips(s.skip(1));
        let u = utf16_units(b);
        assert forall|i: int| 0 <= i < tail.len() / 2 implies u[n + i] == utf16_units(tail)[i] by {
            assert(b[2 * (n + i)] == tail[2 * i]);
            assert(b[2 * (n + i) + 1] == tail[2 * i + 1]);
        }
        assert(u.skip(n) =~= utf16_units(tail));
        let code = s[0] as u32;
        vstd::utf8::char_is_scalar(s[0]);
        assert(b[0] == head[0] && b[1] == head[1]);
        if code >= 0x1_0000 {
            assert(b[2] == head[2] && b[3] == head[3]);
            assert(u[0] == wire::le16(b, 0) && u[1] == wire::le16(b, 2));
            assert(u[0] == 0xD800 + (code - 0x1_0000) / 0x400);
            assert(u[1] == 0xDC00 + (code - 0x1_0000) % 0x400);
            assert(0x1_0000 + (u[0] - 0xD800) * 0x400 + (u[1] - 0xDC00) == code);
        } else {
            assert(u[0] == wire::le16(b, 0));
            assert(u[0] == code);
        }
        vstd::utf8::char_u32_cast(s[0], code);
        assert(seq![s[0]] + s.skip(1) =~= s);
    }
}

} // verus!
