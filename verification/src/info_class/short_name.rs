//! Short names in the manner of DOS: six characters, `~1` and three characters behind
//! a dot.

use crate::text::string_of;
use crate::text::{chars_of, trim};
use crate::text;
use vstd::prelude::*;

verus! {

/// Whether a character is alphanumeric in Unicode.
pub uninterp spec fn alphanumeric(c: char) -> bool;

/// The first character of a character in upper case.
pub uninterp spec fn upper_first(c: char) -> Option<char>;

/// `char::is_alphanumeric` is a function of the character; of the ASCII characters, the
/// letters and the digits are alphanumeric.
#[verifier::external_body]
fn is_alphanumeric(c: char) -> (r: bool)
    ensures
        r == alphanumeric(c),
        c < '\u{80}' ==> r == (text::is_upper(c) || text::is_lower(c) || text::is_digit(c)),
{
    c.is_alphanumeric()
}

/// `char::to_uppercase` gives the characters of a character in upper case, of which
/// this is the first.
#[verifier::external_body]
fn to_uppercase_first(c: char) -> (r: Option<char>)
    ensures
        r == upper_first(c),
{
    c.to_uppercase().next()
}

/// The character that stands for a character in a short name, if any.
pub open spec fn short_char(c: char) -> Option<char> {
    if text::is_lower(c) {
        Some(text::upper(c))
    } else if text::is_upper(c) || text::is_digit(c) {
        Some(c)
    } else if c < '\u{80}' || !alphanumeric(c) {
        None
    } else {
        match upper_first(c) {
            Some(u) => Some(u),
            None => Some(c),
        }
    }
}

/// The characters that stand for a text, until they take `max` bytes of UTF-8; `used`
/// bytes are taken already.
pub open spec fn short_part(part: Seq<char>, used: int, max: int) -> Seq<char>
    decreases part.len(),
{
    if part.len() == 0 {
        Seq::empty()
    } else {
        match short_char(part[0]) {
            None => short_part(part.skip(1), used, max),
            Some(c) => if used + text::utf8_width(c) >= max {
                seq![c]
            } else {
                seq![c] + short_part(part.skip(1), used + text::utf8_width(c), max)
            },
        }
    }
}

/// Where a text has its first dot; its length where it has none.
pub open spec fn first_dot(name: Seq<char>) -> int
    decreases name.len(),
{
    if name.len() == 0 {
        0
    } else if name[0] == '.' {
        0
    } else {
        1 + first_dot(name.skip(1))
    }
}

/// The base of a short name.
pub open spec fn short_base(name: Seq<char>) -> Seq<char> {
    let part = short_part(name.take(first_dot(name)), 0, 6);
    if part.len() == 0 {
        seq!['F', 'I', 'L', 'E']
    } else {
        part
    }
}

/// The extension of a short name.
pub open spec fn short_extension(name: Seq<char>) -> Seq<char> {
    if first_dot(name) < name.len() {
        short_part(name.skip(first_dot(name) + 1), 0, 3)
    } else {
        Seq::empty()
    }
}

/// The short name of a name; nothing for an empty name and for the two dot names.
pub open spec fn short_name(name: Seq<char>) -> Seq<char> {
    let name = text::trimmed(name);
    if name.len() == 0 || name == seq!['.'] || name == seq!['.', '.'] {
        Seq::empty()
    } else if short_extension(name).len() == 0 {
        short_base(name) + seq!['~', '1']
    } else {
        short_base(name) + seq!['~', '1', '.'] + short_extension(name)
    }
}

proof fn lemma_short_part_len(part: Seq<char>, used: int, max: int)
    ensures
        used < max ==> short_part(part, used, max).len() <= max - used,
    decreases part.len(),
{
    if part.len() > 0 {
        match short_char(part[0]) {
            None => {
                lemma_short_part_len(part.skip(1), used, max);
            },
            Some(c) => {
                lemma_short_part_len(part.skip(1), used + text::utf8_width(c), max);
            },
        }
    }
}

/// A short name has at most eight characters, a dot and three characters.
pub proof fn short_names_are_short(name: Seq<char>)
    ensures
        short_name(name).len() <= 12,
        short_base(text::trimmed(name)).len() <= 6,
        short_extension(text::trimmed(name)).len() <= 3,
{
    let name = text::trimmed(name);
    lemma_short_part_len(name.take(first_dot(name)), 0, 6);
    lemma_short_part_len(name.skip(first_dot(name) + 1), 0, 3);
}

fn short_name_part(part: &[char], max: usize) -> (r: Vec<char>)
    requires
        max <= 16,
    ensures
        r@ == short_part(part@, 0, max as int),
{
    let mut out: Vec<char> = Vec::new();
    let mut used: usize = 0;
    let mut i: usize = 0;
    assert(part@.skip(0) =~= part@);
    assert(out@ + short_part(part@, 0, max as int) =~= short_part(part@, 0, max as int));
    while i < part.len()
        invariant
            i <= part@.len(),
            max <= 16,
            used <= 16,
            out@ + short_part(part@.skip(i as int), used as int, max as int) == short_part(
                part@,
                0,
                max as int,
            ),
        decreases part@.len() - i,
    {
        let c: char = part[i];
        let ghost rest = part@.skip(i as int);
        assert(rest[0] == c);
        assert(rest.skip(1) =~= part@.skip(i + 1));
        let mapped: Option<char> = if text::is_ascii_lowercase(c) {
            Some(text::upper_char(c))
        } else if text::is_ascii_uppercase(c) || text::is_ascii_digit(c) {
            Some(c)
        } else if is_alphanumeric(c) {
            match to_uppercase_first(c) {
                Some(u) => Some(u),
                None => Some(c),
            }
        } else {
            None
        };
        assert(mapped == short_char(c));
        let ghost before = out@;
        if let Some(m) = mapped {
            out.push(m);
            used += text::char_utf8_width(m);
            if used >= max {
                assert(out@ =~= before + short_part(rest, used - text::utf8_width(m), max as int));
                return out;
            }
            assert(out@ + short_part(part@.skip(i + 1), used as int, max as int) =~= before
                + short_part(rest, used - text::utf8_width(m), max as int));
        }
        i += 1;
    }
    assert(out@ =~= out@ + short_part(part@.skip(i as int), used as int, max as int));
    out
}

fn find_dot(name: &[char]) -> (r: usize)
    ensures
        r == first_dot(name@),
        r <= name@.len(),
{
    let mut i: usize = 0;
    assert(name@.skip(0) =~= name@);
    while i < name.len() && name[i] != '.'
        invariant
            i <= name@.len(),
            i + first_dot(name@.skip(i as int)) == first_dot(name@),
        decreases name@.len() - i,
    {
        assert(name@.skip(i as int).skip(1) =~= name@.skip(i + 1));
        i += 1;
    }
    i
}

/// Makes the short name of a name.
pub fn make_short_name(name: &str) -> (r: String)
    ensures
        r@ == short_name(name@),
{
    let all: Vec<char> = chars_of(name);
    let name: Vec<char> = trim(all.as_slice());
    if name.len() == 0 {
        return String::new();
    }
    if name[0] == '.' && (name.len() == 1 || (name.len() == 2 && name[1] == '.')) {
        assert(name@ =~= seq!['.'] || name@ =~= seq!['.', '.']);
        return String::new();
    }
    let dot: usize = find_dot(name.as_slice());
    let mut out: Vec<char> = short_name_part(
        vstd::slice::slice_subrange(name.as_slice(), 0, dot),
        6,
    );
    assert(name@.subrange(0, dot as int) =~= name@.take(dot as int));
    if out.len() == 0 {
        out.push('F');
        out.push('I');
        out.push('L');
        out.push('E');
        assert(out@ =~= seq!['F', 'I', 'L', 'E']);
    }
    assert(out@ == short_base(name@));
    out.push('~');
    out.push('1');
    assert(out@ =~= short_base(name@) + seq!['~', '1']);
    if dot < name.len() {
        let ext: Vec<char> = short_name_part(
            vstd::slice::slice_subrange(name.as_slice(), dot + 1, name.len()),
            3,
        );
        assert(name@.subrange(dot + 1, name@.len() as int) =~= name@.skip(dot + 1));
        if ext.len() != 0 {
            out.push('.');
            out.extend_from_slice(ext.as_slice());
            assert(out@ =~= short_base(name@) + seq!['~', '1', '.'] + ext@);
        }
    }
    string_of(out.as_slice())
}

} // verus!
