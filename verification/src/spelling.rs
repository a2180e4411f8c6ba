//! How texts, paths and short names are spelled, character by character.

use crate::info_class::short_name;
use crate::path;
use crate::proto::messages::layout;
use crate::text;
use crate::wire;
use vstd::prelude::*;

verus! {

/// Capital letters have the codes 65 to 90 and small letters those that are greater by 32; no
/// other character changes its case. Digits have the codes 48 to 57.
pub proof fn letters_change_their_case(c: char)
    ensures
        text::is_upper(c) <==> 65 <= c as u32 <= 90,
        text::is_lower(c) <==> 97 <= c as u32 <= 122,
        text::is_digit(c) <==> 48 <= c as u32 <= 57,
        text::is_upper(c) ==> text::lower(c) as u32 == c as u32 + 32 && text::is_lower(
            text::lower(c),
        ),
        text::is_lower(c) ==> text::upper(c) as u32 == c as u32 - 32 && text::is_upper(
            text::upper(c),
        ),
        !text::is_upper(c) ==> text::lower(c) == c,
        !text::is_lower(c) ==> text::upper(c) == c,
{
}

/// Texts are equal but for case where they are equally long and each character is.
pub proof fn case_is_ignored_character_by_character(a: Seq<char>, b: Seq<char>)
    ensures
        text::same_ignoring_case(a, b) <==> (a.len() == b.len() && forall|i: int|
            0 <= i < a.len() ==> text::lower(#[trigger] a[i]) == text::lower(b[i])),
{
    if text::same_ignoring_case(a, b) {
        assert(text::lowered(a).len() == text::lowered(b).len());
        assert forall|i: int| 0 <= i < a.len() implies text::lower(#[trigger] a[i]) == text::lower(
            b[i],
        ) by {
            assert(text::lowered(a)[i] == text::lowered(b)[i]);
        }
    }
    if a.len() == b.len() && forall|i: int|
        0 <= i < a.len() ==> text::lower(#[trigger] a[i]) == text::lower(b[i]) {
        assert(text::lowered(a) =~= text::lowered(b));
    }
}

proof fn lemma_trimmed_start(s: Seq<char>) -> (i: int)
    ensures
        0 <= i <= s.len(),
        text::trimmed_start(s) == s.skip(i),
        forall|k: int| 0 <= k < i ==> text::is_white_space(#[trigger] s[k]),
        i < s.len() ==> !text::is_white_space(s[i]),
    decreases s.len(),
{
    if s.len() > 0 && text::is_white_space(s[0]) {
        let r = s.skip(1);
        let j = lemma_trimmed_start(r);
        assert(r.skip(j) =~= s.skip(j + 1));
        assert forall|k: int| 0 <= k < j + 1 implies text::is_white_space(#[trigger] s[k]) by {
            if k > 0 {
                assert(r[k - 1] == s[k]);
            }
        }
        if j + 1 < s.len() {
            assert(r[j] == s[j + 1]);
        }
        j + 1
    } else {
        assert(s.skip(0) =~= s);
        0
    }
}

proof fn lemma_trimmed_end(s: Seq<char>) -> (i: int)
    ensures
        0 <= i <= s.len(),
        text::trimmed_end(s) == s.take(i),
        forall|k: int| i <= k < s.len() ==> text::is_white_space(#[trigger] s[k]),
        0 < i ==> !text::is_white_space(s[i - 1]),
    decreases s.len(),
{
    if s.len() > 0 && text::is_white_space(s.last()) {
        let r = s.drop_last();
        let j = lemma_trimmed_end(r);
        assert(r.take(j) =~= s.take(j));
        assert forall|k: int| j <= k < s.len() implies text::is_white_space(#[trigger] s[k]) by {
            if k < r.len() {
                assert(r[k] == s[k]);
            }
        }
        if 0 < j {
            assert(r[j - 1] == s[j - 1]);
        }
        j
    } else {
        assert(s.take(s.len() as int) =~= s);
        s.len() as int
    }
}

/// Trimming takes white space away in front and behind, and nothing else; no white space is left
/// at either end.
pub proof fn trimming_takes_white_space_at_the_ends(s: Seq<char>) -> (r: (int, int))
    ensures
        0 <= r.0 <= r.1 <= s.len(),
        text::trimmed(s) == s.subrange(r.0, r.1),
        forall|k: int| 0 <= k < r.0 ==> text::is_white_space(#[trigger] s[k]),
        forall|k: int| r.1 <= k < s.len() ==> text::is_white_space(#[trigger] s[k]),
        r.0 < r.1 ==> !text::is_white_space(s[r.0]) && !text::is_white_space(s[r.1 - 1]),
{
    let i = lemma_trimmed_start(s);
    let t = s.skip(i);
    let j = lemma_trimmed_end(t);
    assert(t.take(j) =~= s.subrange(i, i + j));
    assert forall|k: int| i + j <= k < s.len() implies text::is_white_space(#[trigger] s[k]) by {
        assert(t[k - i] == s[k]);
    }
    if 0 < j {
        assert(t[j - 1] == s[i + j - 1]);
        assert(t[0] == s[i]);
    }
    (i, i + j)
}

/// Blanks, tabs and ends of lines are white space; letters and digits, dots and separators of
/// paths are not.
pub proof fn blanks_are_white_space(c: char)
    ensures
        c as u32 == 32 || 9 <= c as u32 <= 13 || c as u32 == 0xA0 || c as u32 == 0x3000
            ==> text::is_white_space(c),
        33 <= c as u32 <= 0x84 || c as u32 <= 8 || 14 <= c as u32 <= 31 || c as u32 > 0x3000
            ==> !text::is_white_space(c),
{
}

/// A character of the first plane is one unit of UTF-16, any other is two units that give its
/// code; each unit has its low byte first.
pub proof fn characters_are_units(c: char)
    ensures
        ({
            let b = text::char_utf16le(c);
            let code = c as u32 as int;
            let h = layout::number(b, 0, 2);
            let l = layout::number(b, 2, 2);
            &&& code < 0x1_0000 ==> b.len() == 2 && h == code
            &&& code >= 0x1_0000 ==> b.len() == 4 && 0xD800 <= h < 0xDC00 && 0xDC00 <= l < 0xE000
                && 0x1_0000 + (h - 0xD800) * 0x400 + (l - 0xDC00) == code
        }),
        1 <= text::utf8_width(c) <= 4,
        text::utf8_width(c) == 1 <==> (c as u32) < 0x80,
        text::utf8_width(c) <= 2 <==> (c as u32) < 0x800,
        text::utf8_width(c) <= 3 <==> (c as u32) < 0x1_0000,
{
    let b = text::char_utf16le(c);
    let code = c as u32;
    layout::numbers_are_little_endian(b);
    if code < 0x1_0000 {
        assert(b.subrange(0, 2) =~= wire::bytes16(code as u16));
        wire::le16_of_bytes16(b, 0, code as u16);
        assert(wire::le16(b, 0) == layout::number(b, 0, 2));
    } else {
        let h = (0xD800 + (code - 0x1_0000) / 0x400) as u16;
        let l = (0xDC00 + (code - 0x1_0000) % 0x400) as u16;
        assert(b.subrange(0, 2) =~= wire::bytes16(h));
        wire::le16_of_bytes16(b, 0, h);
        assert(b.subrange(2, 4) =~= wire::bytes16(l));
        wire::le16_of_bytes16(b, 2, l);
        assert(wire::le16(b, 0) == layout::number(b, 0, 2));
        assert(wire::le16(b, 2) == layout::number(b, 2, 2));
    }
}

/// A text is written character by character.
pub proof fn texts_are_written_in_order(a: Seq<char>, b: Seq<char>)
    ensures
        text::utf16le(a + b) == text::utf16le(a) + text::utf16le(b),
        a.len() == 1 ==> text::utf16le(a) == text::char_utf16le(a[0]),
        a.len() == 0 ==> text::utf16le(a).len() == 0,
    decreases b.len(),
{
    if b.len() == 0 {
        assert(a + b =~= a);
        assert(text::utf16le(a) + text::utf16le(b) =~= text::utf16le(a));
    } else {
        texts_are_written_in_order(a, b.drop_last());
        assert((a + b).drop_last() =~= a + b.drop_last());
        assert((a + b).last() == b.last());
        assert(text::utf16le(a + b) =~= text::utf16le(a) + text::utf16le(b));
    }
    if a.len() == 1 {
        reveal_with_fuel(text::utf16le, 2);
        assert(a.drop_last() =~= Seq::<char>::empty());
        assert(text::utf16le(a) =~= text::char_utf16le(a[0]));
    }
}

/// Bytes are read as units with the low byte first, and units as characters: a pair of surrogates
/// as one, any other unit as its own character, and a surrogate without its partner as U+FFFD.
pub proof fn units_are_read_in_order(b: Seq<u8>, u: Seq<u16>, i: int)
    ensures
        text::utf16_units(b).len() == b.len() / 2,
        0 <= i < b.len() / 2 ==> text::utf16_units(b)[i] == layout::number(b, 2 * i, 2),
        u.len() > 0 && (u[0] < 0xD800 || u[0] >= 0xE000) ==> text::utf16_chars(u)[0] as u32 == u[0]
            && text::utf16_chars(u).skip(1) == text::utf16_chars(u.skip(1)),
        u.len() > 1 && 0xD800 <= u[0] < 0xDC00 && 0xDC00 <= u[1] < 0xE000
            ==> text::utf16_chars(u)[0] as u32 == 0x1_0000 + (u[0] - 0xD800) * 0x400 + (u[1]
            - 0xDC00) && text::utf16_chars(u).skip(1) == text::utf16_chars(u.skip(2)),
        u.len() > 0 && 0xDC00 <= u[0] < 0xE000 ==> text::utf16_chars(u)[0] as u32 == 0xFFFD
            && text::utf16_chars(u).skip(1) == text::utf16_chars(u.skip(1)),
        u.len() > 0 && 0xD800 <= u[0] < 0xDC00 && (u.len() == 1 || u[1] < 0xDC00 || u[1] >= 0xE000)
            ==> text::utf16_chars(u)[0] as u32 == 0xFFFD && text::utf16_chars(u).skip(1)
            == text::utf16_chars(u.skip(1)),
        u.len() == 0 ==> text::utf16_chars(u).len() == 0,
{
    layout::numbers_are_little_endian(b);
    assert(wire::le16(b, 2 * i) == layout::number(b, 2 * i, 2));
    if u.len() > 0 {
        let all = text::utf16_chars(u);
        if u.len() > 1 && 0xD800 <= u[0] < 0xDC00 && 0xDC00 <= u[1] < 0xE000 {
            assert(all.skip(1) =~= text::utf16_chars(u.skip(2)));
        } else {
            assert(all.skip(1) =~= text::utf16_chars(u.skip(1)));
        }
    }
}

proof fn lemma_word(s: Seq<char>, word: Seq<char>)
    requires
        forall|i: int| 0 <= i < s.len() ==> !path::is_separator(#[trigger] s[i]),
    ensures
        path::split(s, word) == if word.len() + s.len() == 0 {
            Seq::<Seq<char>>::empty()
        } else {
            seq![word + s]
        },
    decreases s.len(),
{
    if s.len() > 0 {
        let r = s.skip(1);
        assert forall|i: int| 0 <= i < r.len() implies !path::is_separator(#[trigger] r[i]) by {
            assert(r[i] == s[i + 1]);
        }
        lemma_word(r, word.push(s[0]));
        assert(word.push(s[0]) + r =~= word + s);
    } else {
        assert(word + s =~= word);
    }
}

/// A text without separators is one component, or none where it is empty.
pub proof fn words_are_components(s: Seq<char>)
    requires
        forall|i: int| 0 <= i < s.len() ==> (#[trigger] s[i]) != '\\' && s[i] != '/',
    ensures
        s.len() > 0 ==> path::split(s, Seq::empty()) == seq![s],
        s.len() == 0 ==> path::split(s, Seq::empty()) == Seq::<Seq<char>>::empty(),
{
    lemma_word(s, Seq::empty());
    assert(Seq::<char>::empty() + s =~= s);
}

proof fn lemma_separated(a: Seq<char>, c: char, b: Seq<char>, word: Seq<char>)
    requires
        c == '\\' || c == '/',
    ensures
        path::split(a + seq![c] + b, word) == path::split(a, word) + path::split(b, Seq::empty()),
    decreases a.len(),
{
    let s = a + seq![c] + b;
    if a.len() == 0 {
        assert(s.skip(1) =~= b);
        assert(s[0] == c);
    } else {
        assert(s.skip(1) =~= a.skip(1) + seq![c] + b);
        assert(s[0] == a[0]);
        if path::is_separator(a[0]) {
            lemma_separated(a.skip(1), c, b, Seq::empty());
            assert(path::split(s, word) =~= path::split(a, word) + path::split(b, Seq::empty()));
        } else {
            lemma_separated(a.skip(1), c, b, word.push(a[0]));
        }
    }
}

/// Each separator, of either kind, parts the components in front of it from those behind it.
pub proof fn separators_part_components(a: Seq<char>, c: char, b: Seq<char>)
    requires
        c == '\\' || c == '/',
    ensures
        path::split(a + seq![c] + b, Seq::empty()) == path::split(a, Seq::empty()) + path::split(
            b,
            Seq::empty(),
        ),
{
    lemma_separated(a, c, b, Seq::empty());
}

/// A path is shown with one backslash between its components.
pub proof fn paths_are_shown_with_backslashes(p: path::PathModel, name: Seq<char>)
    ensures
        path::displayed(Seq::empty()).len() == 0,
        path::displayed(seq![name]) == name,
        p.len() > 0 ==> path::displayed(p.push(name)) == path::displayed(p) + seq!['\\'] + name,
        path::parent_of(p.push(name)) == Some(p),
        path::parent_of(Seq::empty()) == None::<path::PathModel>,
{
    assert(p.push(name).drop_last() =~= p);
}

/// What a path keeps when a directory above it is renamed: the components behind it.
pub proof fn renamed_paths_keep_their_end(
    p: path::PathModel,
    from: path::PathModel,
    to: path::PathModel,
    rest: path::PathModel,
)
    ensures
        path::moved(from + rest, from, to) == Some(to + rest),
        path::moved(p, from, to) is Some <==> p.len() >= from.len() && forall|i: int|
            0 <= i < from.len() ==> text::same_ignoring_case(#[trigger] p[i], from[i]),
        path::is_below(p, from) <==> p.len() > from.len() && path::moved(p, from, to) is Some,
        path::moved(p, from, to) matches Some(q) ==> q.skip(to.len() as int) == p.skip(
            from.len() as int,
        ) && q.take(to.len() as int) == to,
{
    assert((from + rest).skip(from.len() as int) =~= rest);
    assert forall|i: int| 0 <= i < from.len() implies text::same_ignoring_case(
        #[trigger] (from + rest)[i],
        from[i],
    ) by {
        assert((from + rest)[i] == from[i]);
    }
    if let Some(q) = path::moved(p, from, to) {
        assert(q.skip(to.len() as int) =~= p.skip(from.len() as int));
        assert(q.take(to.len() as int) =~= to);
    }
}

/// What stands before the first dot of a name has no dot.
pub proof fn names_are_parted_at_the_first_dot(name: Seq<char>)
    ensures
        0 <= short_name::first_dot(name) <= name.len(),
        forall|i: int| 0 <= i < short_name::first_dot(name) ==> #[trigger] name[i] != '.',
        short_name::first_dot(name) < name.len() ==> name[short_name::first_dot(name)] == '.',
    decreases name.len(),
{
    if name.len() > 0 && name[0] != '.' {
        let r = name.skip(1);
        names_are_parted_at_the_first_dot(r);
        assert forall|i: int| 0 <= i < short_name::first_dot(name) implies #[trigger] name[i] != '.' by {
            if i > 0 {
                assert(r[i - 1] == name[i]);
            }
        }
        if short_name::first_dot(name) < name.len() {
            assert(r[short_name::first_dot(r)] == name[short_name::first_dot(name)]);
        }
    }
}

/// In a short name letters stand as capitals and digits as they are; no other character of ASCII
/// stands in it.
pub proof fn short_names_have_capitals(c: char)
    ensures
        65 <= c as u32 <= 90 || 48 <= c as u32 <= 57 ==> short_name::short_char(c) == Some(c),
        97 <= c as u32 <= 122 ==> (short_name::short_char(c) matches Some(u) && u as u32 == c as u32
            - 32),
        (c as u32) < 0x80 && !(65 <= c as u32 <= 90) && !(97 <= c as u32 <= 122) && !(48 <= c as u32
            <= 57) ==> short_name::short_char(c) is None,
{
}

/// A part of a short name takes the characters in order, leaves out those that have no place in
/// it, and ends with the one that takes the last byte.
pub proof fn short_names_are_cut(c: char, rest: Seq<char>, used: int, max: int)
    ensures
        ({
            let part = short_name::short_part(seq![c] + rest, used, max);
            &&& short_name::short_char(c) is None ==> part == short_name::short_part(
                rest,
                used,
                max,
            )
            &&& short_name::short_char(c) matches Some(u) ==> part[0] == u && part.skip(1) == if used
                + text::utf8_width(u) < max {
                short_name::short_part(rest, used + text::utf8_width(u), max)
            } else {
                Seq::<char>::empty()
            }
        }),
        short_name::short_part(Seq::empty(), used, max).len() == 0,
{
    let s = seq![c] + rest;
    assert(s.skip(1) =~= rest);
    let part = short_name::short_part(s, used, max);
    if let Some(u) = short_name::short_char(c) {
        if used + text::utf8_width(u) < max {
            assert(part.skip(1) =~= short_name::short_part(rest, used + text::utf8_width(u), max));
        } else {
            assert(part.skip(1) =~= Seq::<char>::empty());
        }
    }
}

/// A short name is up to six bytes of what stands before the first dot, or `FILE`, then `~1`, and
/// behind a dot up to three bytes of what stands behind the first dot.
pub proof fn short_names_have_base_and_extension(base: Seq<char>, end: Seq<char>)
    requires
        base.len() > 0,
        !text::is_white_space(base[0]),
        forall|i: int| 0 <= i < base.len() ==> (#[trigger] base[i]) != '.',
        end.len() > 0,
        !text::is_white_space(end.last()),
    ensures
        ({
            let b = short_name::short_part(base, 0, 6);
            let e = short_name::short_part(end, 0, 3);
            let front = if b.len() == 0 {
                seq!['F', 'I', 'L', 'E']
            } else {
                b
            };
            short_name::short_name(base + seq!['.'] + end) == if e.len() == 0 {
                front + seq!['~', '1']
            } else {
                front + seq!['~', '1', '.'] + e
            }
        }),
{
    let name = base + seq!['.'] + end;
    let r = trimming_takes_white_space_at_the_ends(name);
    assert(name[0] == base[0] && name.last() == end.last());
    assert(r.0 == 0);
    assert(r.1 == name.len());
    assert(text::trimmed(name) =~= name);
    names_are_parted_at_the_first_dot(name);
    let d = short_name::first_dot(name);
    assert(name[base.len() as int] == '.');
    assert forall|i: int| 0 <= i < base.len() implies #[trigger] name[i] != '.' by {
        assert(name[i] == base[i]);
    }
    assert(d == base.len());
    assert(name.take(d) =~= base);
    assert(name.skip(d + 1) =~= end);
}

} // verus!
