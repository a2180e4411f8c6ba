//! Paths within a share, as lists of components.

use crate::text;
use crate::text::eq_ignore_ascii_case;
use vstd::prelude::*;

verus! {

/// A path within a share; the root has no component.
#[derive(Debug, Clone, PartialEq, Eq, Hash)]
pub struct SmbPath {
    pub components: Vec<String>,
}

/// The components of a path.
pub type PathModel = Seq<Seq<char>>;

impl View for SmbPath {
    type V = PathModel;

    open spec fn view(&self) -> PathModel {
        self.components@.map_values(|c: String| c@)
    }
}

/// A path as text, with backslashes between the components.
pub open spec fn displayed(path: PathModel) -> Seq<char>
    decreases path.len(),
{
    if path.len() == 0 {
        Seq::empty()
    } else if path.len() == 1 {
        path[0]
    } else {
        displayed(path.drop_last()) + seq!['\\'] + path.last()
    }
}

/// The path without its last component; the root has none.
pub open spec fn parent_of(path: PathModel) -> Option<PathModel> {
    if path.len() == 0 {
        None
    } else {
        Some(path.drop_last())
    }
}

/// Whether the first components of a path are those of another, but for ASCII case.
pub open spec fn starts_with(path: PathModel, prefix: PathModel) -> bool {
    path.len() >= prefix.len() && forall|i: int|
        0 <= i < prefix.len() ==> text::same_ignoring_case(#[trigger] path[i], prefix[i])
}

/// Whether a path lies below another.
pub open spec fn is_below(path: PathModel, ancestor: PathModel) -> bool {
    path.len() > ancestor.len() && starts_with(path, ancestor)
}

/// Where a path is found after `from` was renamed to `to`.
pub open spec fn moved(path: PathModel, from: PathModel, to: PathModel) -> Option<PathModel> {
    if starts_with(path, from) {
        Some(to + path.skip(from.len() as int))
    } else {
        None
    }
}

/// Whether a character separates components.
pub open spec fn is_separator(c: char) -> bool {
    c == '\\' || c == '/'
}

/// The components of a text: what stands between separators, where it is not empty.
/// `word` is the component that is being read.
pub open spec fn split(s: Seq<char>, word: Seq<char>) -> PathModel
    decreases s.len(),
{
    let done = if word.len() == 0 {
        Seq::empty()
    } else {
        seq![word]
    };
    if s.len() == 0 {
        done
    } else if is_separator(s[0]) {
        done + split(s.skip(1), Seq::empty())
    } else {
        split(s.skip(1), word.push(s[0]))
    }
}

impl SmbPath {
    /// Reads a path, with slashes or backslashes between the components.
    pub fn parse(s: &str) -> (r: Self)
        ensures
            r@ == split(s@, Seq::empty()),
    {
        let mut components: Vec<String> = Vec::new();
        let mut word: String = String::new();
        let ghost mut done: PathModel = Seq::empty();
        assert(s@.skip(0) =~= s@);
        assert(done + split(s@, Seq::empty()) =~= split(s@, Seq::empty()));
        for c in it: s.chars()
            invariant
                it.seq() == s@,
                done == components@.map_values(|c: String| c@),
                done + split(s@.skip(it.index() as int), word@) == split(s@, Seq::empty()),
        {
            let ghost rest = s@.skip(it.index() as int);
            assert(rest[0] == c);
            assert(rest.skip(1) =~= s@.skip(it.index() + 1));
            if c == '\\' || c == '/' {
                if !word.as_str().is_empty() {
                    let ghost w = word@;
                    components.push(word);
                    word = String::new();
                    proof {
                        vstd::utf8::encode_utf8_first_scalar(w);
                        let next = components@.map_values(|c: String| c@);
                        assert(next =~= done.push(w));
                        assert(next + split(s@.skip(it.index() + 1), Seq::empty()) =~= done + split(
                            rest,
                            w,
                        ));
                        done = next;
                    }
                } else {
                    proof {
                        if word@.len() > 0 {
                            vstd::utf8::encode_utf8_first_scalar(word@);
                        }
                        assert(word@ =~= Seq::empty());
                        assert(done + split(s@.skip(it.index() + 1), Seq::empty()) =~= done + split(
                            rest,
                            word@,
                        ));
                    }
                }
            } else {
                word.push(c);
            }
        }
        assert(s@.skip(s@.len() as int) =~= Seq::<char>::empty());
        if !word.as_str().is_empty() {
            let ghost w = word@;
            components.push(word);
            assert(components@.map_values(|c: String| c@) =~= done + seq![w]);
        } else {
            proof {
                if word@.len() > 0 {
                    vstd::utf8::encode_utf8_first_scalar(word@);
                }
                assert(word@ =~= Seq::empty());
                assert(components@.map_values(|c: String| c@) =~= done
                    + split(Seq::empty(), word@));
            }
        }
        SmbPath { components }
    }

    /// Whether the path is the root.
    pub fn is_root(&self) -> (r: bool)
        ensures
            r == (self@.len() == 0),
    {
        self.components.len() == 0
    }

    /// Makes a copy.
    pub fn duplicate(&self) -> (r: Self)
        ensures
            r@ == self@,
    {
        let mut components: Vec<String> = Vec::new();
        let mut i: usize = 0;
        while i < self.components.len()
            invariant
                i <= self.components@.len(),
                components@ == self.components@.take(i as int),
            decreases self.components@.len() - i,
        {
            components.push(self.components[i].clone());
            i += 1;
            assert(components@ =~= self.components@.take(i as int));
        }
        assert(components@ =~= self.components@);
        SmbPath { components }
    }

    /// Whether two paths are equal.
    pub fn same(&self, other: &Self) -> (r: bool)
        ensures
            r == (self@ == other@),
    {
        if self.components.len() != other.components.len() {
            assert(self@.len() != other@.len());
            return false;
        }
        let mut i: usize = 0;
        while i < self.components.len()
            invariant
                i <= self.components@.len(),
                self.components@.len() == other.components@.len(),
                forall|j: int| 0 <= j < i ==> self@[j] == other@[j],
            decreases self.components@.len() - i,
        {
            if self.components[i] != other.components[i] {
                assert(self@[i as int] != other@[i as int]);
                return false;
            }
            i += 1;
        }
        assert(self@ =~= other@);
        true
    }

    /// The path without its last component; the root has none.
    pub fn parent(&self) -> (r: Option<Self>)
        ensures
            match r {
                None => parent_of(self@) is None,
                Some(p) => parent_of(self@) == Some(p@),
            },
    {
        if self.components.len() == 0 {
            return None;
        }
        let mut p = self.duplicate();
        let _ = p.components.pop();
        assert(p@ =~= self@.drop_last());
        Some(p)
    }

    /// The last component; the root has none.
    pub fn file_name(&self) -> (r: Option<&String>)
        ensures
            match r {
                None => self@.len() == 0,
                Some(s) => self@.len() > 0 && s@ == self@.last(),
            },
    {
        if self.components.len() == 0 {
            None
        } else {
            Some(&self.components[self.components.len() - 1])
        }
    }

    /// The path as text, with backslashes between the components.
    pub fn display_backslash(&self) -> (r: String)
        ensures
            r@ == displayed(self@),
    {
        let r: String = join_components(&self.components, 0);
        assert(self@.skip(0) =~= self@);
        r
    }
}

/// Joins the components from `from` on with backslashes.
pub fn join_components(components: &Vec<String>, from: usize) -> (r: String)
    requires
        from <= components@.len(),
    ensures
        r@ == displayed(components@.map_values(|c: String| c@).skip(from as int)),
{
    let ghost all = components@.map_values(|c: String| c@);
    let mut r: String = String::new();
    let mut i: usize = from;
    assert(all.subrange(from as int, from as int) =~= PathModel::empty());
    while i < components.len()
        invariant
            from <= i <= components@.len(),
            all == components@.map_values(|c: String| c@),
            r@ == displayed(all.subrange(from as int, i as int)),
        decreases components@.len() - i,
    {
        let ghost so_far = all.subrange(from as int, i as int);
        let ghost next = all.subrange(from as int, i + 1);
        assert(next.drop_last() =~= so_far);
        if i > from {
            r.push('\\');
            assert(r@ =~= displayed(so_far) + seq!['\\']);
        }
        text::push_str(&mut r, components[i].as_str());
        assert(next.last() == components@[i as int]@);
        i += 1;
        assert(r@ =~= displayed(next));
    }
    assert(all.subrange(from as int, i as int) =~= all.skip(from as int));
    r
}

fn starts_with_components(path: &SmbPath, prefix: &SmbPath) -> (r: bool)
    ensures
        r == starts_with(path@, prefix@),
{
    if path.components.len() < prefix.components.len() {
        return false;
    }
    let mut i: usize = 0;
    while i < prefix.components.len()
        invariant
            i <= prefix.components@.len(),
            prefix.components@.len() <= path.components@.len(),
            forall|j: int|
                0 <= j < i ==> text::same_ignoring_case(#[trigger] path@[j], prefix@[j]),
        decreases prefix.components@.len() - i,
    {
        if !eq_ignore_ascii_case(path.components[i].as_str(), prefix.components[i].as_str()) {
            assert(!text::same_ignoring_case(path@[i as int], prefix@[i as int]));
            return false;
        }
        i += 1;
    }
    true
}

/// Whether a path lies below another.
pub fn path_is_descendant(path: &SmbPath, ancestor: &SmbPath) -> (r: bool)
    ensures
        r == is_below(path@, ancestor@),
{
    path.components.len() > ancestor.components.len() && starts_with_components(path, ancestor)
}

/// Whether a path is another or lies below it.
pub fn path_is_same_or_descendant(path: &SmbPath, ancestor: &SmbPath) -> (r: bool)
    ensures
        r == starts_with(path@, ancestor@),
{
    starts_with_components(path, ancestor)
}

/// Where a path is found after `from` was renamed to `to`.
pub fn rebase_path(path: &SmbPath, from: &SmbPath, to: &SmbPath) -> (r: Option<SmbPath>)
    ensures
        match r {
            None => moved(path@, from@, to@) is None,
            Some(p) => moved(path@, from@, to@) == Some(p@),
        },
{
    if !path_is_same_or_descendant(path, from) {
        return None;
    }
    let mut out = to.duplicate();
    let ghost start = out@;
    let mut i: usize = from.components.len();
    assert(path@.subrange(i as int, i as int) =~= PathModel::empty());
    assert(out@ =~= start + path@.subrange(i as int, i as int));
    while i < path.components.len()
        invariant
            from.components@.len() <= i <= path.components@.len(),
            out@ == start + path@.subrange(from.components@.len() as int, i as int),
        decreases path.components@.len() - i,
    {
        let ghost before = out@;
        out.components.push(path.components[i].clone());
        assert(out@ =~= before.push(path@[i as int]));
        i += 1;
        assert(out@ =~= start + path@.subrange(from.components@.len() as int, i as int));
    }
    assert(path@.subrange(from.components@.len() as int, i as int) =~= path@.skip(
        from@.len() as int,
    ));
    Some(out)
}

/// Where a lower-case path is found, as text, after `from` was renamed to `to`.
pub open spec fn rebased(path: Seq<char>, from: Seq<char>, to: Seq<char>) -> Option<Seq<char>> {
    let n = from.len() as int;
    if path == from {
        Some(to)
    } else if path.len() > n && path.take(n) == from && path[n] == '\\' {
        Some(
            if to.len() == 0 {
                path.skip(n + 1)
            } else {
                to + seq!['\\'] + path.skip(n + 1)
            },
        )
    } else {
        None
    }
}

/// Where a lower-case path is found, as text, after `from` was renamed to `to`.
pub fn rebase_lowercase_path(path: &str, from: &str, to: &str) -> (r: Option<String>)
    ensures
        match r {
            None => rebased(path@, from@, to@) is None,
            Some(p) => rebased(path@, from@, to@) == Some(p@),
        },
{
    if text::str_equal(path, from) {
        return Some(text::string_of_str(to));
    }
    let chars: Vec<char> = text::chars_of(path);
    let prefix: Vec<char> = text::chars_of(from);
    let n: usize = prefix.len();
    if chars.len() <= n || chars[n] != '\\' {
        return None;
    }
    let mut i: usize = 0;
    while i < n
        invariant
            i <= n,
            n == prefix@.len(),
            n < chars@.len(),
            chars@ == path@,
            prefix@ == from@,
            path@ != from@,
            forall|j: int| 0 <= j < i ==> chars@[j] == prefix@[j],
        decreases n - i,
    {
        if chars[i] != prefix[i] {
            assert(path@.take(n as int)[i as int] != from@[i as int]);
            return None;
        }
        i += 1;
    }
    assert(path@.take(n as int) =~= from@);
    let mut out: Vec<char> = text::chars_of(to);
    if out.len() != 0 {
        out.push('\\');
    }
    let suffix: &[char] = vstd::slice::slice_subrange(chars.as_slice(), n + 1, chars.len());
    assert(suffix@ =~= path@.skip(n + 1));
    out.extend_from_slice(suffix);
    assert(out@ =~= rebased(path@, from@, to@)->0);
    Some(text::string_of(out.as_slice()))
}

/// A path that was renamed and renamed back is the path again.
pub proof fn rebase_there_and_back(path: Seq<char>, from: Seq<char>, to: Seq<char>)
    requires
        from.len() > 0,
        to.len() > 0,
        rebased(path, from, to) is Some,
    ensures
        rebased(rebased(path, from, to)->0, to, from) == Some(path),
{
    let n = from.len() as int;
    let m = to.len() as int;
    if path != from {
        let there = to + seq!['\\'] + path.skip(n + 1);
        assert(there.take(m) =~= to);
        assert(there.skip(m + 1) =~= path.skip(n + 1));
        assert(from + seq!['\\'] + path.skip(n + 1) =~= path) by {
            assert forall|i: int| 0 <= i < n implies path[i] == from[i] by {
                assert(path.take(n)[i] == from[i]);
            }
        }
    }
}

/// A path below a renamed directory moves below the new name, and what lies elsewhere
/// does not move.
pub proof fn rename_moves_what_is_below(path: PathModel, from: PathModel, to: PathModel)
    ensures
        moved(path, from, to) is Some <==> (is_below(path, from) || (path.len() == from.len()
            && starts_with(path, from))),
        moved(path, from, to) matches Some(p) ==> p.len() == to.len() + path.len() - from.len()
            && starts_with(p, to) && (is_below(path, from) ==> is_below(p, to)),
        moved(from, from, to) == Some(to),
{
    if let Some(p) = moved(path, from, to) {
        assert forall|i: int| 0 <= i < to.len() implies text::same_ignoring_case(
            #[trigger] p[i],
            to[i],
        ) by {
            assert(p[i] == to[i]);
        }
    }
    assert(to + from.skip(from.len() as int) =~= to);
}

} // verus!
