//! Lists in which items are looked up by what they are.

use crate::proto::messages::FileId;
use crate::wire::array16_equal;
use vstd::prelude::*;

verus! {

/// Where the first item that passes a test stands; the length of the list where none
/// does.
pub open spec fn first<A>(s: Seq<A>, test: spec_fn(A) -> bool) -> int
    decreases s.len(),
{
    if s.len() == 0 {
        0
    } else if test(s[0]) {
        0
    } else {
        1 + first(s.skip(1), test)
    }
}

/// Whether some item passes a test.
pub open spec fn found<A>(s: Seq<A>, test: spec_fn(A) -> bool) -> bool {
    first(s, test) < s.len()
}

/// The first item that passes a test passes it, and none before it does.
pub proof fn first_is_first<A>(s: Seq<A>, test: spec_fn(A) -> bool)
    ensures
        0 <= first(s, test) <= s.len(),
        found(s, test) ==> test(s[first(s, test)]),
        forall|i: int| 0 <= i < first(s, test) ==> !test(#[trigger] s[i]),
    decreases s.len(),
{
    if s.len() > 0 && !test(s[0]) {
        let tail = s.skip(1);
        first_is_first(tail, test);
        assert forall|i: int| 0 <= i < first(s, test) implies !test(#[trigger] s[i]) by {
            if i > 0 {
                assert(!test(tail[i - 1]));
            }
        }
        if first(tail, test) < tail.len() {
            assert(tail[first(tail, test)] == s[first(s, test)]);
        }
    }
}

/// An item that passes a test, with none before it that does, is the first.
pub proof fn first_at<A>(s: Seq<A>, test: spec_fn(A) -> bool, at: int)
    requires
        0 <= at <= s.len(),
        at < s.len() ==> test(s[at]),
        forall|i: int| 0 <= i < at ==> !test(#[trigger] s[i]),
    ensures
        first(s, test) == at,
{
    first_is_first(s, test);
    let n = first(s, test);
    if n < at {
        assert(!test(s[n]));
    }
    if at < n {
        assert(!test(s[at]));
    }
}

/// Whether a list of keys holds a key.
pub fn contains_key(keys: &Vec<[u8; 16]>, key: &[u8; 16]) -> (r: bool)
    ensures
        r == keys@.contains(*key),
{
    let mut i: usize = 0;
    while i < keys.len()
        invariant
            i <= keys@.len(),
            forall|j: int| 0 <= j < i ==> keys@[j] != *key,
        decreases keys@.len() - i,
    {
        if array16_equal(&keys[i], key) {
            assert(keys@[i as int] == *key);
            return true;
        }
        i += 1;
    }
    false
}

/// Whether a list of file ids holds a file id.
pub fn contains_file_id(ids: &Vec<FileId>, id: FileId) -> (r: bool)
    ensures
        r == ids@.contains(id),
{
    let mut i: usize = 0;
    while i < ids.len()
        invariant
            i <= ids@.len(),
            forall|j: int| 0 <= j < i ==> ids@[j] != id,
        decreases ids@.len() - i,
    {
        if ids[i] == id {
            assert(ids@[i as int] == id);
            return true;
        }
        i += 1;
    }
    false
}

/// Copies a list of keys.
pub fn copy_keys(keys: &Vec<[u8; 16]>) -> (r: Vec<[u8; 16]>)
    ensures
        r@ == keys@,
{
    let mut r: Vec<[u8; 16]> = Vec::new();
    let mut i: usize = 0;
    while i < keys.len()
        invariant
            i <= keys@.len(),
            r@ == keys@.take(i as int),
        decreases keys@.len() - i,
    {
        r.push(keys[i]);
        assert(r@ =~= keys@.take(i + 1));
        i += 1;
    }
    assert(r@ =~= keys@);
    r
}

/// Copies a list of file ids.
pub fn copy_file_ids(ids: &Vec<FileId>) -> (r: Vec<FileId>)
    ensures
        r@ == ids@,
{
    let mut r: Vec<FileId> = Vec::new();
    let mut i: usize = 0;
    while i < ids.len()
        invariant
            i <= ids@.len(),
            r@ == ids@.take(i as int),
        decreases ids@.len() - i,
    {
        r.push(ids[i]);
        assert(r@ =~= ids@.take(i + 1));
        i += 1;
    }
    assert(r@ =~= ids@);
    r
}

} // verus!
