//! Lists in which no two items have the same key.

use crate::server::lists;
use crate::server::waiting;
use vstd::prelude::*;

verus! {

/// Whether no two items of a list have the same key.
#[verifier::opaque]
pub open spec fn distinct<A, K>(s: Seq<A>, key: spec_fn(A) -> K) -> bool {
    forall|i: int, j: int|
        0 <= i < j < s.len() ==> key(#[trigger] s[i]) != key(#[trigger] s[j])
}

/// A list without items has no two with the same key.
pub proof fn none_are_distinct<A, K>(key: spec_fn(A) -> K)
    ensures
        distinct(Seq::<A>::empty(), key),
{
    reveal(distinct);
}

/// Keys stay distinct where each item keeps its key.
pub proof fn same_keys_are_distinct<A, K>(s: Seq<A>, t: Seq<A>, key: spec_fn(A) -> K)
    requires
        distinct(s, key),
        t.len() == s.len(),
        forall|i: int| 0 <= i < s.len() ==> key(#[trigger] t[i]) == key(s[i]),
    ensures
        distinct(t, key),
{
    reveal(distinct);
}

/// Keys stay distinct where an item is added whose key is new.
pub proof fn pushed_are_distinct<A, K>(s: Seq<A>, x: A, key: spec_fn(A) -> K)
    requires
        distinct(s, key),
        forall|i: int| 0 <= i < s.len() ==> key(#[trigger] s[i]) != key(x),
    ensures
        distinct(s.push(x), key),
{
    reveal(distinct);
}

/// Keys stay distinct where an item is taken out.
pub proof fn removed_are_distinct<A, K>(s: Seq<A>, at: int, key: spec_fn(A) -> K)
    requires
        distinct(s, key),
        0 <= at < s.len(),
    ensures
        distinct(s.remove(at), key),
{
    reveal(distinct);
}

/// Whether an item stands in a list with its flag up, or down.
pub open spec fn stands<A>(s: Seq<A>, flags: Seq<bool>, up: bool, x: A) -> bool {
    exists|i: int| 0 <= i < s.len() && flags[i] == up && #[trigger] s[i] == x
}

proof fn lemma_unflagged_from<A>(s: Seq<A>, flags: Seq<bool>)
    ensures
        forall|j: int|
            0 <= j < waiting::unflagged(s, flags).len() ==> stands(
                s,
                flags,
                false,
                #[trigger] waiting::unflagged(s, flags)[j],
            ),
    decreases s.len(),
{
    if s.len() > 0 {
        let head = s.drop_last();
        lemma_unflagged_from(head, flags);
        let before = waiting::unflagged(head, flags);
        let all = waiting::unflagged(s, flags);
        assert forall|j: int| 0 <= j < all.len() implies stands(
            s,
            flags,
            false,
            #[trigger] all[j],
        ) by {
            if j < before.len() {
                assert(all[j] == before[j]);
                assert(stands(head, flags, false, before[j]));
                let i = choose|i: int|
                    0 <= i < head.len() && flags[i] == false && #[trigger] head[i] == before[j];
                assert(s[i] == all[j]);
            } else {
                assert(s[s.len() - 1] == all[j]);
            }
        }
    }
}

/// What holds of all items holds of those that are left.
pub proof fn left_are_from<A>(s: Seq<A>, flags: Seq<bool>, test: spec_fn(A) -> bool)
    requires
        forall|i: int| 0 <= i < s.len() && !flags[i] ==> test(#[trigger] s[i]),
    ensures
        forall|j: int|
            0 <= j < waiting::unflagged(s, flags).len() ==> test(
                #[trigger] waiting::unflagged(s, flags)[j],
            ),
{
    lemma_unflagged_from(s, flags);
    let u = waiting::unflagged(s, flags);
    assert forall|j: int| 0 <= j < u.len() implies test(#[trigger] u[j]) by {
        assert(stands(s, flags, false, u[j]));
    }
}

/// Keys stay distinct where flagged items are taken out.
pub proof fn left_are_distinct<A, K>(s: Seq<A>, flags: Seq<bool>, key: spec_fn(A) -> K)
    requires
        distinct(s, key),
    ensures
        distinct(waiting::unflagged(s, flags), key),
    decreases s.len(),
{
    reveal(distinct);
    if s.len() > 0 {
        let head = s.drop_last();
        assert forall|i: int, j: int| 0 <= i < j < head.len() implies key(#[trigger] head[i])
            != key(#[trigger] head[j]) by {
            assert(key(s[i]) != key(s[j]));
        }
        left_are_distinct(head, flags, key);
        let before = waiting::unflagged(head, flags);
        let last = s.last();
        assert forall|i: int| 0 <= i < head.len() && !flags[i] implies key(#[trigger] head[i])
            != key(last) by {
            assert(key(s[i]) != key(s[s.len() - 1]));
        }
        left_are_from(head, flags, |x: A| key(x) != key(last));
        if !flags[s.len() - 1] {
            assert forall|i: int| 0 <= i < before.len() implies key(#[trigger] before[i])
                != key(last) by {
                assert((|x: A| key(x) != key(last))(before[i]));
            }
            pushed_are_distinct(before, last, key);
        }
    }
}

/// Keys are distinct where the items with a key give way to one.
pub proof fn put_are_distinct<A, K>(s: Seq<A>, flags: Seq<bool>, x: A, key: spec_fn(A) -> K)
    requires
        distinct(s, key),
        forall|i: int| 0 <= i < s.len() ==> (#[trigger] flags[i]) == (key(s[i]) == key(x)),
    ensures
        distinct(waiting::unflagged(s, flags).push(x), key),
{
    left_are_distinct(s, flags, key);
    assert forall|i: int| 0 <= i < s.len() && !flags[i] implies key(#[trigger] s[i]) != key(x) by {}
    left_are_from(s, flags, |y: A| key(y) != key(x));
    let u = waiting::unflagged(s, flags);
    assert forall|i: int| 0 <= i < u.len() implies key(#[trigger] u[i]) != key(x) by {
        assert((|y: A| key(y) != key(x))(u[i]));
    }
    pushed_are_distinct(u, x, key);
}

/// Keys are distinct where the first item with a key, or the end, gives way to one.
pub proof fn replaced_are_distinct<A, K>(
    s: Seq<A>,
    test: spec_fn(A) -> bool,
    x: A,
    key: spec_fn(A) -> K,
)
    requires
        distinct(s, key),
        forall|y: A| #[trigger] test(y) <==> key(y) == key(x),
    ensures
        ({
            let i = lists::first(s, test);
            &&& i < s.len() ==> distinct(s.update(i, x), key)
            &&& i >= s.len() ==> distinct(s.push(x), key)
        }),
{
    lists::first_is_first(s, test);
    let i = lists::first(s, test);
    if i < s.len() {
        assert(test(s[i]));
        same_keys_are_distinct(s, s.update(i, x), key);
    } else {
        assert forall|j: int| 0 <= j < s.len() implies key(#[trigger] s[j]) != key(x) by {
            assert(!test(s[j]));
        }
        pushed_are_distinct(s, x, key);
    }
}

/// Keys are distinct in what is left of a list followed by some of what was taken out.
pub proof fn left_and_taken_are_distinct<A, K>(
    s: Seq<A>,
    flags: Seq<bool>,
    again: Seq<A>,
    key: spec_fn(A) -> K,
)
    requires
        distinct(s, key),
        distinct(again, key),
        forall|j: int| 0 <= j < again.len() ==> stands(s, flags, true, #[trigger] again[j]),
    ensures
        distinct(waiting::unflagged(s, flags) + again, key),
{
    left_are_distinct(s, flags, key);
    lemma_unflagged_from(s, flags);
    reveal(distinct);
    let u = waiting::unflagged(s, flags);
    let all = u + again;
    assert forall|a: int, b: int| 0 <= a < b < all.len() implies key(#[trigger] all[a]) != key(
        #[trigger] all[b],
    ) by {
        if b < u.len() {
            assert(all[a] == u[a] && all[b] == u[b]);
        } else if a >= u.len() {
            assert(all[a] == again[a - u.len()] && all[b] == again[b - u.len()]);
        } else {
            assert(all[a] == u[a] && all[b] == again[b - u.len()]);
            assert(stands(s, flags, false, u[a]));
            assert(stands(s, flags, true, again[b - u.len()]));
            let i = choose|i: int| 0 <= i < s.len() && flags[i] == false && #[trigger] s[i] == u[a];
            let j = choose|j: int|
                0 <= j < s.len() && flags[j] == true && #[trigger] s[j] == again[b - u.len()];
            if i < j {
                assert(key(s[i]) != key(s[j]));
            } else {
                assert(key(s[j]) != key(s[i]));
            }
        }
    }
}

proof fn lemma_flagged_from<A>(s: Seq<A>, flags: Seq<bool>)
    ensures
        forall|j: int|
            0 <= j < waiting::flagged(s, flags).len() ==> stands(
                s,
                flags,
                true,
                #[trigger] waiting::flagged(s, flags)[j],
            ),
    decreases s.len(),
{
    if s.len() > 0 {
        let head = s.drop_last();
        lemma_flagged_from(head, flags);
        let before = waiting::flagged(head, flags);
        let all = waiting::flagged(s, flags);
        assert forall|j: int| 0 <= j < all.len() implies stands(
            s,
            flags,
            true,
            #[trigger] all[j],
        ) by {
            if j < before.len() {
                assert(all[j] == before[j]);
                assert(stands(head, flags, true, before[j]));
                let i = choose|i: int|
                    0 <= i < head.len() && flags[i] == true && #[trigger] head[i] == before[j];
                assert(s[i] == all[j]);
            } else {
                assert(s[s.len() - 1] == all[j]);
            }
        }
    }
}

/// The items that are taken out of a list are from it, and their keys are distinct.
pub proof fn taken_are_distinct<A, K>(s: Seq<A>, flags: Seq<bool>, key: spec_fn(A) -> K)
    requires
        distinct(s, key),
    ensures
        distinct(waiting::flagged(s, flags), key),
        forall|j: int|
            0 <= j < waiting::flagged(s, flags).len() ==> stands(
                s,
                flags,
                true,
                #[trigger] waiting::flagged(s, flags)[j],
            ),
    decreases s.len(),
{
    lemma_flagged_from(s, flags);
    reveal(distinct);
    if s.len() > 0 {
        let head = s.drop_last();
        assert forall|i: int, j: int| 0 <= i < j < head.len() implies key(#[trigger] head[i])
            != key(#[trigger] head[j]) by {
            assert(key(s[i]) != key(s[j]));
        }
        taken_are_distinct(head, flags, key);
        let before = waiting::flagged(head, flags);
        if flags[s.len() - 1] {
            assert forall|i: int| 0 <= i < before.len() implies key(#[trigger] before[i])
                != key(s.last()) by {
                assert(stands(head, flags, true, before[i]));
                let k = choose|k: int|
                    0 <= k < head.len() && flags[k] == true && #[trigger] head[k] == before[i];
                assert(key(s[k]) != key(s[s.len() - 1]));
            }
            pushed_are_distinct(before, s.last(), key);
        }
    }
}

} // verus!
