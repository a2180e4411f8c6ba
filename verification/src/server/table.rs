//! Tables by share and path, without regard to ASCII case.

use crate::path;
use crate::path::{rebase_lowercase_path, PathModel, SmbPath};
use crate::server::waiting;
use crate::server::waiting::take_flagged;
use crate::text;
use crate::text::lower_string;
use vstd::prelude::*;

verus! {

/// Share and path in lower case.
#[derive(Debug, Clone, PartialEq, Eq)]
pub struct PosixKey {
    pub share: String,
    pub path: String,
}

/// Share and path in lower case.
#[verifier::ext_equal]
pub struct KeyModel {
    pub share: Seq<char>,
    pub path: Seq<char>,
}

impl View for PosixKey {
    type V = KeyModel;

    open spec fn view(&self) -> KeyModel {
        KeyModel { share: self.share@, path: self.path@ }
    }
}

/// The key of a path in a share.
pub open spec fn key_of(share: Seq<char>, path: PathModel) -> KeyModel {
    KeyModel { share: text::lowered(share), path: text::lowered(path::displayed(path)) }
}

impl PosixKey {
    /// The key of a path in a share.
    pub fn new(share: &str, path: &SmbPath) -> (r: Self)
        ensures
            r@ == key_of(share@, path@),
    {
        let shown: String = path.display_backslash();
        PosixKey { share: lower_string(share), path: lower_string(shown.as_str()) }
    }

    fn same(&self, other: &Self) -> (r: bool)
        ensures
            r == (self@ == other@),
    {
        self.share == other.share && self.path == other.path
    }
}

/// A value with its key.
#[derive(Debug, Clone, PartialEq, Eq)]
pub struct TableEntry<V> {
    pub key: PosixKey,
    pub value: V,
}

/// A table by share and path.
#[derive(Debug, Clone, PartialEq, Eq)]
pub struct Table<V> {
    pub entries: Vec<TableEntry<V>>,
}

/// The value of a key among some entries, the last where there are several.
pub open spec fn lookup<V: View>(entries: Seq<TableEntry<V>>, key: KeyModel) -> Option<V::V>
    decreases entries.len(),
{
    if entries.len() == 0 {
        None
    } else if entries.last().key@ == key {
        Some(entries.last().value@)
    } else {
        lookup(entries.drop_last(), key)
    }
}

/// What entries say.
pub open spec fn entries_map<V: View>(entries: Seq<TableEntry<V>>) -> Map<KeyModel, V::V> {
    Map::new(|k: KeyModel| lookup(entries, k) is Some, |k: KeyModel| lookup(entries, k)->0)
}

impl<V: View> View for Table<V> {
    type V = Map<KeyModel, V::V>;

    open spec fn view(&self) -> Map<KeyModel, V::V> {
        entries_map(self.entries@)
    }
}

// ---------------------------------------------------------------------------
// Renaming
// ---------------------------------------------------------------------------

/// Whether renaming moves a key: it is of the share, and its path is the old name or lies
/// below it.
pub open spec fn renames(key: KeyModel, share: Seq<char>, from: Seq<char>, to: Seq<char>) -> bool {
    key.share == share && path::rebased(key.path, from, to) is Some
}

/// The key that renaming moves a key to.
pub open spec fn renamed(key: KeyModel, from: Seq<char>, to: Seq<char>) -> KeyModel {
    KeyModel { share: key.share, path: path::rebased(key.path, from, to)->0 }
}

/// Whether renaming moves the value of the key `j` to the key `k`.
pub open spec fn moves<A>(
    old: Map<KeyModel, A>,
    j: KeyModel,
    k: KeyModel,
    share: Seq<char>,
    from: Seq<char>,
    to: Seq<char>,
) -> bool {
    old.contains_key(j) && renames(j, share, from, to) && renamed(j, from, to) == k
}

/// Whether renaming moves a value to the key `k`.
pub open spec fn arrives<A>(
    old: Map<KeyModel, A>,
    k: KeyModel,
    share: Seq<char>,
    from: Seq<char>,
    to: Seq<char>,
) -> bool {
    exists|j: KeyModel| #[trigger] moves(old, j, k, share, from, to)
}

/// What is at a key after renaming: a value that was moved there; else what was there,
/// unless it was moved away.
pub open spec fn rekeyed_at<A>(
    old: Map<KeyModel, A>,
    new: Map<KeyModel, A>,
    k: KeyModel,
    share: Seq<char>,
    from: Seq<char>,
    to: Seq<char>,
) -> bool {
    if arrives(old, k, share, from, to) {
        new.contains_key(k) && exists|j: KeyModel| #[trigger]
            moves(old, j, k, share, from, to) && new[k] == old[j]
    } else {
        (new.contains_key(k) <==> old.contains_key(k) && !renames(k, share, from, to)) && (
        new.contains_key(k) ==> new[k] == old[k])
    }
}

/// Whether a table is another after `from` was renamed to `to` in a share; the three
/// texts are in lower case.
pub open spec fn rekeyed<A>(
    old: Map<KeyModel, A>,
    new: Map<KeyModel, A>,
    share: Seq<char>,
    from: Seq<char>,
    to: Seq<char>,
) -> bool {
    forall|k: KeyModel| #[trigger] rekeyed_at(old, new, k, share, from, to)
}

/// Whether a table is another after a path was renamed.
pub open spec fn rekeyed_paths<A>(
    old: Map<KeyModel, A>,
    new: Map<KeyModel, A>,
    share: Seq<char>,
    from: PathModel,
    to: PathModel,
) -> bool {
    rekeyed(
        old,
        new,
        text::lowered(share),
        text::lowered(path::displayed(from)),
        text::lowered(path::displayed(to)),
    )
}

/// A rename brings the value of the old name under the new name.
pub proof fn rename_brings_the_value<A>(
    old: Map<KeyModel, A>,
    new: Map<KeyModel, A>,
    share: Seq<char>,
    from: PathModel,
    to: PathModel,
)
    requires
        rekeyed_paths(old, new, share, from, to),
        old.contains_key(key_of(share, from)),
        text::lowered(path::displayed(to)).len() > 0,
    ensures
        new.contains_key(key_of(share, to)),
        new[key_of(share, to)] == old[key_of(share, from)],
{
    let s = text::lowered(share);
    let f = text::lowered(path::displayed(from));
    let t = text::lowered(path::displayed(to));
    let j = key_of(share, from);
    let k = key_of(share, to);
    assert(moves(old, j, k, s, f, t));
    assert(rekeyed_at(old, new, k, s, f, t));
    let i = choose|i: KeyModel| #[trigger] moves(old, i, k, s, f, t) && new[k] == old[i];
    if i.path != f {
        let n = f.len() as int;
        assert((t + seq!['\\'] + i.path.skip(n + 1)).len() > t.len());
    }
    assert(i =~= j);
}

// ---------------------------------------------------------------------------
// Lemmas
// ---------------------------------------------------------------------------

proof fn lemma_lookup_unflagged<V: View>(
    entries: Seq<TableEntry<V>>,
    flags: Seq<bool>,
    out: Set<KeyModel>,
    k: KeyModel,
)
    requires
        flags.len() >= entries.len(),
        forall|i: int|
            0 <= i < entries.len() ==> flags[i] == out.contains(#[trigger] entries[i].key@),
    ensures
        lookup(waiting::unflagged(entries, flags), k) == if out.contains(k) {
            None
        } else {
            lookup(entries, k)
        },
    decreases entries.len(),
{
    if entries.len() > 0 {
        let head = entries.drop_last();
        assert forall|i: int| 0 <= i < head.len() implies flags[i] == out.contains(
            #[trigger] head[i].key@,
        ) by {
            assert(head[i] == entries[i]);
        }
        lemma_lookup_unflagged(head, flags, out, k);
        let kept = waiting::unflagged(head, flags);
        assert(entries[entries.len() - 1] == entries.last());
        assert(kept.push(entries.last()).drop_last() =~= kept);
    }
}

proof fn lemma_lookup_push<V: View>(entries: Seq<TableEntry<V>>, e: TableEntry<V>)
    ensures
        entries_map(entries.push(e)) == entries_map(entries).insert(e.key@, e.value@),
{
    assert(entries.push(e).drop_last() =~= entries);
    assert(entries_map(entries.push(e)) =~= entries_map(entries).insert(e.key@, e.value@));
}

/// The map after the first `n` moved entries are put under their new keys.
spec fn placed<V: View>(
    base: Map<KeyModel, V::V>,
    moved: Seq<TableEntry<V>>,
    n: int,
    from: Seq<char>,
    to: Seq<char>,
) -> Map<KeyModel, V::V>
    decreases n,
{
    if n <= 0 {
        base
    } else {
        placed(base, moved, n - 1, from, to).insert(
            renamed(moved[n - 1].key@, from, to),
            moved[n - 1].value@,
        )
    }
}

/// The last of the first `n` moved entries that goes to the key `k`, or -1.
spec fn last_to<V: View>(
    moved: Seq<TableEntry<V>>,
    n: int,
    k: KeyModel,
    from: Seq<char>,
    to: Seq<char>,
) -> int
    decreases n,
{
    if n <= 0 {
        -1
    } else if renamed(moved[n - 1].key@, from, to) == k {
        n - 1
    } else {
        last_to(moved, n - 1, k, from, to)
    }
}

proof fn lemma_placed<V: View>(
    base: Map<KeyModel, V::V>,
    moved: Seq<TableEntry<V>>,
    n: int,
    k: KeyModel,
    from: Seq<char>,
    to: Seq<char>,
)
    requires
        0 <= n <= moved.len(),
    ensures
        ({
            let at = last_to(moved, n, k, from, to);
            let map = placed(base, moved, n, from, to);
            &&& -1 <= at < n
            &&& at >= 0 ==> renamed(moved[at].key@, from, to) == k && map.contains_key(k) && map[k]
                == moved[at].value@
            &&& at < 0 ==> (map.contains_key(k) <==> base.contains_key(k)) && (map.contains_key(k)
                ==> map[k] == base[k])
            &&& forall|i: int| at < i < n ==> renamed(#[trigger] moved[i].key@, from, to) != k
        }),
    decreases n,
{
    if n > 0 {
        lemma_placed(base, moved, n - 1, k, from, to);
    }
}

/// Among flagged entries, the last one of a key has the value of that key.
proof fn lemma_last_flagged<V: View>(
    entries: Seq<TableEntry<V>>,
    flags: Seq<bool>,
    out: Set<KeyModel>,
)
    requires
        flags.len() >= entries.len(),
        forall|i: int|
            0 <= i < entries.len() ==> flags[i] == out.contains(#[trigger] entries[i].key@),
    ensures
        ({
            let m = waiting::flagged(entries, flags);
            &&& forall|i: int| 0 <= i < m.len() ==> out.contains(#[trigger] m[i].key@)
            &&& forall|i: int|
                0 <= i < m.len() && (forall|j: int|
                    i < j < m.len() ==> (#[trigger] m[j]).key@ != m[i].key@) ==> lookup(
                    entries,
                    (#[trigger] m[i]).key@,
                ) == Some(m[i].value@)
            &&& forall|k: KeyModel|
                out.contains(k) && lookup(entries, k) is Some ==> exists|i: int|
                    0 <= i < m.len() && (#[trigger] m[i]).key@ == k
            &&& forall|i: int| 0 <= i < m.len() ==> lookup(entries, (#[trigger] m[i]).key@) is Some
        }),
    decreases entries.len(),
{
    if entries.len() > 0 {
        let head = entries.drop_last();
        let last = entries.last();
        assert(entries[entries.len() - 1] == last);
        assert forall|i: int| 0 <= i < head.len() implies flags[i] == out.contains(
            #[trigger] head[i].key@,
        ) by {
            assert(head[i] == entries[i]);
        }
        lemma_last_flagged(head, flags, out);
        let before = waiting::flagged(head, flags);
        let m = waiting::flagged(entries, flags);
        if flags[entries.len() - 1] {
            assert(m == before.push(last));
            assert forall|i: int|
                0 <= i < m.len() && (forall|j: int|
                    i < j < m.len() ==> (#[trigger] m[j]).key@ != m[i].key@) implies lookup(
                entries,
                (#[trigger] m[i]).key@,
            ) == Some(m[i].value@) by {
                if i < before.len() {
                    assert(m[before.len() as int].key@ != m[i].key@);
                    assert(before[i] == m[i]);
                    assert forall|j: int| i < j < before.len() implies (
                    #[trigger] before[j]).key@ != before[i].key@ by {
                        assert(m[j] == before[j]);
                    }
                }
            }
            assert forall|k: KeyModel|
                out.contains(k) && lookup(entries, k) is Some implies exists|i: int|
                0 <= i < m.len() && (#[trigger] m[i]).key@ == k by {
                if last.key@ == k {
                    assert(m[before.len() as int].key@ == k);
                } else {
                    let i = choose|i: int| 0 <= i < before.len()
                        && (#[trigger] before[i]).key@ == k;
                    assert(m[i].key@ == k);
                }
            }
            assert forall|i: int| 0 <= i < m.len() implies lookup(
                entries,
                (#[trigger] m[i]).key@,
            ) is Some by {
                if i < before.len() {
                    assert(before[i] == m[i]);
                }
            }
        } else {
            assert(m == before);
            assert(!out.contains(last.key@));
        }
    }
}

proof fn lemma_rekeyed<V: View>(
    all: Seq<TableEntry<V>>,
    flags: Seq<bool>,
    s: Seq<char>,
    f: Seq<char>,
    t: Seq<char>,
)
    requires
        flags.len() >= all.len(),
        forall|j: int|
            0 <= j < all.len() ==> flags[j] == renames((#[trigger] all[j]).key@, s, f, t),
    ensures
        ({
            let list = waiting::flagged(all, flags);
            let base = entries_map(waiting::unflagged(all, flags));
            &&& forall|j: int| 0 <= j < list.len() ==> renames(#[trigger] list[j].key@, s, f, t)
            &&& rekeyed(entries_map(all), placed(base, list, list.len() as int, f, t), s, f, t)
        }),
{
    let keys = Set::new(|k: KeyModel| renames(k, s, f, t));
    let list = waiting::flagged(all, flags);
    let rest = waiting::unflagged(all, flags);
    let base = entries_map(rest);
    let old_map = entries_map(all);
    let new_map = placed(base, list, list.len() as int, f, t);
    lemma_last_flagged(all, flags, keys);
    assert forall|j: int| 0 <= j < list.len() implies renames(#[trigger] list[j].key@, s, f, t) by {
        assert(keys.contains(list[j].key@));
    }
    assert forall|k: KeyModel| #[trigger] rekeyed_at(old_map, new_map, k, s, f, t) by {
        lemma_lookup_unflagged(all, flags, keys, k);
        lemma_placed(base, list, list.len() as int, k, f, t);
        let at = last_to(list, list.len() as int, k, f, t);
        if at >= 0 {
            let j = list[at].key@;
            assert forall|i: int| at < i < list.len() implies (#[trigger] list[i]).key@ != j by {
                assert(renamed(list[i].key@, f, t) != k);
            }
            assert(lookup(all, j) == Some(list[at].value@));
            assert(moves(old_map, j, k, s, f, t));
        } else if arrives(old_map, k, s, f, t) {
            let j = choose|j: KeyModel| #[trigger] moves(old_map, j, k, s, f, t);
            assert(keys.contains(j) && lookup(all, j) is Some);
            let i = choose|i: int| 0 <= i < list.len() && (#[trigger] list[i]).key@ == j;
            assert(renamed(list[i].key@, f, t) == k);
        }
    }
}

impl<V: View> Table<V> {
    /// An empty table.
    pub fn new() -> (r: Self)
        ensures
            r@ == Map::<KeyModel, V::V>::empty(),
    {
        let r = Table { entries: Vec::new() };
        assert(r@ =~= Map::<KeyModel, V::V>::empty());
        r
    }

    /// The value of a key.
    pub fn get(&self, key: &PosixKey) -> (r: Option<&V>)
        ensures
            match r {
                None => !self@.contains_key(key@),
                Some(v) => self@.contains_key(key@) && v@ == self@[key@],
            },
    {
        let mut i: usize = self.entries.len();
        assert(self.entries@.take(i as int) =~= self.entries@);
        while i > 0
            invariant
                i <= self.entries@.len(),
                lookup(self.entries@.take(i as int), key@) == lookup(self.entries@, key@),
            decreases i,
        {
            let ghost head = self.entries@.take(i as int);
            assert(head.last() == self.entries@[i - 1]);
            assert(head.drop_last() =~= self.entries@.take(i - 1));
            if self.entries[i - 1].key.same(key) {
                return Some(&self.entries[i - 1].value);
            }
            i -= 1;
        }
        None
    }

    /// Whether a key has a value.
    pub fn contains(&self, key: &PosixKey) -> (r: bool)
        ensures
            r == self@.contains_key(key@),
    {
        self.get(key).is_some()
    }

    fn key_flags(&self, key: &PosixKey) -> (r: Vec<bool>)
        ensures
            r@.len() == self.entries@.len(),
            forall|i: int|
                0 <= i < self.entries@.len() ==> r@[i] == ((#[trigger] self.entries@[i]).key@
                    == key@),
    {
        let mut flags: Vec<bool> = Vec::new();
        let mut i: usize = 0;
        while i < self.entries.len()
            invariant
                i <= self.entries@.len(),
                flags@.len() == i,
                forall|j: int|
                    0 <= j < i ==> flags@[j] == ((#[trigger] self.entries@[j]).key@ == key@),
            decreases self.entries@.len() - i,
        {
            flags.push(self.entries[i].key.same(key));
            i += 1;
        }
        flags
    }

    /// Takes the value of a key out of the table.
    pub fn take(&mut self, key: &PosixKey) -> (r: Option<V>)
        ensures
            final(self)@ == old(self)@.remove(key@),
            match r {
                None => !old(self)@.contains_key(key@),
                Some(v) => old(self)@.contains_key(key@) && v@ == old(self)@[key@],
            },
    {
        let flags: Vec<bool> = self.key_flags(key);
        let mut out: Vec<TableEntry<V>> = take_flagged(&mut self.entries, &flags);
        proof {
            let all = old(self).entries@;
            let keys = set![key@];
            assert forall|k: KeyModel| lookup(self.entries@, k) == if keys.contains(k) {
                None
            } else {
                lookup(all, k)
            } by {
                lemma_lookup_unflagged(all, flags@, keys, k);
            }
            assert(self@ =~= old(self)@.remove(key@));
            lemma_last_flagged(all, flags@, keys);
            if old(self)@.contains_key(key@) {
                assert(keys.contains(key@) && lookup(all, key@) is Some);
            }
        }
        match out.pop() {
            None => None,
            Some(e) => {
                assert(waiting::flagged(old(self).entries@, flags@).last() == e);
                Some(e.value)
            },
        }
    }

    /// Removes the value of a key.
    pub fn remove(&mut self, key: &PosixKey)
        ensures
            final(self)@ == old(self)@.remove(key@),
    {
        let _ = self.take(key);
    }

    /// Sets the value of a key.
    pub fn set(&mut self, key: PosixKey, value: V)
        ensures
            final(self)@ == old(self)@.insert(key@, value@),
    {
        self.remove(&key);
        proof {
            lemma_lookup_push(self.entries@, TableEntry { key, value });
        }
        self.entries.push(TableEntry { key, value });
        assert(self@ =~= old(self)@.insert(key@, value@));
    }

    /// Moves the values of a path and of the paths below it to another path.
    pub fn rekey(&mut self, share: &str, from: &SmbPath, to: &SmbPath)
        ensures
            rekeyed_paths(old(self)@, final(self)@, share@, from@, to@),
    {
        let share_key: String = lower_string(share);
        let from_shown: String = from.display_backslash();
        let to_shown: String = to.display_backslash();
        let from_path: String = lower_string(from_shown.as_str());
        let to_path: String = lower_string(to_shown.as_str());
        let ghost s = share_key@;
        let ghost f = from_path@;
        let ghost t = to_path@;
        let mut flags: Vec<bool> = Vec::new();
        let mut i: usize = 0;
        while i < self.entries.len()
            invariant
                i <= self.entries@.len(),
                *self == *old(self),
                s == share_key@,
                f == from_path@,
                t == to_path@,
                flags@.len() == i,
                forall|j: int|
                    0 <= j < i
                        ==> flags@[j] == renames((#[trigger] self.entries@[j]).key@, s, f, t),
            decreases self.entries@.len() - i,
        {
            let key: &PosixKey = &self.entries[i].key;
            let hit: bool = key.share == share_key && rebase_lowercase_path(
                key.path.as_str(),
                from_path.as_str(),
                to_path.as_str(),
            ).is_some();
            flags.push(hit);
            i += 1;
        }
        let mut moved: Vec<TableEntry<V>> = take_flagged(&mut self.entries, &flags);
        let ghost list = moved@;
        let ghost base = self@;
        proof {
            lemma_rekeyed(old(self).entries@, flags@, s, f, t);
        }
        let ghost mut n: int = 0;
        while moved.len() > 0
            invariant
                0 <= n,
                n + moved@.len() == list.len(),
                moved@ == list.skip(n),
                f == from_path@,
                t == to_path@,
                forall|j: int| 0 <= j < list.len() ==> renames(#[trigger] list[j].key@, s, f, t),
                self@ == placed(base, list, n, f, t),
            decreases moved@.len(),
        {
            let e: TableEntry<V> = moved.remove(0);
            assert(e == list[n]);
            assert(moved@ =~= list.skip(n + 1));
            assert(renames(list[n].key@, s, f, t));
            match rebase_lowercase_path(
                e.key.path.as_str(),
                from_path.as_str(),
                to_path.as_str(),
            ) {
                Some(path) => {
                    let key = PosixKey { share: e.key.share, path };
                    assert(key@ =~= renamed(list[n].key@, f, t));
                    self.set(key, e.value);
                },
                None => {
                    assert(false);
                },
            }
            proof {
                n = n + 1;
            }
        }
    }
}

} // verus!
