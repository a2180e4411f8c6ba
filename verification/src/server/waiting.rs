//! Requests that wait for their answer.

use crate::proto::messages::FileId;
use vstd::prelude::*;

verus! {

/// What is needed of the header of a request that waits.
#[derive(Debug, Clone, Copy, PartialEq, Eq, Structural)]
pub struct RequestHeader {
    pub session_id: u64,
    pub tree_id: Option<u32>,
    pub message_id: u64,
}

/// A request that waits, by its connection and its asynchronous id.
#[derive(Debug, Clone, PartialEq, Eq)]
pub struct Waiting<T> {
    pub conn: u64,
    pub async_id: u64,
    pub request: RequestHeader,
    pub file_id: FileId,
    pub detail: T,
}

/// What a waiting request holds.
#[verifier::ext_equal]
#[verifier::reject_recursive_types(M)]
pub struct WaitingModel<M> {
    pub conn: u64,
    pub async_id: u64,
    pub request: RequestHeader,
    pub file_id: FileId,
    pub detail: M,
}

impl<T: View> View for Waiting<T> {
    type V = WaitingModel<T::V>;

    open spec fn view(&self) -> WaitingModel<T::V> {
        WaitingModel {
            conn: self.conn,
            async_id: self.async_id,
            request: self.request,
            file_id: self.file_id,
            detail: self.detail@,
        }
    }
}

/// Which waiting requests are meant.
#[derive(Debug, Clone, Copy, PartialEq, Eq)]
pub enum Selector {
    /// The request with an asynchronous id.
    Id { conn: u64, async_id: u64 },
    /// The request with an asynchronous id, if it is of the session.
    Request { conn: u64, async_id: u64, session_id: u64 },
    /// The requests of a session of a connection.
    Session { conn: u64, session_id: u64 },
    /// The requests of a session.
    AnySession { session_id: u64 },
    /// The requests of a tree connect.
    Tree { conn: u64, session_id: u64, tree_id: u32 },
    /// The requests on a file.
    File { conn: u64, file_id: FileId },
    /// The requests of a connection.
    Connection { conn: u64 },
}

/// Whether a waiting request is meant.
pub open spec fn selects<M>(sel: Selector, w: WaitingModel<M>) -> bool {
    match sel {
        Selector::Id { conn, async_id } => w.conn == conn && w.async_id == async_id,
        Selector::Request { conn, async_id, session_id } => w.conn == conn && w.async_id == async_id
            && w.request.session_id == session_id,
        Selector::Session { conn, session_id } => w.conn == conn && w.request.session_id
            == session_id,
        Selector::AnySession { session_id } => w.request.session_id == session_id,
        Selector::Tree { conn, session_id, tree_id } => w.conn == conn && w.request.session_id
            == session_id && w.request.tree_id == Some(tree_id),
        Selector::File { conn, file_id } => w.conn == conn && w.file_id == file_id,
        Selector::Connection { conn } => w.conn == conn,
    }
}

fn selected<T: View>(sel: Selector, w: &Waiting<T>) -> (r: bool)
    ensures
        r == selects(sel, w@),
{
    match sel {
        Selector::Id { conn, async_id } => w.conn == conn && w.async_id == async_id,
        Selector::Request { conn, async_id, session_id } => w.conn == conn && w.async_id == async_id
            && w.request.session_id == session_id,
        Selector::Session { conn, session_id } => w.conn == conn && w.request.session_id
            == session_id,
        Selector::AnySession { session_id } => w.request.session_id == session_id,
        Selector::Tree { conn, session_id, tree_id } => w.conn == conn && w.request.session_id
            == session_id && (match w.request.tree_id {
            Some(t) => t == tree_id,
            None => false,
        }),
        Selector::File { conn, file_id } => w.conn == conn && w.file_id == file_id,
        Selector::Connection { conn } => w.conn == conn,
    }
}

/// The items that are flagged.
pub open spec fn flagged<A>(s: Seq<A>, flags: Seq<bool>) -> Seq<A>
    decreases s.len(),
{
    if s.len() == 0 {
        Seq::empty()
    } else {
        let before = flagged(s.drop_last(), flags);
        if flags[s.len() - 1] {
            before.push(s.last())
        } else {
            before
        }
    }
}

/// The items that are not flagged.
pub open spec fn unflagged<A>(s: Seq<A>, flags: Seq<bool>) -> Seq<A>
    decreases s.len(),
{
    if s.len() == 0 {
        Seq::empty()
    } else {
        let before = unflagged(s.drop_last(), flags);
        if flags[s.len() - 1] {
            before
        } else {
            before.push(s.last())
        }
    }
}

/// Which of some waiting requests are meant.
pub open spec fn selection<M>(s: Seq<WaitingModel<M>>, sel: Selector) -> Seq<bool> {
    s.map_values(|w: WaitingModel<M>| selects(sel, w))
}

/// The waiting requests that are meant.
pub open spec fn taken<M>(s: Seq<WaitingModel<M>>, sel: Selector) -> Seq<WaitingModel<M>> {
    flagged(s, selection(s, sel))
}

/// The waiting requests that are not meant.
pub open spec fn left<M>(s: Seq<WaitingModel<M>>, sel: Selector) -> Seq<WaitingModel<M>> {
    unflagged(s, selection(s, sel))
}

/// What waiting requests hold.
pub open spec fn models<T: View>(s: Seq<Waiting<T>>) -> Seq<WaitingModel<T::V>> {
    s.map_values(|w: Waiting<T>| w@)
}

/// Items are flagged or not, and stay in order: together they are all items.
pub proof fn flagged_lengths<A>(s: Seq<A>, flags: Seq<bool>)
    ensures
        flagged(s, flags).len() + unflagged(s, flags).len() == s.len(),
    decreases s.len(),
{
    if s.len() > 0 {
        flagged_lengths(s.drop_last(), flags);
    }
}

/// Where nothing is flagged, all items are left.
pub proof fn unflagged_none<A>(s: Seq<A>, flags: Seq<bool>)
    requires
        forall|i: int| 0 <= i < s.len() ==> !#[trigger] flags[i],
    ensures
        unflagged(s, flags) == s,
    decreases s.len(),
{
    if s.len() > 0 {
        unflagged_none(s.drop_last(), flags);
        assert(!flags[s.len() - 1]);
        assert(s.drop_last().push(s.last()) =~= s);
    }
}

/// An item is flagged where it stands in the list with its flag up.
pub proof fn flagged_contains<A>(s: Seq<A>, flags: Seq<bool>, x: A)
    ensures
        flagged(s, flags).contains(x) <==> exists|i: int| 0 <= i < s.len() && s[i] == x && flags[i],
    decreases s.len(),
{
    if s.len() > 0 {
        let head = s.drop_last();
        let f = flagged(head, flags);
        flagged_contains(head, flags, x);
        if flagged(s, flags).contains(x) {
            let j = choose|j: int| 0 <= j < flagged(s, flags).len() && flagged(s, flags)[j] == x;
            if j < f.len() {
                assert(f[j] == x);
                assert(f.contains(x));
                let i = choose|i: int| 0 <= i < head.len() && head[i] == x && flags[i];
                assert(s[i] == x && flags[i]);
            } else {
                assert(s[s.len() - 1] == x && flags[s.len() - 1]);
            }
        }
        if exists|i: int| 0 <= i < s.len() && s[i] == x && flags[i] {
            let i = choose|i: int| 0 <= i < s.len() && s[i] == x && flags[i];
            if i < head.len() {
                assert(head[i] == x && flags[i]);
                let j = choose|j: int| 0 <= j < f.len() && f[j] == x;
                assert(flagged(s, flags)[j] == x);
            } else {
                assert(flagged(s, flags)[f.len() as int] == x);
            }
        }
    }
}

/// Takes the flagged items out of a list.
pub fn take_flagged<T>(entries: &mut Vec<T>, flags: &Vec<bool>) -> (r: Vec<T>)
    requires
        flags@.len() == old(entries)@.len(),
    ensures
        r@ == flagged(old(entries)@, flags@),
        final(entries)@ == unflagged(old(entries)@, flags@),
{
    let ghost all = entries@;
    let mut out: Vec<T> = Vec::new();
    let mut i: usize = 0;
    let mut seen: usize = 0;
    assert(all.take(0) =~= Seq::empty());
    assert(entries@ =~= Seq::<T>::empty() + all.skip(0));
    while seen < flags.len()
        invariant
            all == old(entries)@,
            flags@.len() == all.len(),
            seen <= all.len(),
            i <= seen,
            i == unflagged(all.take(seen as int), flags@).len(),
            entries@ == unflagged(all.take(seen as int), flags@) + all.skip(seen as int),
            out@ == flagged(all.take(seen as int), flags@),
        decreases flags@.len() - seen,
    {
        let ghost head = all.take(seen as int);
        let ghost next = all.take(seen + 1);
        let ghost kept = unflagged(head, flags@);
        assert(next.drop_last() =~= head);
        assert(next.last() == all[seen as int]);
        assert(entries@[i as int] == all[seen as int]);
        if flags[seen] {
            let x: T = entries.remove(i);
            out.push(x);
            assert(entries@ =~= kept + all.skip(seen + 1));
        } else {
            assert(entries@ =~= kept.push(all[seen as int]) + all.skip(seen + 1));
            i += 1;
        }
        seen += 1;
    }
    assert(all.take(seen as int) =~= all);
    assert(entries@ =~= unflagged(all, flags@));
    out
}

proof fn lemma_flagged_models<T: View>(s: Seq<Waiting<T>>, flags: Seq<bool>)
    ensures
        models(flagged(s, flags)) == flagged(models(s), flags),
        models(unflagged(s, flags)) == unflagged(models(s), flags),
    decreases s.len(),
{
    if s.len() > 0 {
        lemma_flagged_models(s.drop_last(), flags);
        assert(models(s).drop_last() =~= models(s.drop_last()));
        let f = flagged(s.drop_last(), flags);
        let u = unflagged(s.drop_last(), flags);
        assert(models(f.push(s.last())) =~= models(f).push(s.last()@));
        assert(models(u.push(s.last())) =~= models(u).push(s.last()@));
    } else {
        assert(models(flagged(s, flags)) =~= flagged(models(s), flags));
        assert(models(unflagged(s, flags)) =~= unflagged(models(s), flags));
    }
}

/// Takes the flagged requests out of a table.
pub fn take_waiting_flagged<T: View>(entries: &mut Vec<Waiting<T>>, flags: &Vec<bool>) -> (r: Vec<
    Waiting<T>,
>)
    requires
        flags@.len() == old(entries)@.len(),
    ensures
        models(r@) == flagged(models(old(entries)@), flags@),
        models(final(entries)@) == unflagged(models(old(entries)@), flags@),
{
    proof {
        lemma_flagged_models(old(entries)@, flags@);
    }
    take_flagged(entries, flags)
}

fn select_flags<T: View>(entries: &Vec<Waiting<T>>, sel: Selector) -> (r: Vec<bool>)
    ensures
        r@ == selection(models(entries@), sel),
{
    let mut flags: Vec<bool> = Vec::new();
    let mut i: usize = 0;
    while i < entries.len()
        invariant
            i <= entries@.len(),
            flags@.len() == i,
            forall|j: int| 0 <= j < i ==> flags@[j] == selects(sel, entries@[j]@),
        decreases entries@.len() - i,
    {
        flags.push(selected(sel, &entries[i]));
        i += 1;
    }
    assert(flags@ =~= selection(models(entries@), sel));
    flags
}

/// Takes the requests that are meant out of a table.
pub fn take_selected<T: View>(entries: &mut Vec<Waiting<T>>, sel: Selector) -> (r: Vec<Waiting<T>>)
    ensures
        models(r@) == taken(models(old(entries)@), sel),
        models(final(entries)@) == left(models(old(entries)@), sel),
{
    let flags: Vec<bool> = select_flags(entries, sel);
    take_waiting_flagged(entries, &flags)
}

/// Puts a request in a table, in place of one with the same connection and id.
pub fn put_waiting<T: View>(entries: &mut Vec<Waiting<T>>, w: Waiting<T>)
    ensures
        models(final(entries)@) == left(
            models(old(entries)@),
            Selector::Id { conn: w.conn, async_id: w.async_id },
        ).push(w@),
{
    let _ = take_selected(entries, Selector::Id { conn: w.conn, async_id: w.async_id });
    let ghost kept = models(entries@);
    entries.push(w);
    assert(models(entries@) =~= kept.push(w@));
}

} // verus!
