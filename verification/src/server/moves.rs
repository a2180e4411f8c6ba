//! Paths that are renamed while they are open.

use crate::path;
use crate::path::{rebase_path, PathModel, SmbPath};
use crate::server::locks;
use crate::server::state;
use crate::server::state::{ServerState, StateModel};
use crate::server::types::{
    OpenModel, OpenRecord, OpenRecordModel, Registration, RegistrationModel,
};
use crate::text;
use crate::text::lower_string;
use vstd::prelude::*;

verus! {

/// Where the registration of an open moves, if it is in a share and does.
pub open spec fn moved_to(
    r: OpenRecordModel,
    share_key: Seq<char>,
    from: PathModel,
    to: PathModel,
) -> Option<PathModel> {
    match r.registration {
        None => None,
        Some(g) => if g.share == share_key {
            path::moved(g.path, from, to)
        } else {
            None
        },
    }
}

/// An open after a path was renamed: its registration follows, and its own path becomes
/// the registered one where it is renamed too.
pub open spec fn open_moved(
    r: OpenRecordModel,
    share_key: Seq<char>,
    from: PathModel,
    to: PathModel,
) -> OpenRecordModel {
    match moved_to(r, share_key, from, to) {
        None => r,
        Some(p) => OpenRecordModel {
            registration: Some(RegistrationModel { path: p, ..r.registration->0 }),
            open: if path::moved(r.open.last_path, from, to) is Some {
                OpenModel { last_path: p, ..r.open }
            } else {
                r.open
            },
            ..r
        },
    }
}

/// The state after a path was renamed: opens and locks on it and below it follow.
pub open spec fn opens_moved(
    m: StateModel,
    share: Seq<char>,
    from: PathModel,
    to: PathModel,
) -> StateModel {
    StateModel {
        opens: m.opens.map_values(
            |r: OpenRecordModel| open_moved(r, text::lowered(share), from, to),
        ),
        byte_range_locks: locks::locks_rekeyed(m.byte_range_locks, share, from, to),
        ..m
    }
}

impl OpenRecord {
    fn follow(&mut self, share_key: &String, from: &SmbPath, to: &SmbPath)
        ensures
            final(self)@ == open_moved(old(self)@, share_key@, from@, to@),
    {
        match self.registration.take() {
            None => {},
            Some(g) => {
                let mut place: Registration = g;
                if place.share == *share_key {
                    match rebase_path(&place.path, from, to) {
                        None => {},
                        Some(p) => {
                            if rebase_path(&self.open.last_path, from, to).is_some() {
                                self.open.last_path = p.duplicate();
                            }
                            place.path = p;
                        },
                    }
                }
                self.registration = Some(place);
            },
        }
    }
}

impl ServerState {
    /// Lets opens and locks on a renamed path, and below it, follow.
    pub fn rekey_open_path(&mut self, share: &str, from: &SmbPath, to: &SmbPath)
        ensures
            final(self)@ == opens_moved(old(self)@, share@, from@, to@),
    {
        let ghost m = self@;
        let share_key: String = lower_string(share);
        let mut i: usize = 0;
        while i < self.opens.len()
            invariant
                i <= self.opens@.len(),
                self@ == (StateModel { opens: self@.opens, ..m }),
                self@.opens.len() == m.opens.len(),
                forall|j: int|
                    0 <= j < i ==> (#[trigger] self@.opens[j]) == open_moved(
                        m.opens[j],
                        share_key@,
                        from@,
                        to@,
                    ),
                forall|j: int|
                    i <= j < self@.opens.len() ==> (#[trigger] self@.opens[j]) == m.opens[j],
            decreases self.opens@.len() - i,
        {
            let ghost before = self@.opens;
            assert(self@.opens[i as int] == self.opens@[i as int]@);
            self.opens[i].follow(&share_key, from, to);
            assert(self@.opens =~= before.update(
                i as int,
                open_moved(m.opens[i as int], share_key@, from@, to@),
            ));
            i += 1;
        }
        assert(self@.opens =~= opens_moved(m, share@, from@, to@).opens);
        self.rekey_byte_range_locks(share, from, to);
    }
}

/// An open on a path that is renamed is found on the new path, and nowhere else.
pub proof fn renamed_opens_are_found(
    r: OpenRecordModel,
    share: Seq<char>,
    from: PathModel,
    to: PathModel,
)
    requires
        state::on_path(r, share, from),
    ensures
        state::on_path(open_moved(r, text::lowered(share), from, to), share, to),
        from != to ==> !state::on_path(
            open_moved(r, text::lowered(share), from, to),
            share,
            from,
        ),
{
    assert(path::starts_with(from, from));
    assert(to + from.skip(from.len() as int) =~= to);
}

} // verus!
