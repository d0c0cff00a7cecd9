//! Which of a client's tracks plays, and which waits to take over.
use crate::names::{FullTrackName, TrackName};
use crate::table::{Key, Table};
use crate::table;
use vstd::prelude::*;

verus! {

#[derive(Debug, Clone, Copy, PartialEq, Eq, Structural)]
pub enum SwitchStatus {
    /// Played before and was switched away from.
    Inactive,
    /// Plays now.
    Current,
    /// Takes over at its next suitable group.
    Next,
}

/// The tracks of one client that take part in switching.
pub struct SwitchContext {
    pub items: Table<FullTrackName, SwitchStatus>,
}

/// The statuses once whatever plays has stopped playing.
pub open spec fn demoted(m: Map<TrackName, SwitchStatus>) -> Map<TrackName, SwitchStatus> {
    Map::new(
        |k: TrackName| m.contains_key(k),
        |k: TrackName|
            if m[k] is Current {
                SwitchStatus::Inactive
            } else {
                m[k]
            },
    )
}

/// The statuses once `name` has been given `status`. A track that becomes current takes the
/// place of the one that was.
pub open spec fn with_status(
    m: Map<TrackName, SwitchStatus>,
    name: TrackName,
    status: SwitchStatus,
) -> Map<TrackName, SwitchStatus> {
    if status is Current {
        demoted(m).insert(name, status)
    } else {
        m.insert(name, status)
    }
}

/// At most one track plays.
pub open spec fn one_current(m: Map<TrackName, SwitchStatus>) -> bool {
    forall|a: TrackName, b: TrackName| #[trigger]
        m.contains_key(a) && #[trigger] m.contains_key(b) && m[a] is Current && m[b] is Current
            ==> a == b
}

impl View for SwitchContext {
    type V = Map<TrackName, SwitchStatus>;

    open spec fn view(&self) -> Map<TrackName, SwitchStatus> {
        self.items@
    }
}

impl SwitchContext {
    pub open spec fn wf(&self) -> bool {
        self.items.wf() && one_current(self@)
    }

    pub fn new() -> (c: Self)
        ensures
            c.wf(),
            c@ == Map::<TrackName, SwitchStatus>::empty(),
    {
        SwitchContext { items: Table::new() }
    }

    /// The status of a track; `None` for one that takes no part in switching.
    pub fn get_switch_status(&self, name: &FullTrackName) -> (r: Option<SwitchStatus>)
        requires
            self.wf(),
        ensures
            r == (if self@.contains_key(name@) {
                Some(self@[name@])
            } else {
                None
            }),
    {
        match self.items.get(name) {
            Some(s) => Some(*s),
            None => None,
        }
    }

    /// The track that plays.
    pub fn get_current(&self) -> (r: Option<FullTrackName>)
        requires
            self.wf(),
        ensures
            match r {
                Some(n) => self@.contains_key(n@) && self@[n@] is Current,
                None => forall|k: TrackName| #[trigger]
                    self@.contains_key(k) ==> !(self@[k] is Current),
            },
    {
        let mut i: usize = 0;
        while i < self.items.entries.len()
            invariant
                self.wf(),
                i <= self.items.entries@.len(),
                forall|j: int|
                    0 <= j < i ==> !((#[trigger] self.items.entries@[j]).1 is Current),
            decreases self.items.entries@.len() - i,
        {
            if self.items.entries[i].1 == SwitchStatus::Current {
                proof {
                    table::lemma_entry(self.items, i as int);
                }
                return Some(self.items.entries[i].0.copy());
            }
            i = i + 1;
        }
        assert forall|k: TrackName| #[trigger] self@.contains_key(k) implies !(self@[
            k
        ] is Current) by {
            let j = choose|j: int| table::key_at(self.items.entries@, j, k);
            assert(table::key_at(self.items.entries@, j, k));
            table::lemma_entry(self.items, j);
        }
        None
    }

    fn demote(&mut self)
        requires
            old(self).items.wf(),
        ensures
            final(self).items.wf(),
            final(self)@ == demoted(old(self)@),
    {
        let ghost before = self.items;
        let mut i: usize = 0;
        while i < self.items.entries.len()
            invariant
                before.wf(),
                i <= self.items.entries@.len(),
                self.items.entries@.len() == before.entries@.len(),
                forall|j: int|
                    0 <= j < before.entries@.len() ==> (#[trigger] self.items.entries@[j]).0
                        == before.entries@[j].0,
                forall|j: int|
                    0 <= j < i ==> (#[trigger] self.items.entries@[j]).1 == (
                    if before.entries@[j].1 is Current {
                        SwitchStatus::Inactive
                    } else {
                        before.entries@[j].1
                    }),
                forall|j: int|
                    i <= j < before.entries@.len() ==> (#[trigger] self.items.entries@[j]).1
                        == before.entries@[j].1,
            decreases self.items.entries@.len() - i,
        {
            if self.items.entries[i].1 == SwitchStatus::Current {
                self.items.entries[i].1 = SwitchStatus::Inactive;
            }
            i = i + 1;
        }
        let ghost after = self.items;
        proof {
            assert(after.wf()) by {
                assert forall|a: int, b: int| 0 <= a < b < after.entries@.len() implies (
                #[trigger] after.entries@[a]).0.id() != (#[trigger] after.entries@[b]).0.id() by {
                    assert(before.entries@[a].0.id() != before.entries@[b].0.id());
                }
            }
            assert forall|k: TrackName| #[trigger] after@.contains_key(k) == before@.contains_key(
                k,
            ) by {
                if after@.contains_key(k) {
                    let j = choose|j: int| table::key_at(after.entries@, j, k);
                    assert(table::key_at(after.entries@, j, k));
                    assert(after.entries@[j].0 == before.entries@[j].0);
                    assert(table::key_at(before.entries@, j, k));
                }
                if before@.contains_key(k) {
                    let j = choose|j: int| table::key_at(before.entries@, j, k);
                    assert(table::key_at(before.entries@, j, k));
                    assert(after.entries@[j].0 == before.entries@[j].0);
                    assert(table::key_at(after.entries@, j, k));
                }
            }
            assert forall|k: TrackName| after@.contains_key(k) implies #[trigger] after@[k]
                == demoted(before@)[k] by {
                let j = choose|j: int| table::key_at(after.entries@, j, k);
                assert(table::key_at(after.entries@, j, k));
                assert(after.entries@[j].0 == before.entries@[j].0);
                table::lemma_entry(after, j);
                table::lemma_entry(before, j);
            }
            assert(after@ =~= demoted(before@));
        }
    }

    /// Gives a track its status. One that becomes current takes the place of the one that was,
    /// which becomes inactive.
    pub fn add_or_update_switch_item(&mut self, name: FullTrackName, status: SwitchStatus)
        requires
            old(self).wf(),
        ensures
            final(self).wf(),
            final(self)@ == with_status(old(self)@, name@, status),
    {
        if status == SwitchStatus::Current {
            self.demote();
        }
        self.items.insert(name, status);
        proof {
            law_at_most_one_track_plays(old(self)@, name@, status);
        }
    }
}

/// Whatever statuses are given out, at most one track plays.
pub proof fn law_at_most_one_track_plays(
    m: Map<TrackName, SwitchStatus>,
    name: TrackName,
    status: SwitchStatus,
)
    requires
        one_current(m),
    ensures
        one_current(with_status(m, name, status)),
{
    let n = with_status(m, name, status);
    assert forall|a: TrackName, b: TrackName| #[trigger]
        n.contains_key(a) && #[trigger] n.contains_key(b) && n[a] is Current && n[b]
            is Current implies a == b by {
        if status is Current {
            if a != name {
                assert(demoted(m).contains_key(a));
                assert(!(demoted(m)[a] is Current));
            }
            if b != name {
                assert(demoted(m).contains_key(b));
                assert(!(demoted(m)[b] is Current));
            }
        } else {
            assert(a != name && b != name);
            assert(m.contains_key(a) && m.contains_key(b));
        }
    }
}

/// A status is given to one track: it has it afterwards, whatever it had. No other track comes or
/// goes, and none changes its status but the one that played, which stops where another starts.
pub proof fn law_a_status_is_given_to_one_track(
    m: Map<TrackName, SwitchStatus>,
    name: TrackName,
    status: SwitchStatus,
    other: TrackName,
)
    requires
        other != name,
    ensures
        with_status(m, name, status).contains_key(name),
        with_status(m, name, status)[name] == status,
        with_status(m, name, status).contains_key(other) <==> m.contains_key(other),
        m.contains_key(other) && !(m[other] is Current && status is Current) ==> with_status(
            m,
            name,
            status,
        )[other] == m[other],
        m.contains_key(other) && m[other] is Current && status is Current ==> with_status(
            m,
            name,
            status,
        )[other] is Inactive,
{
}

} // verus!
