//! The tracks that the relay knows, and the aliases under which publishers send them.
use crate::names::{FullTrackName, TrackName};
use crate::stream_id::{HeaderInfo, StreamId};
use crate::subscription::Subscription;
use crate::table::{Key, Table};
use crate::track::{Track, TrackStatus};
use vstd::prelude::*;

verus! {

/// A publisher's connection with an alias that it uses.
#[derive(Debug, Clone, Copy, PartialEq, Eq, Structural)]
pub struct PublisherAlias {
    pub connection_id: usize,
    pub track_alias: u64,
}

impl Key for PublisherAlias {
    type Id = PublisherAlias;

    open spec fn id(&self) -> PublisherAlias {
        *self
    }

    fn same(&self, other: &Self) -> (b: bool) {
        self.connection_id == other.connection_id && self.track_alias == other.track_alias
    }
}

pub struct TrackManager {
    pub tracks: Table<FullTrackName, Track>,
    pub track_aliases: Table<PublisherAlias, FullTrackName>,
    /// The relay's id for the next track that is created. Ids start at 1.
    pub next_relay_track_id: u64,
}

impl TrackManager {
    pub open spec fn wf(&self) -> bool {
        &&& self.tracks.wf()
        &&& self.track_aliases.wf()
        &&& self.next_relay_track_id > 0
        &&& forall|n: TrackName| #[trigger]
            self.tracks@.contains_key(n) ==> {
                &&& self.tracks@[n].wf()
                &&& self.tracks@[n].full_track_name@ == n
                &&& 0 < self.tracks@[n].relay_track_id < self.next_relay_track_id
            }
        &&& forall|a: TrackName, b: TrackName|
            #![trigger self.tracks@[a], self.tracks@[b]]
            self.tracks@.contains_key(a) && self.tracks@.contains_key(b)
                && self.tracks@[a].relay_track_id == self.tracks@[b].relay_track_id ==> a == b
    }

    pub fn new() -> (m: Self)
        ensures
            m.wf(),
            m.tracks@ == Map::<TrackName, Track>::empty(),
            m.track_aliases@ == Map::<PublisherAlias, FullTrackName>::empty(),
            m.next_relay_track_id == 1,
    {
        TrackManager {
            tracks: Table::new(),
            track_aliases: Table::new(),
            next_relay_track_id: 1,
        }
    }

    pub fn get_track(&self, name: &FullTrackName) -> (r: Option<&Track>)
        requires
            self.wf(),
        ensures
            match r {
                Some(t) => self.tracks@.contains_key(name@) && self.tracks@[name@] == *t,
                None => !self.tracks@.contains_key(name@),
            },
    {
        self.tracks.get(name)
    }

    /// The name of the track that a publisher sends under an alias.
    pub fn get_name_by_alias(&self, connection_id: usize, track_alias: u64) -> (r: Option<
        FullTrackName,
    >)
        requires
            self.wf(),
        ensures
            ({
                let key = PublisherAlias { connection_id, track_alias };
                match r {
                    Some(n) => self.track_aliases@.contains_key(key) && self.track_aliases@[key]@
                        == n@,
                    None => !self.track_aliases@.contains_key(key),
                }
            }),
    {
        match self.track_aliases.get(&PublisherAlias { connection_id, track_alias }) {
            Some(n) => Some(n.copy()),
            None => None,
        }
    }

    /// Creates a track that awaits its publisher, unless the relay knows one of that name. Says
    /// whether it was created.
    pub fn get_or_create_track(&mut self, name: &FullTrackName) -> (created: bool)
        requires
            old(self).wf(),
            old(self).next_relay_track_id < u64::MAX,
        ensures
            final(self).wf(),
            created == !old(self).tracks@.contains_key(name@),
            !created ==> *final(self) == *old(self),
            created ==> {
                &&& final(self).next_relay_track_id == old(self).next_relay_track_id + 1
                &&& final(self).track_aliases == old(self).track_aliases
                &&& final(self).tracks@ == old(self).tracks@.insert(
                    name@,
                    final(self).tracks@[name@],
                )
                &&& final(self).tracks@[name@].is_new(old(self).next_relay_track_id, name@)
            },
    {
        if self.tracks.contains_key(name) {
            return false;
        }
        let id: u64 = self.next_relay_track_id;
        self.next_relay_track_id = id + 1;
        let track = Track::new(id, name.copy(), TrackStatus::Pending);
        self.tracks.insert(name.copy(), track);
        true
    }

    /// Takes a track out, to be changed and put back.
    pub(crate) fn take(&mut self, name: &FullTrackName) -> (r: Option<Track>)
        requires
            old(self).wf(),
        ensures
            final(self).tracks.wf(),
            final(self).track_aliases == old(self).track_aliases,
            final(self).next_relay_track_id == old(self).next_relay_track_id,
            final(self).tracks@ == old(self).tracks@.remove(name@),
            match r {
                Some(t) => old(self).tracks@.contains_key(name@) && old(self).tracks@[name@] == t,
                None => !old(self).tracks@.contains_key(name@),
            },
    {
        self.tracks.remove(name)
    }

    /// Puts a track back that was taken out of the manager `before`.
    pub(crate) fn put_back(
        &mut self,
        Ghost(before): Ghost<TrackManager>,
        name: FullTrackName,
        track: Track,
    )
        requires
            before.wf(),
            before.tracks@.contains_key(name@),
            old(self).tracks.wf(),
            old(self).track_aliases == before.track_aliases,
            old(self).next_relay_track_id == before.next_relay_track_id,
            old(self).tracks@ == before.tracks@.remove(name@),
            track.wf(),
            track.full_track_name@ == name@,
            track.relay_track_id == before.tracks@[name@].relay_track_id,
        ensures
            final(self).wf(),
            final(self).track_aliases == before.track_aliases,
            final(self).next_relay_track_id == before.next_relay_track_id,
            final(self).tracks@ == before.tracks@.insert(name@, track),
    {
        self.tracks.insert(name, track);
        proof {
            assert(self.tracks@ =~= before.tracks@.insert(name@, track));
            assert forall|n: TrackName| #[trigger] self.tracks@.contains_key(n) implies {
                &&& self.tracks@[n].wf()
                &&& self.tracks@[n].full_track_name@ == n
                &&& 0 < self.tracks@[n].relay_track_id < self.next_relay_track_id
            } by {
                assert(before.tracks@.contains_key(n));
            }
            assert forall|a: TrackName, b: TrackName|
                #![trigger self.tracks@[a], self.tracks@[b]]
                self.tracks@.contains_key(a) && self.tracks@.contains_key(b)
                    && self.tracks@[a].relay_track_id
                    == self.tracks@[b].relay_track_id implies a == b by {
                assert(before.tracks@.contains_key(a) && before.tracks@.contains_key(b));
                assert(self.tracks@[a].relay_track_id == before.tracks@[a].relay_track_id);
                assert(self.tracks@[b].relay_track_id == before.tracks@[b].relay_track_id);
            }
        }
    }

    /// Notes the alias under which a publisher sends a track.
    pub fn add_track_alias(&mut self, connection_id: usize, track_alias: u64, name: FullTrackName)
        requires
            old(self).wf(),
        ensures
            final(self).wf(),
            final(self).track_aliases@ == old(self).track_aliases@.insert(
                PublisherAlias { connection_id, track_alias },
                name,
            ),
            *final(self) == (TrackManager {
                track_aliases: final(self).track_aliases,
                ..*old(self)
            }),
    {
        self.track_aliases.insert(PublisherAlias { connection_id, track_alias }, name);
    }

    /// Forgets that a publisher sends a track under an alias.
    pub fn remove_publisher_alias(&mut self, connection_id: usize, track_alias: u64)
        requires
            old(self).wf(),
        ensures
            final(self).wf(),
            final(self).track_aliases@ == old(self).track_aliases@.remove(
                PublisherAlias { connection_id, track_alias },
            ),
            *final(self) == (TrackManager {
                track_aliases: final(self).track_aliases,
                ..*old(self)
            }),
    {
        self.track_aliases.remove(&PublisherAlias { connection_id, track_alias });
    }

    /// Removes a track and hands it back.
    pub fn remove_track(&mut self, name: &FullTrackName) -> (r: Option<Track>)
        requires
            old(self).wf(),
        ensures
            final(self).wf(),
            match r {
                Some(t) => old(self).tracks@.contains_key(name@) && old(self).tracks@[name@] == t,
                None => !old(self).tracks@.contains_key(name@),
            },
            final(self).tracks@ == old(self).tracks@.remove(name@),
            *final(self) == (TrackManager { tracks: final(self).tracks, ..*old(self) }),
    {
        let r = self.tracks.remove(name);
        proof {
            assert forall|n: TrackName| #[trigger] self.tracks@.contains_key(n) implies {
                &&& self.tracks@[n].wf()
                &&& self.tracks@[n].full_track_name@ == n
                &&& 0 < self.tracks@[n].relay_track_id < self.next_relay_track_id
            } by {
                assert(old(self).tracks@.contains_key(n));
            }
            assert forall|a: TrackName, b: TrackName|
                #![trigger self.tracks@[a], self.tracks@[b]]
                self.tracks@.contains_key(a) && self.tracks@.contains_key(b)
                    && self.tracks@[a].relay_track_id
                    == self.tracks@[b].relay_track_id implies a == b by {
                assert(old(self).tracks@.contains_key(a) && old(self).tracks@.contains_key(b));
                assert(self.tracks@[a] == old(self).tracks@[a]);
                assert(self.tracks@[b] == old(self).tracks@[b]);
            }
        }
        r
    }
}

impl Track {
    /// A track as it is created for its first subscriber.
    pub open spec fn is_new(&self, relay_track_id: u64, name: TrackName) -> bool {
        &&& self.wf()
        &&& self.relay_track_id == relay_track_id
        &&& self.full_track_name@ == name
        &&& self.subscriptions() == Map::<usize, Subscription>::empty()
        &&& self.publisher_aliases@ == Map::<usize, u64>::empty()
        &&& self.largest_location == (crate::location::Location { group: 0, object: 0 })
        &&& self.status is Pending
        &&& self.pending_subscribers@.len() == 0
        &&& self.track_extensions@.len() == 0
        &&& self.active_subgroup_headers@ == Map::<StreamId, HeaderInfo>::empty()
    }
}

} // verus!
