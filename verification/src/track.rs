//! A track on the relay: who publishes it, who subscribes to it, and what is known of it.
use crate::control::TrackExtension;
use crate::location::Location;
use crate::message::{MessageParameter, RequestErrorCode};
use crate::names::FullTrackName;
use crate::stream_id::{HeaderInfo, StreamId};
use crate::subscription::{Subscription, SubscriptionOrigin};
use crate::subscription;
use crate::subscription_manager::SubscriptionManager;
use crate::table::{Key, Table};
use vstd::prelude::*;

verus! {

/// What the relay reads of an object; the payload stays with whoever holds the object.
#[derive(Debug, Clone, Copy, PartialEq, Eq, Structural)]
pub struct Object {
    pub track_alias: u64,
    pub location: Location,
    pub publisher_priority: u8,
    pub subgroup_id: Option<u64>,
}

/// What happens on a track, as its subscriptions are told.
#[derive(Debug)]
pub enum TrackEvent {
    SubgroupObject { stream_id: StreamId, object: Object, header_info: Option<HeaderInfo> },
    Datagram { object: Object },
    StreamClosed { stream_id: StreamId },
    PublisherDisconnected { reason: String },
}

/// Lifecycle status of a track on the relay.
#[derive(Debug)]
pub enum TrackStatus {
    /// Track created, subscribe forwarded to publisher, awaiting response.
    Pending,
    /// Publisher confirmed the subscription.
    Confirmed { subscribe_parameters: Vec<MessageParameter> },
    /// Publisher rejected the subscription.
    Rejected { error_code: RequestErrorCode, reason_phrase: String },
}

/// A subscriber that already has a subscription to the track.
#[derive(Debug, Clone, Copy, PartialEq, Eq, Structural)]
pub struct SubscriptionExists;

pub struct Track {
    /// Stable relay-assigned track identifier, independent of publisher aliases.
    pub relay_track_id: u64,
    pub full_track_name: FullTrackName,
    pub subscription_manager: SubscriptionManager,
    /// Maps a publisher's connection to the alias under which it publishes the track.
    pub publisher_aliases: Table<usize, u64>,
    pub largest_location: Location,
    pub status: TrackStatus,
    /// Subscribers waiting for the track to be confirmed: request and connection.
    pub pending_subscribers: Vec<(u64, usize)>,
    /// The extensions that came last with the track.
    pub track_extensions: Vec<TrackExtension>,
    /// The publisher's open subgroup streams, each with the header that opened it.
    pub active_subgroup_headers: Table<StreamId, HeaderInfo>,
}

impl Track {
    pub open spec fn wf(&self) -> bool {
        &&& self.subscription_manager.wf()
        &&& self.subscription_manager.relay_track_id == self.relay_track_id
        &&& self.subscription_manager.full_track_name@ == self.full_track_name@
        &&& self.publisher_aliases.wf()
        &&& self.active_subgroup_headers.wf()
    }

    /// The subscriptions by connection.
    pub open spec fn subscriptions(&self) -> Map<usize, Subscription> {
        self.subscription_manager.subscriptions@
    }

    pub fn new(
        relay_track_id: u64,
        full_track_name: FullTrackName,
        initial_status: TrackStatus,
    ) -> (t: Self)
        ensures
            t.wf(),
            t.relay_track_id == relay_track_id,
            t.full_track_name@ == full_track_name@,
            t.subscriptions() == Map::<usize, Subscription>::empty(),
            t.publisher_aliases@ == Map::<usize, u64>::empty(),
            t.largest_location == (Location { group: 0, object: 0 }),
            t.status == initial_status,
            t.pending_subscribers@.len() == 0,
            t.track_extensions@.len() == 0,
            t.active_subgroup_headers@ == Map::<StreamId, HeaderInfo>::empty(),
    {
        Track {
            relay_track_id,
            full_track_name: full_track_name.copy(),
            subscription_manager: SubscriptionManager::new(relay_track_id, full_track_name),
            publisher_aliases: Table::new(),
            largest_location: Location::new(0, 0),
            status: initial_status,
            pending_subscribers: Vec::new(),
            track_extensions: Vec::new(),
            active_subgroup_headers: Table::new(),
        }
    }

    /// Adds a publisher, or changes the alias of one.
    pub fn add_publisher(&mut self, connection_id: usize, track_alias: u64)
        requires
            old(self).wf(),
        ensures
            final(self).wf(),
            final(self).publisher_aliases@ == old(self).publisher_aliases@.insert(
                connection_id,
                track_alias,
            ),
            *final(self) == (Track {
                publisher_aliases: final(self).publisher_aliases,
                ..*old(self)
            }),
    {
        self.publisher_aliases.insert(connection_id, track_alias);
    }

    /// Removes a publisher. Gives back its alias, if it had one, and the event that tells the
    /// subscribers that the last publisher is gone, if it was the last.
    pub fn remove_publisher(&mut self, connection_id: usize) -> (r: (
        Option<u64>,
        Option<TrackEvent>,
    ))
        requires
            old(self).wf(),
        ensures
            final(self).wf(),
            final(self).publisher_aliases@ == old(self).publisher_aliases@.remove(connection_id),
            *final(self) == (Track {
                publisher_aliases: final(self).publisher_aliases,
                ..*old(self)
            }),
            r.0 == (if old(self).publisher_aliases@.contains_key(connection_id) {
                Some(old(self).publisher_aliases@[connection_id])
            } else {
                None
            }),
            r.1 is Some <==> r.0 is Some && final(self).publisher_aliases@ == Map::<
                usize,
                u64,
            >::empty(),
            r.1 matches Some(e) ==> e matches TrackEvent::PublisherDisconnected { reason }
                && reason@ == "Publisher disconnected"@,
    {
        let removed = self.publisher_aliases.remove(&connection_id);
        if removed.is_some() && !self.has_publishers() {
            let event = self.notify_publisher_disconnected();
            (removed, Some(event))
        } else {
            (removed, None)
        }
    }

    /// Returns true if there is at least one active publisher for this track.
    pub fn has_publishers(&self) -> (b: bool)
        requires
            self.wf(),
        ensures
            b == (self.publisher_aliases@ != Map::<usize, u64>::empty()),
    {
        !self.publisher_aliases.is_empty()
    }

    /// The publisher has confirmed the track: its alias, parameters and extensions hold from now
    /// on.
    pub fn confirm(
        &mut self,
        publisher_connection_id: usize,
        publisher_track_alias: u64,
        subscribe_parameters: Vec<MessageParameter>,
        extensions: Vec<TrackExtension>,
    )
        requires
            old(self).wf(),
        ensures
            final(self).wf(),
            final(self).publisher_aliases@ == old(self).publisher_aliases@.insert(
                publisher_connection_id,
                publisher_track_alias,
            ),
            *final(self) == (Track {
                publisher_aliases: final(self).publisher_aliases,
                status: TrackStatus::Confirmed { subscribe_parameters },
                track_extensions: extensions,
                ..*old(self)
            }),
    {
        self.publisher_aliases.insert(publisher_connection_id, publisher_track_alias);
        self.status = TrackStatus::Confirmed { subscribe_parameters };
        self.track_extensions = extensions;
    }

    /// The most recent set of extensions replaces any previous one.
    pub fn set_track_extensions(&mut self, extensions: Vec<TrackExtension>)
        ensures
            *final(self) == (Track { track_extensions: extensions, ..*old(self) }),
    {
        self.track_extensions = extensions;
    }

    /// The publisher has rejected the track.
    pub fn reject(&mut self, error_code: RequestErrorCode, reason_phrase: String)
        ensures
            *final(self) == (Track {
                status: TrackStatus::Rejected { error_code, reason_phrase },
                ..*old(self)
            }),
    {
        self.status = TrackStatus::Rejected { error_code, reason_phrase };
    }

    pub fn get_status(&self) -> (s: &TrackStatus)
        ensures
            *s == self.status,
    {
        &self.status
    }

    /// Adds a subscription. A subscriber that has one already is refused; where the request is
    /// a switch, its subscription is told to look at the switch context.
    pub fn add_subscription(
        &mut self,
        subscriber: usize,
        origin_message: SubscriptionOrigin,
        is_switch: bool,
    ) -> (r: Result<(), SubscriptionExists>)
        requires
            old(self).wf(),
        ensures
            final(self).wf(),
            r is Err <==> old(self).subscriptions().contains_key(subscriber),
            *final(self) == (Track {
                subscription_manager: final(self).subscription_manager,
                ..*old(self)
            }),
            r is Err ==> final(self).subscriptions() == if is_switch {
                old(self).subscriptions().insert(
                    subscriber,
                    Subscription {
                        check_switch_context_on_next_object: true,
                        ..old(self).subscriptions()[subscriber]
                    },
                )
            } else {
                old(self).subscriptions()
            },
            r is Ok ==> final(self).subscriptions() == old(self).subscriptions().insert(
                subscriber,
                final(self).subscriptions()[subscriber],
            ) && {
                let s = final(self).subscriptions()[subscriber];
                &&& s.request_id == origin_message.id()
                &&& s.subscription_state == subscription::initial_state(origin_message.parameters())
                &&& s.send_stream_last_object_ids@ == Map::<StreamId, Option<u64>>::empty()
                &&& !s.finished
                &&& s.check_switch_context_on_next_object == is_switch
                &&& s.pending_header is None
            },
    {
        if self.subscription_manager.get_subscription(subscriber).is_some() {
            if is_switch {
                self.notify_switch(subscriber);
            }
            return Err(SubscriptionExists);
        }
        match self.subscription_manager.add_subscription(subscriber, origin_message) {
            Ok(()) => {},
            Err(_) => {
                return Err(SubscriptionExists);
            },
        }
        if is_switch {
            self.notify_switch(subscriber);
        }
        Ok(())
    }

    fn notify_switch(&mut self, subscriber: usize)
        requires
            old(self).wf(),
            old(self).subscriptions().contains_key(subscriber),
        ensures
            final(self).wf(),
            *final(self) == (Track {
                subscription_manager: final(self).subscription_manager,
                ..*old(self)
            }),
            final(self).subscriptions() == old(self).subscriptions().insert(
                subscriber,
                Subscription {
                    check_switch_context_on_next_object: true,
                    ..old(self).subscriptions()[subscriber]
                },
            ),
    {
        let ghost before = self.subscription_manager;
        if let Some(s) = self.subscription_manager.subscriptions.remove(&subscriber) {
            let mut s = s;
            s.notify_switch();
            self.subscription_manager.put_back(Ghost(before), subscriber, s);
        }
    }

    /// The subscription of a client, by its connection.
    pub fn get_subscription(&self, subscriber_id: usize) -> (r: Option<&Subscription>)
        requires
            self.wf(),
        ensures
            match r {
                Some(s) => self.subscriptions().contains_key(subscriber_id)
                    && self.subscriptions()[subscriber_id] == *s,
                None => !self.subscriptions().contains_key(subscriber_id),
            },
    {
        self.subscription_manager.get_subscription(subscriber_id)
    }

    /// Ends and removes the subscription of a client, and hands back the streams to close.
    pub fn remove_subscription(&mut self, subscriber_id: usize) -> (streams: Vec<StreamId>)
        requires
            old(self).wf(),
        ensures
            final(self).wf(),
            *final(self) == (Track {
                subscription_manager: final(self).subscription_manager,
                ..*old(self)
            }),
            final(self).subscriptions() == old(self).subscriptions().remove(subscriber_id),
            streams@.no_duplicates(),
            forall|id: StreamId| #[trigger]
                streams@.contains(id) <==> old(self).subscriptions().contains_key(subscriber_id)
                    && !old(self).subscriptions()[subscriber_id].finished
                    && old(self).subscriptions()[subscriber_id].send_stream_last_object_ids@.contains_key(
                id),
    {
        self.subscription_manager.remove_subscription(subscriber_id)
    }

    fn note_location(&mut self, location: Location)
        ensures
            *final(self) == (Track {
                largest_location: old(self).largest_location.later(location),
                ..*old(self)
            }),
    {
        if self.largest_location.is_before(&location) {
            self.largest_location = location;
        }
    }

    /// Takes in an object that came on a stream, and gives the event for the subscribers. A
    /// header that came with it is kept while the stream is open.
    pub fn new_subgroup_object(
        &mut self,
        stream_id: StreamId,
        object: Object,
        header_info: Option<HeaderInfo>,
    ) -> (event: TrackEvent)
        requires
            old(self).wf(),
        ensures
            final(self).wf(),
            event == (TrackEvent::SubgroupObject { stream_id, object, header_info }),
            *final(self) == (Track {
                largest_location: old(self).largest_location.later(object.location),
                active_subgroup_headers: final(self).active_subgroup_headers,
                ..*old(self)
            }),
            final(self).active_subgroup_headers@ == (match header_info {
                Some(h) => old(self).active_subgroup_headers@.insert(stream_id, h),
                None => old(self).active_subgroup_headers@,
            }),
    {
        if let Some(h) = header_info {
            self.active_subgroup_headers.insert(stream_id, h);
        }
        self.note_location(object.location);
        TrackEvent::SubgroupObject { stream_id, object, header_info }
    }

    /// Takes in an object that came as a datagram, and gives the event for the subscribers.
    pub fn new_datagram(&mut self, object: Object) -> (event: TrackEvent)
        ensures
            event == (TrackEvent::Datagram { object }),
            *final(self) == (Track {
                largest_location: old(self).largest_location.later(object.location),
                ..*old(self)
            }),
    {
        self.note_location(object.location);
        TrackEvent::Datagram { object }
    }

    /// The publisher has ended a stream; gives the event for the subscribers.
    pub fn stream_closed(&mut self, stream_id: StreamId) -> (event: TrackEvent)
        requires
            old(self).wf(),
        ensures
            final(self).wf(),
            event == (TrackEvent::StreamClosed { stream_id }),
            final(self).active_subgroup_headers@ == old(self).active_subgroup_headers@.remove(
                stream_id,
            ),
            *final(self) == (Track {
                active_subgroup_headers: final(self).active_subgroup_headers,
                ..*old(self)
            }),
    {
        self.active_subgroup_headers.remove(&stream_id);
        TrackEvent::StreamClosed { stream_id }
    }

    /// The event that tells the subscribers that no publisher is left.
    pub fn notify_publisher_disconnected(&self) -> (event: TrackEvent)
        ensures
            event matches TrackEvent::PublisherDisconnected { reason } && reason@
                == "Publisher disconnected"@,
    {
        TrackEvent::PublisherDisconnected { reason: "Publisher disconnected".to_owned() }
    }
}

/// The largest position of a track never falls back, and covers every object that came.
pub proof fn law_largest_location_covers_objects(largest: Location, l: Location)
    ensures
        !largest.later(l).before(largest),
        !largest.later(l).before(l),
        largest.later(l) == largest || largest.later(l) == l,
{
}

} // verus!
