//! How the events of a track reach one client.
use crate::client::MOQTClient;
use crate::location::Location;
use crate::location;
use crate::names::{FullTrackName, TrackName};
use crate::stream_id::{HeaderInfo, StreamId};
use crate::subscription::{CurrentTrack, Subscription, SubscriptionState, TrackAction};
use crate::subscription;
use crate::switch_context::SwitchStatus;
use crate::switch_context;
use crate::track::{Object, Track, TrackEvent};
use crate::track_manager::TrackManager;
use vstd::prelude::*;

verus! {

/// The subscription that a client has to a track. One to a track that is gone is gone with it,
/// though a new track of the same name may have come.
pub open spec fn live_subscription(
    client: MOQTClient,
    tracks: TrackManager,
    name: TrackName,
) -> Option<Subscription> {
    if client.subscriptions@.contains_key(name) && tracks.tracks@.contains_key(name)
        && tracks.tracks@[name].relay_track_id == client.subscriptions@[name]
        && tracks.tracks@[name].subscriptions().contains_key(client.connection_id) {
        Some(tracks.tracks@[name].subscriptions()[client.connection_id])
    } else {
        None
    }
}

pub fn get_live_subscription<'a>(
    client: &MOQTClient,
    tracks: &'a TrackManager,
    name: &FullTrackName,
) -> (r: Option<&'a Subscription>)
    requires
        client.wf(),
        tracks.wf(),
    ensures
        match r {
            Some(s) => live_subscription(*client, *tracks, name@) == Some(*s) && s.wf(),
            None => live_subscription(*client, *tracks, name@) is None,
        },
{
    let id: u64 = match client.subscriptions.get(name) {
        Some(id) => *id,
        None => {
            return None;
        },
    };
    match tracks.get_track(name) {
        Some(t) => {
            if t.relay_track_id != id {
                return None;
            }
            t.get_subscription(client.connection_id)
        },
        None => None,
    }
}

/// The track that plays for a client.
pub open spec fn playing(client: MOQTClient) -> Option<TrackName> {
    if exists|n: TrackName| #[trigger]
        client.switch_context@.contains_key(n) && client.switch_context@[n] is Current {
        Some(
            choose|n: TrackName| #[trigger]
                client.switch_context@.contains_key(n) && client.switch_context@[n] is Current,
        )
    } else {
        None
    }
}

/// What a track that waits to take over needs to know of the track that plays.
pub open spec fn current_of(client: MOQTClient, tracks: TrackManager) -> CurrentTrack {
    match playing(client) {
        None => CurrentTrack::Nothing,
        Some(n) => match live_subscription(client, tracks, n) {
            None => CurrentTrack::Gone,
            Some(s) => CurrentTrack::Live {
                last_sent_max_location: s.subscription_state.last_sent_max_location,
            },
        },
    }
}

pub fn current_track(client: &MOQTClient, tracks: &TrackManager) -> (c: CurrentTrack)
    requires
        client.wf(),
        tracks.wf(),
    ensures
        c == current_of(*client, *tracks),
        c matches CurrentTrack::Live { last_sent_max_location: Some(m) } ==> m.group < u64::MAX,
{
    match client.switch_context.get_current() {
        None => CurrentTrack::Nothing,
        Some(name) => {
            proof {
                let n = choose|n: TrackName| #[trigger]
                    client.switch_context@.contains_key(n) && client.switch_context@[n] is Current;
                assert(client.switch_context@.contains_key(name@));
                assert(n == name@);
            }
            match get_live_subscription(client, tracks, &name) {
                None => CurrentTrack::Gone,
                Some(s) => CurrentTrack::Live {
                    last_sent_max_location: s.subscription_state.last_sent_max_location,
                },
            }
        },
    }
}

/// Whether an event can be handled: groups leave room for a next one.
pub open spec fn has_next_group(event: TrackEvent) -> bool {
    event matches TrackEvent::SubgroupObject { object, .. } ==> object.location.group < u64::MAX
}

/// Everything but one client's subscription to one track is as it was.
pub open spec fn only_subscription_changed(
    old_tracks: TrackManager,
    tracks: TrackManager,
    name: TrackName,
    connection_id: usize,
) -> bool {
    let t0 = old_tracks.tracks@[name];
    let t = tracks.tracks@[name];
    &&& tracks.tracks@ == old_tracks.tracks@.insert(name, t)
    &&& tracks.track_aliases == old_tracks.track_aliases
    &&& tracks.next_relay_track_id == old_tracks.next_relay_track_id
    &&& t == (Track { subscription_manager: t.subscription_manager, ..t0 })
    &&& t.subscriptions() == t0.subscriptions().insert(
        connection_id,
        t.subscriptions()[connection_id],
    )
}

/// Hands an event of a track to the subscription of a client, and says what is to be done about
/// it. Nothing is, where the client has no subscription to the track.
pub fn forward_event(
    client: &mut MOQTClient,
    tracks: &mut TrackManager,
    name: &FullTrackName,
    event: &TrackEvent,
) -> (r: Option<TrackAction>)
    requires
        old(client).wf(),
        old(tracks).wf(),
        has_next_group(*event),
    ensures
        final(client).wf(),
        final(tracks).wf(),
        ({
            let c = old(client).connection_id;
            let subscribed = old(tracks).tracks@.contains_key(name@)
                && old(tracks).tracks@[name@].subscriptions().contains_key(c);
            &&& r is Some <==> subscribed
            &&& !subscribed ==> *final(client) == *old(client) && *final(tracks) == *old(tracks)
            &&& subscribed ==> {
                let t0 = old(tracks).tracks@[name@];
                let s0 = t0.subscriptions()[c];
                let s = final(tracks).tracks@[name@].subscriptions()[c];
                let current = current_of(*old(client), *old(tracks));
                let status = subscription::status_in(old(client).switch_context@, name@);
                &&& only_subscription_changed(*old(tracks), *final(tracks), name@, c)
                &&& *final(client) == (MOQTClient {
                    switch_context: final(client).switch_context,
                    ..*old(client)
                })
                &&& *event matches TrackEvent::SubgroupObject { stream_id, object, header_info } ==> {
                    let l = object.location;
                    let cached = if t0.active_subgroup_headers@.contains_key(stream_id) {
                        Some(t0.active_subgroup_headers@[stream_id])
                    } else {
                        None
                    };
                    &&& s == subscription::after_object(
                        s0,
                        status,
                        current,
                        stream_id,
                        l,
                        header_info,
                    )
                    &&& r == Some(
                        TrackAction::Object(
                            if subscription::forwards_object(s0, status, current, l, header_info) {
                                subscription::sending(
                                    s0,
                                    header_info,
                                    old(client).stream(stream_id) is Some,
                                    cached,
                                )
                            } else {
                                subscription::ObjectAction::Withheld
                            },
                        ),
                    )
                    &&& final(client).switch_context@ == if subscription::asks_switch_context(
                        s0,
                        header_info,
                    ) && subscription::switch_verdict(status, current, l) is TakeOver {
                        switch_context::with_status(
                            old(client).switch_context@,
                            name@,
                            SwitchStatus::Current,
                        )
                    } else {
                        old(client).switch_context@
                    }
                }
                &&& !(event is SubgroupObject) ==> final(client).switch_context@ == old(client).switch_context@
                &&& event is Datagram ==> s == s0 && r == Some(
                    TrackAction::Datagram { track_alias: t0.relay_track_id },
                )
                &&& *event matches TrackEvent::StreamClosed { stream_id } ==> {
                    &&& r == Some(TrackAction::CloseStream { stream_id })
                    &&& s.send_stream_last_object_ids@ == s0.send_stream_last_object_ids@.remove(
                        stream_id,
                    )
                    &&& s == (Subscription {
                        send_stream_last_object_ids: s.send_stream_last_object_ids,
                        ..s0
                    })
                }
                &&& *event matches TrackEvent::PublisherDisconnected { reason } ==> {
                    &&& s.finished
                    &&& s0.finished ==> s == s0
                    &&& !s0.finished ==> {
                        &&& s.send_stream_last_object_ids@ == Map::<StreamId, Option<u64>>::empty()
                        &&& s == (Subscription {
                            finished: true,
                            send_stream_last_object_ids: s.send_stream_last_object_ids,
                            ..s0
                        })
                    }
                    &&& r matches Some(TrackAction::Done { message, streams }) && {
                        &&& message matches Some(m) ==> m@ == (crate::control::ControlView::PublishDone {
                            request_id: s0.request_id,
                            status_code: crate::message::PublishDoneStatusCode::TrackEnded,
                            stream_count: 0,
                            reason: reason@,
                        })
                        &&& message is None <==> vstd::utf8::encode_utf8(reason@).len()
                            > subscription::MAX_REASON_PHRASE_LEN
                        &&& streams@.no_duplicates()
                        &&& forall|id: StreamId| #[trigger]
                            streams@.contains(id) <==> !s0.finished
                                && s0.send_stream_last_object_ids@.contains_key(id)
                    }
                }
            }
        }),
{
    let connection_id: usize = client.connection_id;
    let mut cached: Option<HeaderInfo> = None;
    let mut has_stream = false;
    match tracks.get_track(name) {
        None => {
            return None;
        },
        Some(track) => {
            if track.get_subscription(connection_id).is_none() {
                return None;
            }
            if let TrackEvent::SubgroupObject { stream_id, .. } = event {
                cached = match track.active_subgroup_headers.get(stream_id) {
                    Some(h) => Some(*h),
                    None => None,
                };
                has_stream = client.get_stream(stream_id).is_some();
            }
        },
    }
    let current = current_track(client, tracks);
    let ghost before = *tracks;
    if let Some(track) = tracks.take(name) {
        let mut track = track;
        let ghost m0 = track.subscription_manager;
        if let Some(s) = track.subscription_manager.subscriptions.remove(&connection_id) {
            let mut s = s;
            let action = s.handle_track_event(
                &mut client.switch_context,
                current,
                has_stream,
                cached,
                event,
            );
            track.subscription_manager.put_back(Ghost(m0), connection_id, s);
            tracks.put_back(Ghost(before), name.copy(), track);
            return Some(action);
        }
    }
    None
}

/// Notes that a stream was opened for a client's subscription.
pub fn stream_opened(
    tracks: &mut TrackManager,
    name: &FullTrackName,
    connection_id: usize,
    stream_id: StreamId,
)
    requires
        old(tracks).wf(),
    ensures
        final(tracks).wf(),
        if old(tracks).tracks@.contains_key(name@)
            && old(tracks).tracks@[name@].subscriptions().contains_key(connection_id) {
            let s0 = old(tracks).tracks@[name@].subscriptions()[connection_id];
            let s = final(tracks).tracks@[name@].subscriptions()[connection_id];
            &&& only_subscription_changed(*old(tracks), *final(tracks), name@, connection_id)
            &&& s.send_stream_last_object_ids@ == s0.send_stream_last_object_ids@.insert(
                stream_id,
                None,
            )
            &&& s == (Subscription {
                send_stream_last_object_ids: s.send_stream_last_object_ids,
                ..s0
            })
        } else {
            *final(tracks) == *old(tracks)
        },
{
    if !has_subscription(tracks, name, connection_id) {
        return;
    }
    let ghost before = *tracks;
    if let Some(track) = tracks.take(name) {
        let mut track = track;
        let ghost m0 = track.subscription_manager;
        if let Some(s) = track.subscription_manager.subscriptions.remove(&connection_id) {
            let mut s = s;
            s.stream_opened(stream_id);
            track.subscription_manager.put_back(Ghost(m0), connection_id, s);
            tracks.put_back(Ghost(before), name.copy(), track);
        }
    }
}

/// Notes that an object was sent on a stream of a client's subscription.
pub fn object_sent(
    tracks: &mut TrackManager,
    name: &FullTrackName,
    connection_id: usize,
    stream_id: StreamId,
    location: Location,
)
    requires
        old(tracks).wf(),
        location.group < u64::MAX,
    ensures
        final(tracks).wf(),
        if old(tracks).tracks@.contains_key(name@)
            && old(tracks).tracks@[name@].subscriptions().contains_key(connection_id) {
            let s0 = old(tracks).tracks@[name@].subscriptions()[connection_id];
            let s = final(tracks).tracks@[name@].subscriptions()[connection_id];
            &&& only_subscription_changed(*old(tracks), *final(tracks), name@, connection_id)
            &&& s.send_stream_last_object_ids@ == s0.send_stream_last_object_ids@.insert(
                stream_id,
                Some(location.object),
            )
            &&& s == (Subscription {
                send_stream_last_object_ids: s.send_stream_last_object_ids,
                subscription_state: SubscriptionState {
                    last_sent_max_location: location::raise(
                        s0.subscription_state.last_sent_max_location,
                        location,
                    ),
                    ..s0.subscription_state
                },
                ..s0
            })
        } else {
            *final(tracks) == *old(tracks)
        },
{
    if !has_subscription(tracks, name, connection_id) {
        return;
    }
    let ghost before = *tracks;
    if let Some(track) = tracks.take(name) {
        let mut track = track;
        let ghost m0 = track.subscription_manager;
        if let Some(s) = track.subscription_manager.subscriptions.remove(&connection_id) {
            let mut s = s;
            s.object_sent(stream_id, location);
            track.subscription_manager.put_back(Ghost(m0), connection_id, s);
            tracks.put_back(Ghost(before), name.copy(), track);
        }
    }
}

/// Ends the joining of a client's subscription.
pub fn end_joining(tracks: &mut TrackManager, name: &FullTrackName, connection_id: usize)
    requires
        old(tracks).wf(),
    ensures
        final(tracks).wf(),
        if old(tracks).tracks@.contains_key(name@)
            && old(tracks).tracks@[name@].subscriptions().contains_key(connection_id) {
            let s0 = old(tracks).tracks@[name@].subscriptions()[connection_id];
            let s = final(tracks).tracks@[name@].subscriptions()[connection_id];
            &&& only_subscription_changed(*old(tracks), *final(tracks), name@, connection_id)
            &&& s == (Subscription {
                subscription_state: SubscriptionState {
                    is_joining: false,
                    ..s0.subscription_state
                },
                ..s0
            })
        } else {
            *final(tracks) == *old(tracks)
        },
{
    if !has_subscription(tracks, name, connection_id) {
        return;
    }
    let ghost before = *tracks;
    if let Some(track) = tracks.take(name) {
        let mut track = track;
        let ghost m0 = track.subscription_manager;
        if let Some(s) = track.subscription_manager.subscriptions.remove(&connection_id) {
            let mut s = s;
            s.end_joining();
            track.subscription_manager.put_back(Ghost(m0), connection_id, s);
            tracks.put_back(Ghost(before), name.copy(), track);
        }
    }
}

fn has_subscription(tracks: &TrackManager, name: &FullTrackName, connection_id: usize) -> (b: bool)
    requires
        tracks.wf(),
    ensures
        b == (tracks.tracks@.contains_key(name@)
            && tracks.tracks@[name@].subscriptions().contains_key(connection_id)),
{
    match tracks.get_track(name) {
        Some(t) => t.get_subscription(connection_id).is_some(),
        None => false,
    }
}

/// A client's subscription to a track is alive exactly where both the client and the track that now
/// has the name know of it: one to a track that has gone is dead, though a track of the same name
/// may have come since.
pub proof fn law_subscriptions_die_with_their_track(
    client: MOQTClient,
    tracks: TrackManager,
    name: TrackName,
)
    ensures
        live_subscription(client, tracks, name) matches Some(s) ==> {
            &&& tracks.tracks@.contains_key(name)
            &&& client.subscriptions@.contains_key(name)
            &&& client.subscriptions@[name] == tracks.tracks@[name].relay_track_id
            &&& tracks.tracks@[name].subscriptions().contains_key(client.connection_id)
            &&& s == tracks.tracks@[name].subscriptions()[client.connection_id]
        },
        tracks.tracks@.contains_key(name) && client.subscriptions@.contains_key(name)
            && client.subscriptions@[name] == tracks.tracks@[name].relay_track_id
            && tracks.tracks@[name].subscriptions().contains_key(client.connection_id)
            ==> live_subscription(client, tracks, name) is Some,
{
}

/// A track that waits is held against the one track that plays: there is none, or its subscription
/// is dead, or what counts is the furthest position sent of it.
pub proof fn law_the_track_that_plays_is_looked_at(
    client: MOQTClient,
    tracks: TrackManager,
    name: TrackName,
)
    requires
        client.switch_context.wf(),
    ensures
        client.switch_context@.contains_key(name) && client.switch_context@[name] is Current ==> {
            &&& playing(client) == Some(name)
            &&& current_of(client, tracks) is Gone <==> live_subscription(client, tracks, name)
                is None
            &&& live_subscription(client, tracks, name) matches Some(s) ==> current_of(client, tracks)
                == (CurrentTrack::Live {
                last_sent_max_location: s.subscription_state.last_sent_max_location,
            })
        },
        (forall|n: TrackName| #[trigger]
            client.switch_context@.contains_key(n) ==> !(client.switch_context@[n] is Current))
            ==> playing(client) is None && current_of(client, tracks) is Nothing,
        playing(client) matches Some(n) ==> client.switch_context@.contains_key(n)
            && client.switch_context@[n] is Current,
{
    if client.switch_context@.contains_key(name) && client.switch_context@[name] is Current {
        let n = choose|n: TrackName| #[trigger]
            client.switch_context@.contains_key(n) && client.switch_context@[n] is Current;
        assert(client.switch_context@.contains_key(n) && client.switch_context@[n] is Current);
        assert(n == name);
    }
}

/// What changes one client's subscription to one track touches no other client and no other track.
pub proof fn law_one_subscription_changes_alone(
    old_tracks: TrackManager,
    tracks: TrackManager,
    name: TrackName,
    connection_id: usize,
    other: TrackName,
    neighbour: usize,
)
    requires
        only_subscription_changed(old_tracks, tracks, name, connection_id),
        old_tracks.tracks@.contains_key(name),
        old_tracks.tracks@[name].subscriptions().contains_key(connection_id),
        other != name,
        neighbour != connection_id,
    ensures
        tracks.tracks@.dom() == old_tracks.tracks@.dom(),
        old_tracks.tracks@.contains_key(other) ==> tracks.tracks@[other]
            == old_tracks.tracks@[other],
        tracks.track_aliases == old_tracks.track_aliases,
        ({
            let t0 = old_tracks.tracks@[name];
            let t = tracks.tracks@[name];
            &&& t.subscriptions().dom() == t0.subscriptions().dom()
            &&& t0.subscriptions().contains_key(neighbour) ==> t.subscriptions()[neighbour]
                == t0.subscriptions()[neighbour]
            &&& t.relay_track_id == t0.relay_track_id
            &&& t.largest_location == t0.largest_location
            &&& t.status == t0.status
            &&& t.publisher_aliases == t0.publisher_aliases
            &&& t.active_subgroup_headers == t0.active_subgroup_headers
        }),
{
    assert(tracks.tracks@.dom() =~= old_tracks.tracks@.dom());
    let t0 = old_tracks.tracks@[name];
    let t = tracks.tracks@[name];
    assert(t.subscriptions().dom() =~= t0.subscriptions().dom());
}

} // verus!
