//! How the relay handles the messages that concern subscriptions.
use crate::client::MOQTClient;
use crate::control::{
    copy_extensions, ControlMessage, ControlView, RequestError, RequestUpdate, Subscribe,
    SubscribeOk, SubscribeOkView, SubscribeRequest, SubscribeRequestView, SubscribeView, Switch,
};
use crate::control;
use crate::forwarding::get_live_subscription;
use crate::forwarding;
use crate::location::Location;
use crate::message::{
    apply_message_parameter_update, copy_params, copy_without, set_param, MessageParameter,
    MessageParameterType, RequestErrorCode, TerminationCode,
};
use crate::message;
use crate::names::{FullTrackName, TrackName};
use crate::pairs::read_parameters;
use crate::pairs;
use crate::session_context::{PendingRequest, PendingView, RequestMaps, SessionContext};
use crate::session_context;
use crate::stream_id::{HeaderInfo, StreamId};
use crate::subscription::{Subscription, SubscriptionOrigin};
use crate::subscription;
use crate::switch_context::SwitchStatus;
use crate::switch_context;
use crate::track::{Track, TrackStatus};
use crate::track_manager::{PublisherAlias, TrackManager};
use vstd::prelude::*;

verus! {

/// What the handling of a subscribe request asks for.
#[derive(Debug)]
pub struct SubscribeOutcome {
    /// The answer to send on the client's control stream.
    pub reply: Option<ControlMessage>,
    /// The message to queue for the publisher.
    pub to_publisher: Option<ControlMessage>,
    /// The publisher, which gains the client as a subscriber. None where there is none: the
    /// request is then not kept.
    pub publisher: Option<usize>,
}

/// What deliveries say, and to whom.
pub open spec fn said(ds: Seq<(usize, ControlMessage)>) -> Seq<(usize, ControlView)> {
    Seq::new(ds.len(), |i: int| (ds[i].0, ds[i].1@))
}

/// The answers to subscribers that waited, in the order in which they came; those that have left
/// get none.
pub open spec fn answers(
    waiting: Seq<(u64, usize)>,
    connected: Seq<usize>,
    answer: spec_fn(u64) -> ControlView,
) -> Seq<(usize, ControlView)>
    decreases waiting.len(),
{
    if waiting.len() == 0 {
        Seq::empty()
    } else {
        let before = answers(waiting.drop_last(), connected, answer);
        let w = waiting.last();
        if connected.contains(w.1) {
            before.push((w.1, answer(w.0)))
        } else {
            before
        }
    }
}

/// The acceptance of a subscription.
pub open spec fn acceptance(
    relay_track_id: u64,
    parameters: Seq<MessageParameter>,
    extensions: Seq<control::TrackExtension>,
) -> spec_fn(u64) -> ControlView {
    |request_id: u64|
        ControlView::SubscribeOk(
            SubscribeOkView { request_id, track_alias: relay_track_id, parameters, extensions },
        )
}

/// The rejection of a subscription.
pub open spec fn rejection(code: RequestErrorCode, reason: Seq<char>) -> spec_fn(u64) -> ControlView {
    |request_id: u64| control::refusal(request_id, code, reason)
}

fn is_connected(connected: &Vec<usize>, id: usize) -> (b: bool)
    ensures
        b == connected@.contains(id),
{
    let mut i: usize = 0;
    while i < connected.len()
        invariant
            i <= connected@.len(),
            forall|j: int| 0 <= j < i ==> connected@[j] != id,
        decreases connected@.len() - i,
    {
        if connected[i] == id {
            return true;
        }
        i = i + 1;
    }
    false
}

/// The parameters of the request that the relay sends to the publisher: it asks for objects,
/// whatever the first subscriber asked for.
pub open spec fn forwarded_parameters(ps: Seq<MessageParameter>) -> Seq<MessageParameter> {
    message::without(ps, MessageParameterType::Forward).push(
        MessageParameter::Forward { forward: true },
    )
}

/// The answer to a subscriber of a track whose publisher has answered already.
pub open spec fn known_answer(t: Track, request_id: u64) -> Option<ControlView> {
    match t.status {
        TrackStatus::Pending => None,
        TrackStatus::Confirmed { subscribe_parameters } => Some(
            (acceptance(
                t.relay_track_id,
                subscribe_parameters@.push(
                    MessageParameter::LargestObject { location: t.largest_location },
                ),
                t.track_extensions@,
            ))(request_id),
        ),
        TrackStatus::Rejected { error_code, reason_phrase } => Some(
            (rejection(error_code, reason_phrase@))(request_id),
        ),
    }
}

/// What a subscription in `before` makes of the subscriptions of a track.
pub open spec fn joined(
    before: Map<usize, Subscription>,
    after: Map<usize, Subscription>,
    connection_id: usize,
    request_id: u64,
    parameters: Seq<MessageParameter>,
    is_switch: bool,
) -> bool {
    if before.contains_key(connection_id) {
        after == if is_switch {
            before.insert(
                connection_id,
                Subscription {
                    check_switch_context_on_next_object: true,
                    ..before[connection_id]
                },
            )
        } else {
            before
        }
    } else {
        let s = after[connection_id];
        &&& after == before.insert(connection_id, s)
        &&& s.request_id == request_id
        &&& s.subscription_state.subscribe_parameters@ == parameters
        &&& s.subscription_state == subscription::initial_state(
            s.subscription_state.subscribe_parameters,
        )
        &&& s.send_stream_last_object_ids@ == Map::<StreamId, Option<u64>>::empty()
        &&& !s.finished
        &&& s.check_switch_context_on_next_object == is_switch
        &&& s.pending_header is None
    }
}

/// A subscribe request as the relay keeps it while its publisher has not answered.
pub open spec fn forwarded_request(sub: SubscribeView, connection_id: usize, relay_id: u64) -> PendingView {
    PendingView::Subscribe(
        SubscribeRequestView {
            original_request_id: sub.request_id,
            requested_by: connection_id,
            original: sub,
            to_publisher: Some(
                SubscribeView {
                    request_id: relay_id,
                    track: sub.track,
                    parameters: forwarded_parameters(sub.parameters),
                },
            ),
        },
    )
}

/// A subscribe request as it is kept with its client.
pub open spec fn kept_request(sub: SubscribeView, connection_id: usize) -> SubscribeRequestView {
    SubscribeRequestView {
        original_request_id: sub.request_id,
        requested_by: connection_id,
        original: sub,
        to_publisher: None,
    }
}

/// The first subscriber of a track: the track is made and its publisher asked.
pub open spec fn first_subscriber(
    old_tracks: TrackManager,
    tracks: TrackManager,
    old_requests: RequestMaps,
    requests: RequestMaps,
    sub: SubscribeView,
    connection_id: usize,
    is_switch: bool,
    outcome: SubscribeOutcome,
) -> bool {
    let t = tracks.tracks@[sub.track];
    let relay_id = old_requests.relay_next_request_id;
    &&& tracks.next_relay_track_id == old_tracks.next_relay_track_id + 1
    &&& t.relay_track_id == old_tracks.next_relay_track_id
    &&& t.status is Pending
    &&& t.largest_location == (Location { group: 0, object: 0 })
    &&& t.publisher_aliases@ == Map::<usize, u64>::empty()
    &&& t.pending_subscribers@.len() == 0
    &&& t.track_extensions@.len() == 0
    &&& t.active_subgroup_headers@ == Map::<StreamId, HeaderInfo>::empty()
    &&& joined(
        Map::empty(),
        t.subscriptions(),
        connection_id,
        sub.request_id,
        sub.parameters,
        is_switch,
    )
    &&& outcome.reply is None
    &&& outcome.to_publisher matches Some(m) && m@ == ControlView::Subscribe(
        SubscribeView {
            request_id: relay_id,
            track: sub.track,
            parameters: forwarded_parameters(sub.parameters),
        },
    )
    &&& requests.relay_next_request_id == session_context::next_id(relay_id)
    &&& requests.relay_pending_requests@ == old_requests.relay_pending_requests@.insert(
        relay_id,
        requests.relay_pending_requests@[relay_id],
    )
    &&& requests.relay_pending_requests@[relay_id]@ == forwarded_request(
        sub,
        connection_id,
        relay_id,
    )
    &&& requests.upstream_fetch_senders == old_requests.upstream_fetch_senders
}

/// A further subscriber of a track: it is answered as the track's publisher was, or waits for
/// that.
pub open spec fn further_subscriber(
    old_tracks: TrackManager,
    tracks: TrackManager,
    sub: SubscribeView,
    connection_id: usize,
    is_switch: bool,
    outcome: SubscribeOutcome,
) -> bool {
    let t0 = old_tracks.tracks@[sub.track];
    let t = tracks.tracks@[sub.track];
    &&& tracks.next_relay_track_id == old_tracks.next_relay_track_id
    &&& t == (Track {
        subscription_manager: t.subscription_manager,
        pending_subscribers: t.pending_subscribers,
        ..t0
    })
    &&& joined(
        t0.subscriptions(),
        t.subscriptions(),
        connection_id,
        sub.request_id,
        sub.parameters,
        is_switch,
    )
    &&& t.pending_subscribers@ == if t0.status is Pending {
        t0.pending_subscribers@.push((sub.request_id, connection_id))
    } else {
        t0.pending_subscribers@
    }
    &&& outcome.to_publisher is None
    &&& match known_answer(t0, sub.request_id) {
        Some(a) => outcome.reply matches Some(m) && m@ == a,
        None => outcome.reply is None,
    }
}

fn answer_of(track: &Track, request_id: u64) -> (r: Option<ControlMessage>)
    ensures
        match known_answer(*track, request_id) {
            Some(a) => r matches Some(m) && m@ == a,
            None => r is None,
        },
{
    match &track.status {
        TrackStatus::Confirmed { subscribe_parameters } => {
            let mut params = copy_params(subscribe_parameters);
            params.push(MessageParameter::LargestObject { location: track.largest_location });
            Some(
                ControlMessage::SubscribeOk(
                    SubscribeOk {
                        request_id,
                        track_alias: track.relay_track_id,
                        subscribe_parameters: params,
                        track_extensions: copy_extensions(&track.track_extensions),
                    },
                ),
            )
        },
        TrackStatus::Pending => None,
        TrackStatus::Rejected { error_code, reason_phrase } => Some(
            ControlMessage::RequestError(
                RequestError {
                    request_id,
                    error_code: *error_code,
                    retry_interval: 0,
                    reason_phrase: reason_phrase.clone(),
                },
            ),
        ),
    }
}

/// Subscribes a client to a track: finds or makes the track, adds the subscription, and notes it
/// with the client where it is new. Says whether the track was made.
fn add_subscription(
    client: &mut MOQTClient,
    tracks: &mut TrackManager,
    sub: &Subscribe,
    connection_id: usize,
    is_switch: bool,
) -> (created: bool)
    requires
        old(client).wf(),
        old(tracks).wf(),
        old(tracks).next_relay_track_id < u64::MAX,
    ensures
        final(client).wf(),
        final(tracks).wf(),
        created == !old(tracks).tracks@.contains_key(sub@.track),
        final(tracks).track_aliases == old(tracks).track_aliases,
        final(tracks).tracks@ == old(tracks).tracks@.insert(
            sub@.track,
            final(tracks).tracks@[sub@.track],
        ),
        final(tracks).next_relay_track_id == old(tracks).next_relay_track_id + (if created {
            1int
        } else {
            0
        }),
        ({
            let t = final(tracks).tracks@[sub@.track];
            let t0 = old(tracks).tracks@[sub@.track];
            let before = if created {
                Map::<usize, Subscription>::empty()
            } else {
                t0.subscriptions()
            };
            &&& joined(
                before,
                t.subscriptions(),
                connection_id,
                sub.request_id,
                sub@.parameters,
                is_switch,
            )
            &&& !created ==> t == (Track { subscription_manager: t.subscription_manager, ..t0 })
            &&& created ==> {
                &&& t.relay_track_id == old(tracks).next_relay_track_id
                &&& t.status is Pending
                &&& t.largest_location == (Location { group: 0, object: 0 })
                &&& t.publisher_aliases@ == Map::<usize, u64>::empty()
                &&& t.pending_subscribers@.len() == 0
                &&& t.track_extensions@.len() == 0
                &&& t.active_subgroup_headers@ == Map::<StreamId, HeaderInfo>::empty()
            }
            &&& final(client).subscriptions@ == if before.contains_key(connection_id) {
                old(client).subscriptions@
            } else {
                old(client).subscriptions@.insert(sub@.track, t.relay_track_id)
            }
        }),
        *final(client) == (MOQTClient { subscriptions: final(client).subscriptions, ..*old(client) }),
{
    let created = tracks.get_or_create_track(&sub.track);
    let ghost before = *tracks;
    if let Some(track) = tracks.take(&sub.track) {
        let mut track = track;
        let copy = sub.copy();
        match track.add_subscription(connection_id, SubscriptionOrigin::Subscribe(copy), is_switch) {
            Ok(()) => {
                client.subscriptions.insert(sub.track.copy(), track.relay_track_id);
            },
            Err(_) => {},
        }
        let ghost t = track;
        tracks.put_back(Ghost(before), sub.track.copy(), track);
        proof {
            assert(tracks.tracks@ =~= old(tracks).tracks@.insert(sub@.track, t));
        }
    }
    created
}

/// What the handling of a request to subscribe does.
pub open spec fn subscribe_handled(
    old_client: MOQTClient,
    client: MOQTClient,
    old_tracks: TrackManager,
    tracks: TrackManager,
    old_requests: RequestMaps,
    requests: RequestMaps,
    context: SessionContext,
    sub: SubscribeView,
    by_name: Option<usize>,
    by_namespace: Option<usize>,
    is_switch: bool,
    r: Result<SubscribeOutcome, TerminationCode>,
) -> bool {
    &&& r is Err <==> sub.request_id >= context.max_request_id
    &&& r matches Err(e) ==> e is TooManyRequests
    &&& ({
            let publisher = if by_name is Some {
                by_name
            } else {
                by_namespace
            };
            &&& r is Err || publisher is None ==> client == old_client && tracks
                == old_tracks && requests == old_requests
            &&& r matches Ok(o) ==> o.publisher == publisher
            &&& publisher is None ==> (r matches Ok(o) ==> {
                &&& o.reply matches Some(m) && m@ == control::refusal(
                    sub.request_id,
                    RequestErrorCode::DoesNotExist,
                    "Unknown track namespace"@,
                )
                &&& o.to_publisher is None
            })
            &&& publisher is Some ==> (r matches Ok(o) ==> {
                let made = !old_tracks.tracks@.contains_key(sub.track);
                let t = tracks.tracks@[sub.track];
                let had = !made && old_tracks.tracks@[sub.track].subscriptions().contains_key(
                    context.connection_id,
                );
                &&& tracks.tracks@ == old_tracks.tracks@.insert(sub.track, t)
                &&& tracks.track_aliases == old_tracks.track_aliases
                &&& client == (MOQTClient {
                    subscriptions: client.subscriptions,
                    ..old_client
                })
                &&& client.subscriptions@ == if had {
                    old_client.subscriptions@
                } else {
                    old_client.subscriptions@.insert(sub.track, t.relay_track_id)
                }
                &&& if made {
                    first_subscriber(
                        old_tracks,
                        tracks,
                        old_requests,
                        requests,
                        sub,
                        context.connection_id,
                        is_switch,
                        o,
                    )
                } else {
                    requests == old_requests && further_subscriber(
                        old_tracks,
                        tracks,
                        sub,
                        context.connection_id,
                        is_switch,
                        o,
                    )
                }
            })
        })
}

/// Handles a request to subscribe. `by_name` and `by_namespace` are the publishers found for the
/// track's full name and for its namespace; the former is preferred.
pub fn handle_subscribe_message(
    client: &mut MOQTClient,
    tracks: &mut TrackManager,
    requests: &mut RequestMaps,
    context: &SessionContext,
    sub: &Subscribe,
    by_name: Option<usize>,
    by_namespace: Option<usize>,
    is_switch: bool,
) -> (r: Result<SubscribeOutcome, TerminationCode>)
    requires
        old(client).wf(),
        old(tracks).wf(),
        old(requests).wf(),
        old(tracks).next_relay_track_id < u64::MAX,
    ensures
        final(client).wf(),
        final(tracks).wf(),
        final(requests).wf(),
        subscribe_handled(
            *old(client),
            *final(client),
            *old(tracks),
            *final(tracks),
            *old(requests),
            *final(requests),
            *context,
            sub@,
            by_name,
            by_namespace,
            is_switch,
            r,
        ),
{
    if sub.request_id >= context.max_request_id {
        return Err(TerminationCode::TooManyRequests);
    }
    let publisher = match by_name {
        Some(p) => Some(p),
        None => by_namespace,
    };
    if publisher.is_none() {
        let refusal = RequestError {
            request_id: sub.request_id,
            error_code: RequestErrorCode::DoesNotExist,
            retry_interval: 0,
            reason_phrase: "Unknown track namespace".to_owned(),
        };
        return Ok(
            SubscribeOutcome {
                reply: Some(ControlMessage::RequestError(refusal)),
                to_publisher: None,
                publisher: None,
            },
        );
    }
    let created = add_subscription(client, tracks, sub, context.connection_id, is_switch);
    if created {
        let mut subscribe_parameters = copy_without(
            &sub.subscribe_parameters,
            MessageParameterType::Forward,
        );
        subscribe_parameters.push(MessageParameter::Forward { forward: true });
        let relay_id: u64 = requests.get_next_relay_request_id();
        let new_sub = Subscribe {
            request_id: relay_id,
            track: sub.track.copy(),
            subscribe_parameters,
        };
        let kept = new_sub.copy();
        let req = SubscribeRequest {
            original_request_id: sub.request_id,
            requested_by: context.connection_id,
            original_subscribe_request: sub.copy(),
            subscribe_request_to_publisher: Some(kept),
        };
        requests.relay_pending_requests.insert(relay_id, PendingRequest::Subscribe(req));
        return Ok(
            SubscribeOutcome {
                reply: None,
                to_publisher: Some(ControlMessage::Subscribe(new_sub)),
                publisher,
            },
        );
    }
    let ghost before = *tracks;
    let mut reply: Option<ControlMessage> = None;
    if let Some(track) = tracks.take(&sub.track) {
        let mut track = track;
        reply = answer_of(&track, sub.request_id);
        match track.status {
            TrackStatus::Pending => {
                track.pending_subscribers.push((sub.request_id, context.connection_id));
            },
            _ => {},
        }
        let ghost t = track;
        tracks.put_back(Ghost(before), sub.track.copy(), track);
        proof {
            assert(tracks.tracks@ =~= old(tracks).tracks@.insert(sub@.track, t));
        }
    }
    Ok(SubscribeOutcome { reply, to_publisher: None, publisher })
}

/// Keeps a subscribe request with its client once the client has been answered, or once there is
/// nothing to answer yet. `sent` is what became of the answer.
pub fn conclude_subscribe(
    client: &mut MOQTClient,
    context: &SessionContext,
    sub: &Subscribe,
    sent: Result<(), TerminationCode>,
) -> (r: Result<(), TerminationCode>)
    requires
        old(client).wf(),
    ensures
        final(client).wf(),
        r == sent,
        sent is Err ==> *final(client) == *old(client),
        sent is Ok ==> {
            let id = sub.request_id;
            &&& final(client).subscribe_requests@ == old(client).subscribe_requests@.insert(
                id,
                final(client).subscribe_requests@[id],
            )
            &&& final(client).subscribe_requests@[id]@ == kept_request(sub@, context.connection_id)
            &&& final(client).inbound_requests@ == old(client).inbound_requests@.insert(
                id,
                final(client).inbound_requests@[id],
            )
            &&& final(client).inbound_requests@[id]@ == PendingView::Subscribe(
                kept_request(sub@, context.connection_id),
            )
            &&& *final(client) == (MOQTClient {
                subscribe_requests: final(client).subscribe_requests,
                inbound_requests: final(client).inbound_requests,
                ..*old(client)
            })
        },
{
    if sent.is_ok() {
        let request = SubscribeRequest {
            original_request_id: sub.request_id,
            requested_by: context.connection_id,
            original_subscribe_request: sub.copy(),
            subscribe_request_to_publisher: None,
        };
        let same = SubscribeRequest {
            original_request_id: sub.request_id,
            requested_by: context.connection_id,
            original_subscribe_request: sub.copy(),
            subscribe_request_to_publisher: None,
        };
        client.subscribe_requests.insert(sub.request_id, request);
        client.inbound_requests.insert(sub.request_id, PendingRequest::Subscribe(same));
    }
    sent
}

/// The subscribe request under which a publisher's answer was awaited.
pub open spec fn awaited(requests: RequestMaps, request_id: u64) -> Option<SubscribeRequestView> {
    if requests.relay_pending_requests@.contains_key(request_id) {
        match requests.relay_pending_requests@[request_id]@ {
            PendingView::Subscribe(r) => Some(r),
            _ => None,
        }
    } else {
        None
    }
}

/// The subscribers that are answered together: the one for whom the publisher was asked, then
/// those that came while it had not answered.
pub open spec fn waiting(request: SubscribeRequestView, pending: Seq<(u64, usize)>) -> Seq<
    (u64, usize),
> {
    seq![(request.original_request_id, request.requested_by)] + pending
}

/// What the handling of a publisher's acceptance does.
pub open spec fn subscribe_ok_handled(
    old_tracks: TrackManager,
    tracks: TrackManager,
    requests: RequestMaps,
    connected: Seq<usize>,
    context: SessionContext,
    msg: SubscribeOk,
    deliveries: Vec<(usize, ControlMessage)>,
) -> bool {
    &&& match awaited(requests, msg.request_id) {
            Some(request) => if old_tracks.tracks@.contains_key(request.original.track) {
                let name = request.original.track;
                let t0 = old_tracks.tracks@[name];
                let t = tracks.tracks@[name];
                &&& tracks.tracks@ == old_tracks.tracks@.insert(name, t)
                &&& tracks.next_relay_track_id == old_tracks.next_relay_track_id
                &&& t == (Track {
                    publisher_aliases: t.publisher_aliases,
                    status: t.status,
                    track_extensions: t.track_extensions,
                    pending_subscribers: t.pending_subscribers,
                    ..t0
                })
                &&& t.publisher_aliases@ == t0.publisher_aliases@.insert(
                    context.connection_id,
                    msg.track_alias,
                )
                &&& t.status matches TrackStatus::Confirmed { subscribe_parameters }
                    && subscribe_parameters@ == msg.subscribe_parameters@
                &&& t.track_extensions@ == msg.track_extensions@
                &&& t.pending_subscribers@.len() == 0
                &&& {
                    let key = PublisherAlias {
                        connection_id: context.connection_id,
                        track_alias: msg.track_alias,
                    };
                    &&& tracks.track_aliases@ == old_tracks.track_aliases@.insert(
                        key,
                        tracks.track_aliases@[key],
                    )
                    &&& tracks.track_aliases@[key]@ == name
                }
                &&& said(deliveries@) == answers(
                    waiting(request, t0.pending_subscribers@),
                    connected,
                    acceptance(t0.relay_track_id, msg.subscribe_parameters@, msg.track_extensions@),
                )
            } else {
                tracks == old_tracks && deliveries@.len() == 0
            },
            None => tracks == old_tracks && deliveries@.len() == 0,
        }
}

/// Handles a publisher's acceptance: the track is confirmed, and everyone who waited for it and
/// is still connected is told.
pub fn handle_subscribe_ok_message(
    tracks: &mut TrackManager,
    requests: &RequestMaps,
    connected: &Vec<usize>,
    context: &SessionContext,
    msg: &SubscribeOk,
) -> (deliveries: Vec<(usize, ControlMessage)>)
    requires
        old(tracks).wf(),
        requests.wf(),
    ensures
        final(tracks).wf(),
        subscribe_ok_handled(
            *old(tracks),
            *final(tracks),
            *requests,
            connected@,
            *context,
            *msg,
            deliveries,
        ),
{
    let request = match requests.relay_pending_requests.get(&msg.request_id) {
        Some(PendingRequest::Subscribe(m)) => m,
        _ => {
            return Vec::new();
        },
    };
    let name = request.original_subscribe_request.track.copy();
    if tracks.get_track(&name).is_none() {
        return Vec::new();
    }
    let ghost before = *tracks;
    let mut track = match tracks.take(&name) {
        Some(t) => t,
        None => {
            return Vec::new();
        },
    };
    track.confirm(
        context.connection_id,
        msg.track_alias,
        copy_params(&msg.subscribe_parameters),
        copy_extensions(&msg.track_extensions),
    );
    let mut pending: Vec<(u64, usize)> = Vec::new();
    pending.push((request.original_request_id, request.requested_by));
    pending.append(&mut track.pending_subscribers);
    let relay_track_id: u64 = track.relay_track_id;
    let ghost t = track;
    tracks.put_back(Ghost(before), name.copy(), track);
    tracks.add_track_alias(context.connection_id, msg.track_alias, name);
    let ghost answer = acceptance(
        relay_track_id,
        msg.subscribe_parameters@,
        msg.track_extensions@,
    );
    let mut deliveries: Vec<(usize, ControlMessage)> = Vec::new();
    let mut i: usize = 0;
    assert(said(deliveries@) =~= answers(pending@.take(0), connected@, answer));
    while i < pending.len()
        invariant
            i <= pending@.len(),
            answer == acceptance(
                relay_track_id,
                msg.subscribe_parameters@,
                msg.track_extensions@,
            ),
            said(deliveries@) == answers(pending@.take(i as int), connected@, answer),
        decreases pending@.len() - i,
    {
        let (request_id, connection_id): (u64, usize) = pending[i];
        let ghost done = deliveries@;
        proof {
            assert(pending@.take(i + 1).drop_last() =~= pending@.take(i as int));
            assert(pending@.take(i + 1).last() == pending@[i as int]);
        }
        if is_connected(connected, connection_id) {
            let ok = SubscribeOk {
                request_id,
                track_alias: relay_track_id,
                subscribe_parameters: copy_params(&msg.subscribe_parameters),
                track_extensions: copy_extensions(&msg.track_extensions),
            };
            deliveries.push((connection_id, ControlMessage::SubscribeOk(ok)));
            assert(said(deliveries@) =~= said(done).push((connection_id, answer(request_id))));
        }
        i = i + 1;
    }
    proof {
        assert(pending@.take(i as int) =~= pending@);
        assert(pending@ =~= waiting(request@, before.tracks@[name@].pending_subscribers@));
    }
    deliveries
}

/// What the handling of the end of a subscription does.
pub open spec fn unsubscribe_handled(
    old_client: MOQTClient,
    client: MOQTClient,
    old_tracks: TrackManager,
    tracks: TrackManager,
    context: SessionContext,
    request_id: u64,
    streams: Vec<StreamId>,
) -> bool {
    &&& !old_client.subscribe_requests@.contains_key(request_id) ==> client == old_client
            && tracks == old_tracks && streams@.len() == 0
    &&& old_client.subscribe_requests@.contains_key(request_id) ==> {
            let name = old_client.subscribe_requests@[request_id]@.original.track;
            &&& client.subscriptions@ == old_client.subscriptions@.remove(name)
            &&& client.subscribe_requests@ == old_client.subscribe_requests@.remove(
                request_id,
            )
            &&& client.inbound_requests@ == old_client.inbound_requests@.remove(request_id)
            &&& client == (MOQTClient {
                subscriptions: client.subscriptions,
                subscribe_requests: client.subscribe_requests,
                inbound_requests: client.inbound_requests,
                ..old_client
            })
            &&& if old_tracks.tracks@.contains_key(name) {
                let t0 = old_tracks.tracks@[name];
                let t = tracks.tracks@[name];
                &&& tracks.tracks@ == old_tracks.tracks@.insert(name, t)
                &&& tracks.track_aliases == old_tracks.track_aliases
                &&& tracks.next_relay_track_id == old_tracks.next_relay_track_id
                &&& t == (Track { subscription_manager: t.subscription_manager, ..t0 })
                &&& t.subscriptions() == t0.subscriptions().remove(context.connection_id)
                &&& streams@.no_duplicates()
                &&& forall|id: StreamId| #[trigger]
                    streams@.contains(id) <==> t0.subscriptions().contains_key(
                        context.connection_id,
                    ) && !t0.subscriptions()[context.connection_id].finished
                        && t0.subscriptions()[context.connection_id].send_stream_last_object_ids@.contains_key(
                    id)
            } else {
                tracks == old_tracks && streams@.len() == 0
            }
        }
}

/// Handles the end of a subscription: it is removed from its track and forgotten with its client.
/// Gives the streams to close; a request that is not known is passed over.
pub fn handle_unsubscribe_message(
    client: &mut MOQTClient,
    tracks: &mut TrackManager,
    context: &SessionContext,
    request_id: u64,
) -> (streams: Vec<StreamId>)
    requires
        old(client).wf(),
        old(tracks).wf(),
    ensures
        final(client).wf(),
        final(tracks).wf(),
        unsubscribe_handled(
            *old(client),
            *final(client),
            *old(tracks),
            *final(tracks),
            *context,
            request_id,
            streams,
        ),
{
    let name = match client.subscribe_requests.get(&request_id) {
        Some(r) => r.original_subscribe_request.track.copy(),
        None => {
            return Vec::new();
        },
    };
    let mut streams: Vec<StreamId> = Vec::new();
    if tracks.get_track(&name).is_some() {
        let ghost before = *tracks;
        if let Some(track) = tracks.take(&name) {
            let mut track = track;
            streams = track.remove_subscription(context.connection_id);
            let ghost t = track;
            tracks.put_back(Ghost(before), name.copy(), track);
        }
    }
    client.subscriptions.remove(&name);
    client.subscribe_requests.remove(&request_id);
    client.inbound_requests.remove(&request_id);
    streams
}

/// What the update of a request asks for.
#[derive(Debug)]
pub struct UpdateOutcome {
    /// The answer to send on the client's control stream.
    pub reply: ControlMessage,
    /// The stream to open with the header that was held back.
    pub open: Option<(StreamId, HeaderInfo)>,
}

/// A kept subscribe request whose parameters were updated.
pub open spec fn updated_request(r: SubscribeRequestView, us: Seq<MessageParameter>) -> SubscribeRequestView {
    SubscribeRequestView {
        original: SubscribeView {
            parameters: message::with_updates(r.original.parameters, us),
            ..r.original
        },
        ..r
    }
}

/// The parameters of a kept request are updated in both places where it is kept.
pub open spec fn request_updated(
    old_client: MOQTClient,
    client: MOQTClient,
    id: u64,
    us: Seq<MessageParameter>,
) -> bool {
    &&& client.subscribe_requests@ == old_client.subscribe_requests@.insert(
        id,
        client.subscribe_requests@[id],
    )
    &&& client.subscribe_requests@[id]@ == updated_request(old_client.subscribe_requests@[id]@, us)
    &&& if old_client.inbound_requests@.contains_key(id) && old_client.inbound_requests@[
        id
    ] is Subscribe {
        &&& client.inbound_requests@ == old_client.inbound_requests@.insert(
            id,
            client.inbound_requests@[id],
        )
        &&& client.inbound_requests@[id]@ == PendingView::Subscribe(
            updated_request(old_client.inbound_requests@[id]->Subscribe_0@, us),
        )
    } else {
        client.inbound_requests@ == old_client.inbound_requests@
    }
    &&& client == (MOQTClient {
        subscribe_requests: client.subscribe_requests,
        inbound_requests: client.inbound_requests,
        ..old_client
    })
}

fn update_kept_request(client: &mut MOQTClient, update: &RequestUpdate) -> (r: Option<FullTrackName>)
    requires
        old(client).wf(),
    ensures
        final(client).wf(),
        r is Some <==> old(client).subscribe_requests@.contains_key(update.existing_request_id),
        r is None ==> *final(client) == *old(client),
        r matches Some(name) ==> {
            &&& name@ == old(client).subscribe_requests@[update.existing_request_id]@.original.track
            &&& request_updated(
                *old(client),
                *final(client),
                update.existing_request_id,
                update.parameters@,
            )
        },
{
    let id: u64 = update.existing_request_id;
    if !client.subscribe_requests.contains_key(&id) {
        return None;
    }
    let mut name: Option<FullTrackName> = None;
    let ghost before = *client;
    if let Some(req) = client.subscribe_requests.remove(&id) {
        let mut req = req;
        apply_message_parameter_update(
            &mut req.original_subscribe_request.subscribe_parameters,
            &update.parameters,
        );
        name = Some(req.original_subscribe_request.track.copy());
        assert(req@ =~= updated_request(before.subscribe_requests@[id]@, update.parameters@));
        client.subscribe_requests.insert(id, req);
        assert(client.subscribe_requests@ =~= before.subscribe_requests@.insert(id, req));
    }
    if let Some(p) = client.inbound_requests.remove(&id) {
        match p {
            PendingRequest::Subscribe(req) => {
                let mut req = req;
                apply_message_parameter_update(
                    &mut req.original_subscribe_request.subscribe_parameters,
                    &update.parameters,
                );
                assert(req@ =~= updated_request(
                    before.inbound_requests@[id]->Subscribe_0@,
                    update.parameters@,
                ));
                client.inbound_requests.insert(id, PendingRequest::Subscribe(req));
                assert(client.inbound_requests@ =~= before.inbound_requests@.insert(
                    id,
                    PendingRequest::Subscribe(req),
                ));
            },
            other => {
                client.inbound_requests.insert(id, other);
                assert(client.inbound_requests@ =~= before.inbound_requests@);
            },
        }
    } else {
        assert(client.inbound_requests@ =~= before.inbound_requests@);
    }
    name
}

/// What the handling of an update of parameters does.
pub open spec fn update_handled(
    old_client: MOQTClient,
    client: MOQTClient,
    old_tracks: TrackManager,
    tracks: TrackManager,
    update: RequestUpdate,
    r: Result<UpdateOutcome, TerminationCode>,
) -> bool {
    &&& ({
            let id = update.existing_request_id;
            let us = update.parameters@;
            let known = old_client.subscribe_requests@.contains_key(id);
            let name = old_client.subscribe_requests@[id]@.original.track;
            let c = old_client.connection_id;
            &&& r is Err <==> !known || !old_tracks.tracks@.contains_key(name)
            &&& r matches Err(e) ==> e is ProtocolViolation && tracks == old_tracks
            &&& !known ==> client == old_client
            &&& known ==> request_updated(old_client, client, id, us)
            &&& r matches Ok(o) ==> {
                let t0 = old_tracks.tracks@[name];
                let s0 = t0.subscriptions()[c];
                if t0.subscriptions().contains_key(c) {
                    let t = tracks.tracks@[name];
                    let s = t.subscriptions()[c];
                    &&& o.reply@ == ControlView::RequestOk(update.request_id)
                    &&& tracks.tracks@ == old_tracks.tracks@.insert(name, t)
                    &&& tracks.track_aliases == old_tracks.track_aliases
                    &&& tracks.next_relay_track_id == old_tracks.next_relay_track_id
                    &&& t == (Track { subscription_manager: t.subscription_manager, ..t0 })
                    &&& t.subscriptions() == t0.subscriptions().insert(c, s)
                    &&& s.subscription_state == subscription::updated_state(
                        s0.subscription_state,
                        us,
                        s.subscription_state.subscribe_parameters,
                    )
                    &&& s.subscription_state.subscribe_parameters@ == message::with_updates(
                        s0.subscription_state.subscribe_parameters@,
                        us,
                    )
                    &&& s == (Subscription {
                        subscription_state: s.subscription_state,
                        pending_header: s.pending_header,
                        ..s0
                    })
                    &&& if subscription::forward_rises(us, s0.subscription_state.forward) {
                        o.open == s0.pending_header && s.pending_header is None
                    } else {
                        o.open is None && s.pending_header == s0.pending_header
                    }
                } else {
                    &&& o.reply@ == control::refusal(
                        update.request_id,
                        RequestErrorCode::DoesNotExist,
                        "Subscription not found"@,
                    )
                    &&& o.open is None
                    &&& tracks == old_tracks
                }
            }
        })
}

/// Handles the update of a subscription's parameters. A request that the client never made, or
/// one to a track that is gone, violates the protocol.
pub fn handle_request_update(
    client: &mut MOQTClient,
    tracks: &mut TrackManager,
    update: &RequestUpdate,
) -> (r: Result<UpdateOutcome, TerminationCode>)
    requires
        old(client).wf(),
        old(tracks).wf(),
    ensures
        final(client).wf(),
        final(tracks).wf(),
        update_handled(
            *old(client),
            *final(client),
            *old(tracks),
            *final(tracks),
            *update,
            r,
        ),
{
    let connection_id: usize = client.connection_id;
    let name = match update_kept_request(client, update) {
        Some(n) => n,
        None => {
            return Err(TerminationCode::ProtocolViolation);
        },
    };
    let subscribed = match tracks.get_track(&name) {
        Some(t) => t.get_subscription(connection_id).is_some(),
        None => {
            return Err(TerminationCode::ProtocolViolation);
        },
    };
    let ghost before = *tracks;
    if subscribed {
        if let Some(track) = tracks.take(&name) {
            let mut track = track;
            let ghost t0 = track;
            let ghost m0 = track.subscription_manager;
            if let Some(s) = track.subscription_manager.subscriptions.remove(&connection_id) {
                let mut s = s;
                let open = s.update_subscription(update);
                track.subscription_manager.put_back(Ghost(m0), connection_id, s);
                tracks.put_back(Ghost(before), name, track);
                return Ok(
                    UpdateOutcome {
                        reply: ControlMessage::RequestOk { request_id: update.request_id },
                        open,
                    },
                );
            }
        }
    }
    let refusal = RequestError {
        request_id: update.request_id,
        error_code: RequestErrorCode::DoesNotExist,
        retry_interval: 0,
        reason_phrase: "Subscription not found".to_owned(),
    };
    Ok(UpdateOutcome { reply: ControlMessage::RequestError(refusal), open: None })
}

/// What the handling of a publisher's rejection does.
pub open spec fn subscribe_error_handled(
    old_tracks: TrackManager,
    tracks: TrackManager,
    old_requests: RequestMaps,
    requests: RequestMaps,
    connected: Seq<usize>,
    msg: RequestError,
    deliveries: Vec<(usize, ControlMessage)>,
) -> bool {
    &&& requests.relay_pending_requests@ == old_requests.relay_pending_requests@.remove(
            msg.request_id,
        )
    &&& requests == (RequestMaps {
            relay_pending_requests: requests.relay_pending_requests,
            ..old_requests
        })
    &&& match awaited(old_requests, msg.request_id) {
            Some(request) => {
                let name = request.original.track;
                let pending = if old_tracks.tracks@.contains_key(name) {
                    old_tracks.tracks@[name].pending_subscribers@
                } else {
                    Seq::empty()
                };
                &&& tracks.tracks@ == old_tracks.tracks@.remove(name)
                &&& tracks == (TrackManager {
                    tracks: tracks.tracks,
                    ..old_tracks
                })
                &&& said(deliveries@) == answers(
                    waiting(request, pending),
                    connected,
                    rejection(msg.error_code, msg.reason_phrase@),
                )
            },
            None => tracks == old_tracks && deliveries@.len() == 0,
        }
}

/// Handles a publisher's rejection: everyone who waited for the track and is still connected is
/// told, and the track is gone.
pub fn handle_subscribe_error_message(
    tracks: &mut TrackManager,
    requests: &mut RequestMaps,
    connected: &Vec<usize>,
    msg: &RequestError,
) -> (deliveries: Vec<(usize, ControlMessage)>)
    requires
        old(tracks).wf(),
        old(requests).wf(),
    ensures
        final(tracks).wf(),
        final(requests).wf(),
        subscribe_error_handled(
            *old(tracks),
            *final(tracks),
            *old(requests),
            *final(requests),
            connected@,
            *msg,
            deliveries,
        ),
{
    let request = match requests.relay_pending_requests.remove(&msg.request_id) {
        Some(PendingRequest::Subscribe(m)) => m,
        _ => {
            return Vec::new();
        },
    };
    let name = request.original_subscribe_request.track.copy();
    let mut pending: Vec<(u64, usize)> = Vec::new();
    pending.push((request.original_request_id, request.requested_by));
    let ghost before = *tracks;
    let ghost mut late: Seq<(u64, usize)> = Seq::empty();
    if let Some(track) = tracks.get_track(&name) {
        let n: usize = track.pending_subscribers.len();
        let mut k: usize = 0;
        while k < n
            invariant
                k <= n,
                n == track.pending_subscribers@.len(),
                pending@ == seq![(request.original_request_id, request.requested_by)]
                    + track.pending_subscribers@.take(k as int),
            decreases n - k,
        {
            proof {
                assert(track.pending_subscribers@.take(k + 1) =~= track.pending_subscribers@.take(
                    k as int,
                ).push(track.pending_subscribers@[k as int]));
            }
            pending.push(track.pending_subscribers[k]);
            k = k + 1;
        }
        proof {
            late = track.pending_subscribers@;
            assert(track.pending_subscribers@.take(k as int) =~= late);
        }
    }
    proof {
        assert(pending@ =~= waiting(request@, late));
    }
    let ghost answer = rejection(msg.error_code, msg.reason_phrase@);
    let mut deliveries: Vec<(usize, ControlMessage)> = Vec::new();
    let mut i: usize = 0;
    assert(said(deliveries@) =~= answers(pending@.take(0), connected@, answer));
    while i < pending.len()
        invariant
            i <= pending@.len(),
            answer == rejection(msg.error_code, msg.reason_phrase@),
            said(deliveries@) == answers(pending@.take(i as int), connected@, answer),
        decreases pending@.len() - i,
    {
        let (request_id, connection_id): (u64, usize) = pending[i];
        let ghost done = deliveries@;
        proof {
            assert(pending@.take(i + 1).drop_last() =~= pending@.take(i as int));
            assert(pending@.take(i + 1).last() == pending@[i as int]);
        }
        if is_connected(connected, connection_id) {
            let error = RequestError {
                request_id,
                error_code: msg.error_code,
                retry_interval: 0,
                reason_phrase: msg.reason_phrase.clone(),
            };
            deliveries.push((connection_id, ControlMessage::RequestError(error)));
            assert(said(deliveries@) =~= said(done).push((connection_id, answer(request_id))));
        }
        i = i + 1;
    }
    assert(pending@.take(i as int) =~= pending@);
    tracks.remove_track(&name);
    deliveries
}

/// A request from which a client may switch: its track is known, and the client's subscription to
/// it is alive, not ended and forwarding.
pub open spec fn switchable(client: MOQTClient, tracks: TrackManager, request_id: u64) -> bool {
    let name = client.subscribe_requests@[request_id]@.original.track;
    &&& client.subscribe_requests@.contains_key(request_id)
    &&& tracks.tracks@.contains_key(name)
    &&& forwarding::live_subscription(client, tracks, name) matches Some(s) && !s.finished
        && s.subscription_state.forward
}

/// The subscribe request that a switch stands for: it has those parameters of the switch that can
/// be read, and always asks for objects, from now on.
pub open spec fn switch_request(msg: Switch) -> SubscribeView {
    SubscribeView {
        request_id: msg.request_id,
        track: msg.track@,
        parameters: message::with_param(
            pairs::readable(pairs::pairs_view(msg.subscribe_parameters@)),
            MessageParameter::Forward { forward: true },
        ).push(control::latest_object()),
    }
}

/// What the handling of a switch asks for: what its subscribe request asks for, and the two
/// tracks to mark once that has been answered.
#[derive(Debug)]
pub struct SwitchOutcome {
    pub subscribe: Subscribe,
    pub outcome: SubscribeOutcome,
    pub from: FullTrackName,
}

/// What the handling of a switch does.
pub open spec fn switch_handled(
    old_client: MOQTClient,
    client: MOQTClient,
    old_tracks: TrackManager,
    tracks: TrackManager,
    old_requests: RequestMaps,
    requests: RequestMaps,
    context: SessionContext,
    msg: Switch,
    by_name: Option<usize>,
    by_namespace: Option<usize>,
    r: Result<SwitchOutcome, TerminationCode>,
) -> bool {
    if !switchable(old_client, old_tracks, msg.subscription_request_id) {
        &&& r matches Err(e) && e is ProtocolViolation
        &&& client == old_client
        &&& tracks == old_tracks
        &&& requests == old_requests
    } else {
        &&& subscribe_handled(
            old_client,
            client,
            old_tracks,
            tracks,
            old_requests,
            requests,
            context,
            switch_request(msg),
            by_name,
            by_namespace,
            true,
            match r {
                Ok(o) => Ok(o.outcome),
                Err(e) => Err(e),
            },
        )
        &&& r matches Ok(o) ==> o.subscribe@ == switch_request(msg) && o.from@
            == old_client.subscribe_requests@[msg.subscription_request_id]@.original.track
    }
}

/// Handles a switch: a subscribe request to the new track, made from a subscription that
/// forwards. Anything else to switch from violates the protocol.
pub fn handle_switch_message(
    client: &mut MOQTClient,
    tracks: &mut TrackManager,
    requests: &mut RequestMaps,
    context: &SessionContext,
    msg: &Switch,
    by_name: Option<usize>,
    by_namespace: Option<usize>,
) -> (r: Result<SwitchOutcome, TerminationCode>)
    requires
        old(client).wf(),
        old(tracks).wf(),
        old(requests).wf(),
        old(tracks).next_relay_track_id < u64::MAX,
    ensures
        final(client).wf(),
        final(tracks).wf(),
        final(requests).wf(),
        switch_handled(
            *old(client),
            *final(client),
            *old(tracks),
            *final(tracks),
            *old(requests),
            *final(requests),
            *context,
            *msg,
            by_name,
            by_namespace,
            r,
        ),
{
    let from = match client.subscribe_requests.get(&msg.subscription_request_id) {
        Some(req) => req.original_subscribe_request.track.copy(),
        None => {
            return Err(TerminationCode::ProtocolViolation);
        },
    };
    if tracks.get_track(&from).is_none() {
        return Err(TerminationCode::ProtocolViolation);
    }
    match get_live_subscription(client, tracks, &from) {
        Some(s) => {
            if !s.is_active() {
                return Err(TerminationCode::ProtocolViolation);
            }
        },
        None => {
            return Err(TerminationCode::ProtocolViolation);
        },
    }
    let mut params = read_parameters(&msg.subscribe_parameters);
    set_param(&mut params, MessageParameter::Forward { forward: true });
    let subscribe = Subscribe::new_latest_object(msg.request_id, msg.track.copy(), params);
    match handle_subscribe_message(
        client,
        tracks,
        requests,
        context,
        &subscribe,
        by_name,
        by_namespace,
        true,
    ) {
        Ok(outcome) => Ok(SwitchOutcome { subscribe, outcome, from }),
        Err(e) => Err(e),
    }
}

/// Marks the tracks of a switch once its subscribe request has been answered: the new one waits
/// for its turn, the old one plays. `handled` is what became of that request.
pub fn conclude_switch(
    client: &mut MOQTClient,
    new_track: &FullTrackName,
    from: &FullTrackName,
    handled: Result<(), TerminationCode>,
) -> (r: Result<(), TerminationCode>)
    requires
        old(client).wf(),
    ensures
        final(client).wf(),
        r == handled,
        handled is Err ==> *final(client) == *old(client),
        handled is Ok ==> {
            &&& final(client).switch_context@ == switch_marked(
                old(client).switch_context@,
                new_track@,
                from@,
            )
            &&& *final(client) == (MOQTClient {
                switch_context: final(client).switch_context,
                ..*old(client)
            })
        },
{
    if handled.is_ok() {
        client.switch_context.add_or_update_switch_item(new_track.copy(), SwitchStatus::Next);
        client.switch_context.add_or_update_switch_item(from.copy(), SwitchStatus::Current);
    }
    handled
}

/// The switch context once a switch has been asked for.
pub open spec fn switch_marked(
    m: Map<TrackName, SwitchStatus>,
    new_track: TrackName,
    from: TrackName,
) -> Map<TrackName, SwitchStatus> {
    switch_context::with_status(
        switch_context::with_status(m, new_track, SwitchStatus::Next),
        from,
        SwitchStatus::Current,
    )
}

/// A switch to another track leaves exactly the old track playing and the new one waiting.
pub proof fn law_switch_waits_for_the_new_track(
    m: Map<TrackName, SwitchStatus>,
    new_track: TrackName,
    from: TrackName,
    other: TrackName,
)
    requires
        new_track != from,
    ensures
        ({
            let after = switch_marked(m, new_track, from);
            &&& after.contains_key(new_track) && after[new_track] is Next
            &&& after.contains_key(from) && after[from] is Current
            &&& after.contains_key(other) && after[other] is Current ==> other == from
        }),
{
    let n = switch_context::with_status(m, new_track, SwitchStatus::Next);
    assert(n.contains_key(new_track));
    let d = switch_context::demoted(n);
    assert(d.contains_key(new_track) && d[new_track] is Next);
    if d.contains_key(other) {
        assert(!(d[other] is Current));
    }
}

/// Everyone who waited for a track is answered, once and in turn, under the id of their own
/// request.
pub proof fn law_everyone_who_waits_is_answered(
    waiting: Seq<(u64, usize)>,
    connected: Seq<usize>,
    answer: spec_fn(u64) -> ControlView,
)
    requires
        forall|i: int| 0 <= i < waiting.len() ==> connected.contains((#[trigger] waiting[i]).1),
    ensures
        answers(waiting, connected, answer).len() == waiting.len(),
        forall|i: int|
            0 <= i < waiting.len() ==> #[trigger] answers(waiting, connected, answer)[i] == (
                waiting[i].1,
                answer(waiting[i].0),
            ),
    decreases waiting.len(),
{
    if waiting.len() > 0 {
        let init = waiting.drop_last();
        assert forall|i: int| 0 <= i < init.len() implies connected.contains(
            (#[trigger] init[i]).1,
        ) by {
            assert(init[i] == waiting[i]);
        }
        law_everyone_who_waits_is_answered(init, connected, answer);
        assert(waiting[waiting.len() - 1] == waiting.last());
        assert forall|i: int| 0 <= i < waiting.len() implies #[trigger] answers(
            waiting,
            connected,
            answer,
        )[i] == (waiting[i].1, answer(waiting[i].0)) by {
            if i < init.len() {
                assert(init[i] == waiting[i]);
                assert(answers(init, connected, answer)[i] == (waiting[i].1, answer(waiting[i].0)));
            }
        }
    }
}

/// The publisher of a track is asked for objects, whatever its first subscriber asked for.
pub proof fn law_publisher_is_always_asked_to_forward(ps: Seq<MessageParameter>)
    ensures
        message::first_of(forwarded_parameters(ps), MessageParameterType::Forward) == Some(
            MessageParameter::Forward { forward: true },
        ),
        forwarded_parameters(ps).last() == (MessageParameter::Forward { forward: true }),
{
    let keep = |p: MessageParameter| p.kind() != MessageParameterType::Forward;
    let w = message::without(ps, MessageParameterType::Forward);
    assert(w == ps.filter(keep));
    let all = forwarded_parameters(ps);
    assert forall|j: int| 0 <= j < w.len() implies (#[trigger] all[j]).kind()
        != MessageParameterType::Forward by {
        assert(all[j] == w[j]);
        ps.lemma_filter_pred(keep, j);
    }
    message::lemma_first_of(all, MessageParameterType::Forward, w.len() as int);
}

/// What the handling of a message asks for.
#[derive(Debug)]
pub enum HandlerOutcome {
    Subscribe { subscribe: Subscribe, outcome: SubscribeOutcome },
    Deliver(Vec<(usize, ControlMessage)>),
    CloseStreams(Vec<StreamId>),
    Update(UpdateOutcome),
    Switch(SwitchOutcome),
    /// The message concerns no subscription.
    Nothing,
}

/// Handles a message that concerns subscriptions, and passes any other over.
pub fn handle(
    client: &mut MOQTClient,
    tracks: &mut TrackManager,
    requests: &mut RequestMaps,
    connected: &Vec<usize>,
    context: &SessionContext,
    msg: &ControlMessage,
    by_name: Option<usize>,
    by_namespace: Option<usize>,
) -> (r: Result<HandlerOutcome, TerminationCode>)
    requires
        old(client).wf(),
        old(tracks).wf(),
        old(requests).wf(),
        old(tracks).next_relay_track_id < u64::MAX,
    ensures
        final(client).wf(),
        final(tracks).wf(),
        final(requests).wf(),
        match *msg {
            ControlMessage::Subscribe(m) => exists|s: Result<SubscribeOutcome, TerminationCode>|
                {
                    &&& #[trigger] subscribe_handled(
                        *old(client),
                        *final(client),
                        *old(tracks),
                        *final(tracks),
                        *old(requests),
                        *final(requests),
                        *context,
                        m@,
                        by_name,
                        by_namespace,
                        false,
                        s,
                    )
                    &&& match s {
                        Ok(o) => r matches Ok(HandlerOutcome::Subscribe { subscribe, outcome })
                            && subscribe@ == m@ && outcome == o,
                        Err(e) => r matches Err(f) && e == f,
                    }
                },
            ControlMessage::SubscribeOk(m) => {
                &&& *final(client) == *old(client)
                &&& *final(requests) == *old(requests)
                &&& r matches Ok(HandlerOutcome::Deliver(ds)) && subscribe_ok_handled(
                    *old(tracks),
                    *final(tracks),
                    *old(requests),
                    connected@,
                    *context,
                    m,
                    ds,
                )
            },
            ControlMessage::Unsubscribe { request_id } => {
                &&& *final(requests) == *old(requests)
                &&& r matches Ok(HandlerOutcome::CloseStreams(ids)) && unsubscribe_handled(
                    *old(client),
                    *final(client),
                    *old(tracks),
                    *final(tracks),
                    *context,
                    request_id,
                    ids,
                )
            },
            ControlMessage::RequestUpdate(m) => {
                &&& *final(requests) == *old(requests)
                &&& exists|s: Result<UpdateOutcome, TerminationCode>|
                    {
                        &&& #[trigger] update_handled(
                            *old(client),
                            *final(client),
                            *old(tracks),
                            *final(tracks),
                            m,
                            s,
                        )
                        &&& match s {
                            Ok(o) => r matches Ok(HandlerOutcome::Update(p)) && o == p,
                            Err(e) => r matches Err(f) && e == f,
                        }
                    }
            },
            ControlMessage::RequestError(m) => {
                &&& *final(client) == *old(client)
                &&& r matches Ok(HandlerOutcome::Deliver(ds)) && subscribe_error_handled(
                    *old(tracks),
                    *final(tracks),
                    *old(requests),
                    *final(requests),
                    connected@,
                    m,
                    ds,
                )
            },
            ControlMessage::Switch(m) => exists|s: Result<SwitchOutcome, TerminationCode>|
                {
                    &&& #[trigger] switch_handled(
                        *old(client),
                        *final(client),
                        *old(tracks),
                        *final(tracks),
                        *old(requests),
                        *final(requests),
                        *context,
                        m,
                        by_name,
                        by_namespace,
                        s,
                    )
                    &&& match s {
                        Ok(o) => r matches Ok(HandlerOutcome::Switch(p)) && o == p,
                        Err(e) => r matches Err(f) && e == f,
                    }
                },
            _ => {
                &&& r matches Ok(HandlerOutcome::Nothing)
                &&& *final(client) == *old(client)
                &&& *final(tracks) == *old(tracks)
                &&& *final(requests) == *old(requests)
            },
        },
{
    match msg {
        ControlMessage::Subscribe(m) => {
            let s = handle_subscribe_message(
                client,
                tracks,
                requests,
                context,
                m,
                by_name,
                by_namespace,
                false,
            );
            match s {
                Ok(outcome) => Ok(HandlerOutcome::Subscribe { subscribe: m.copy(), outcome }),
                Err(e) => Err(e),
            }
        },
        ControlMessage::SubscribeOk(m) => {
            let ds = handle_subscribe_ok_message(tracks, requests, connected, context, m);
            Ok(HandlerOutcome::Deliver(ds))
        },
        ControlMessage::Unsubscribe { request_id } => {
            let ids = handle_unsubscribe_message(client, tracks, context, *request_id);
            Ok(HandlerOutcome::CloseStreams(ids))
        },
        ControlMessage::RequestUpdate(m) => match handle_request_update(client, tracks, m) {
            Ok(o) => Ok(HandlerOutcome::Update(o)),
            Err(e) => Err(e),
        },
        ControlMessage::RequestError(m) => {
            let ds = handle_subscribe_error_message(tracks, requests, connected, m);
            Ok(HandlerOutcome::Deliver(ds))
        },
        ControlMessage::Switch(m) => {
            let s = handle_switch_message(
                client,
                tracks,
                requests,
                context,
                m,
                by_name,
                by_namespace,
            );
            match s {
                Ok(o) => Ok(HandlerOutcome::Switch(o)),
                Err(e) => Err(e),
            }
        },
        _ => Ok(HandlerOutcome::Nothing),
    }
}

/// A request to subscribe for which there is a publisher leaves the client subscribed to the track
/// that it names. A client that was not has then its own request's id and parameters there; one
/// that was keeps its subscription, which a switch only makes ask the switch context. Every other
/// subscriber and every other track stays as it is, and so does every alias.
pub proof fn law_subscribing_makes_a_subscriber(
    old_client: MOQTClient,
    client: MOQTClient,
    old_tracks: TrackManager,
    tracks: TrackManager,
    old_requests: RequestMaps,
    requests: RequestMaps,
    context: SessionContext,
    sub: SubscribeView,
    by_name: Option<usize>,
    by_namespace: Option<usize>,
    is_switch: bool,
    o: SubscribeOutcome,
    other: TrackName,
    neighbour: usize,
)
    requires
        subscribe_handled(
            old_client,
            client,
            old_tracks,
            tracks,
            old_requests,
            requests,
            context,
            sub,
            by_name,
            by_namespace,
            is_switch,
            Ok(o),
        ),
        by_name is Some || by_namespace is Some,
        other != sub.track,
        neighbour != context.connection_id,
    ensures
        ({
            let c = context.connection_id;
            let known = old_tracks.tracks@.contains_key(sub.track);
            let t0 = old_tracks.tracks@[sub.track];
            let t = tracks.tracks@[sub.track];
            let had = known && t0.subscriptions().contains_key(c);
            let s = t.subscriptions()[c];
            &&& tracks.tracks@.contains_key(sub.track)
            &&& t.subscriptions().contains_key(c)
            &&& !had ==> {
                &&& s.request_id == sub.request_id
                &&& s.subscription_state.subscribe_parameters@ == sub.parameters
                &&& s.subscription_state.subscriber_priority == subscription::priority_in(
                    sub.parameters,
                )
                &&& s.subscription_state.forward == subscription::forward_in(sub.parameters)
                &&& s.subscription_state.last_sent_max_location is None
                &&& !s.finished && s.pending_header is None
                &&& s.check_switch_context_on_next_object <==> is_switch
                &&& client.subscriptions@.contains_key(sub.track) && client.subscriptions@[sub.track]
                    == t.relay_track_id
            }
            &&& had ==> {
                &&& s.subscription_state == t0.subscriptions()[c].subscription_state
                &&& s.request_id == t0.subscriptions()[c].request_id
                &&& s.check_switch_context_on_next_object
                    == (t0.subscriptions()[c].check_switch_context_on_next_object || is_switch)
                &&& client.subscriptions@ == old_client.subscriptions@
            }
            &&& known ==> (t.subscriptions().contains_key(neighbour)
                <==> t0.subscriptions().contains_key(neighbour))
            &&& known && t0.subscriptions().contains_key(neighbour) ==> t.subscriptions()[neighbour]
                == t0.subscriptions()[neighbour]
            &&& !known ==> !t.subscriptions().contains_key(neighbour)
            &&& known ==> t.relay_track_id == t0.relay_track_id && t.status == t0.status
                && t.largest_location == t0.largest_location
            &&& tracks.tracks@.contains_key(other) <==> old_tracks.tracks@.contains_key(other)
            &&& old_tracks.tracks@.contains_key(other) ==> tracks.tracks@[other]
                == old_tracks.tracks@[other]
            &&& tracks.track_aliases == old_tracks.track_aliases
            &&& client.subscriptions@.contains_key(other) <==> old_client.subscriptions@.contains_key(
                other,
            )
        }),
{
}

/// A publisher found for the very name comes before one found for the namespace, and with neither
/// the request is refused and nothing changes. The publisher is asked exactly where the track is
/// new; a track that is known and undecided keeps the request waiting, behind those that wait
/// already; a decided one has it answered at once. So one request is never both answered and
/// passed on.
pub proof fn law_each_subscriber_is_answered_or_waits(
    old_client: MOQTClient,
    client: MOQTClient,
    old_tracks: TrackManager,
    tracks: TrackManager,
    old_requests: RequestMaps,
    requests: RequestMaps,
    context: SessionContext,
    sub: SubscribeView,
    by_name: Option<usize>,
    by_namespace: Option<usize>,
    is_switch: bool,
    o: SubscribeOutcome,
)
    requires
        subscribe_handled(
            old_client,
            client,
            old_tracks,
            tracks,
            old_requests,
            requests,
            context,
            sub,
            by_name,
            by_namespace,
            is_switch,
            Ok(o),
        ),
    ensures
        sub.request_id < context.max_request_id,
        by_name is Some ==> o.publisher == by_name,
        by_name is None ==> o.publisher == by_namespace,
        o.publisher is None ==> {
            &&& tracks == old_tracks && client == old_client && requests == old_requests
            &&& o.to_publisher is None
            &&& o.reply matches Some(m) && m@ matches ControlView::RequestError(e) && e.request_id
                == sub.request_id && e.error_code is DoesNotExist
        },
        o.publisher is Some ==> {
            let known = old_tracks.tracks@.contains_key(sub.track);
            let t0 = old_tracks.tracks@[sub.track];
            let t = tracks.tracks@[sub.track];
            &&& o.to_publisher is Some <==> !known
            &&& o.to_publisher matches Some(m) ==> m@ matches ControlView::Subscribe(s) && s.track
                == sub.track && s.request_id == old_requests.relay_next_request_id
            &&& o.reply is Some <==> known && !(t0.status is Pending)
            &&& known && t0.status is Pending ==> {
                &&& t.pending_subscribers@.len() == t0.pending_subscribers@.len() + 1
                &&& t.pending_subscribers@.last() == (sub.request_id, context.connection_id)
                &&& t0.pending_subscribers@.is_prefix_of(t.pending_subscribers@)
            }
            &&& known && !(t0.status is Pending) ==> t.pending_subscribers@
                == t0.pending_subscribers@
            &&& known && t0.status is Confirmed ==> (o.reply matches Some(m)
                && m@ matches ControlView::SubscribeOk(a) && {
                &&& a.request_id == sub.request_id
                &&& a.track_alias == t0.relay_track_id
                &&& a.parameters.last() == (MessageParameter::LargestObject {
                    location: t0.largest_location,
                })
                &&& a.parameters.drop_last() == t0.status->subscribe_parameters@
                &&& a.extensions == t0.track_extensions@
            })
            &&& known && t0.status is Rejected ==> (o.reply matches Some(m)
                && m@ matches ControlView::RequestError(e) && {
                &&& e.request_id == sub.request_id
                &&& e.error_code == t0.status->error_code
                &&& e.reason == t0.status->reason_phrase@
            })
            &&& known ==> requests == old_requests
        },
{
    if o.publisher is Some && old_tracks.tracks@.contains_key(sub.track) {
        let t0 = old_tracks.tracks@[sub.track];
        if t0.status is Confirmed {
            let ps = t0.status->subscribe_parameters@;
            let all = ps.push(MessageParameter::LargestObject { location: t0.largest_location });
            assert(all.drop_last() =~= ps);
        }
    }
}

/// The first subscriber of a track hears of its publisher's acceptance: under the id of its own
/// request, with the relay's id of the track as alias, and with what the publisher said. From then
/// on the track is confirmed, and found by the alias under which the publisher sends it.
pub proof fn law_acceptance_reaches_the_first_subscriber(
    c0: MOQTClient,
    c1: MOQTClient,
    t0: TrackManager,
    t1: TrackManager,
    t2: TrackManager,
    r0: RequestMaps,
    r1: RequestMaps,
    context: SessionContext,
    sub: SubscribeView,
    by_name: Option<usize>,
    by_namespace: Option<usize>,
    is_switch: bool,
    o: SubscribeOutcome,
    connected: Seq<usize>,
    publisher: SessionContext,
    msg: SubscribeOk,
    deliveries: Vec<(usize, ControlMessage)>,
)
    requires
        subscribe_handled(
            c0,
            c1,
            t0,
            t1,
            r0,
            r1,
            context,
            sub,
            by_name,
            by_namespace,
            is_switch,
            Ok(o),
        ),
        by_name is Some || by_namespace is Some,
        !t0.tracks@.contains_key(sub.track),
        msg.request_id == r0.relay_next_request_id,
        subscribe_ok_handled(t1, t2, r1, connected, publisher, msg, deliveries),
    ensures
        connected.contains(context.connection_id) ==> said(deliveries@) == seq![
            (
                context.connection_id,
                ControlView::SubscribeOk(
                    SubscribeOkView {
                        request_id: sub.request_id,
                        track_alias: t0.next_relay_track_id,
                        parameters: msg.subscribe_parameters@,
                        extensions: msg.track_extensions@,
                    },
                ),
            ),
        ],
        !connected.contains(context.connection_id) ==> deliveries@.len() == 0,
        t2.tracks@.contains_key(sub.track),
        t2.tracks@[sub.track].status matches TrackStatus::Confirmed { subscribe_parameters }
            && subscribe_parameters@ == msg.subscribe_parameters@,
        t2.tracks@[sub.track].track_extensions@ == msg.track_extensions@,
        t2.tracks@[sub.track].relay_track_id == t0.next_relay_track_id,
        t2.tracks@[sub.track].subscriptions() == t1.tracks@[sub.track].subscriptions(),
        t2.tracks@[sub.track].publisher_aliases@.contains_key(publisher.connection_id)
            && t2.tracks@[sub.track].publisher_aliases@[publisher.connection_id] == msg.track_alias,
        ({
            let key = PublisherAlias {
                connection_id: publisher.connection_id,
                track_alias: msg.track_alias,
            };
            t2.track_aliases@.contains_key(key) && t2.track_aliases@[key]@ == sub.track
        }),
        t2.tracks@[sub.track].pending_subscribers@.len() == 0,
{
    let relay_id = r0.relay_next_request_id;
    let request = awaited(r1, relay_id)->Some_0;
    let t = t1.tracks@[sub.track];
    let answer = acceptance(t.relay_track_id, msg.subscribe_parameters@, msg.track_extensions@);
    let w = waiting(request, t.pending_subscribers@);
    assert(w =~= seq![(sub.request_id, context.connection_id)]);
    assert(w.drop_last() =~= Seq::<(u64, usize)>::empty());
    assert(w.last() == (sub.request_id, context.connection_id));
    assert(answers(w.drop_last(), connected, answer) =~= Seq::<(usize, ControlView)>::empty());
    let a = answers(w, connected, answer);
    assert(said(deliveries@) == a);
    if connected.contains(context.connection_id) {
        assert(a =~= seq![(context.connection_id, answer(sub.request_id))]);
    } else {
        assert(a.len() == 0);
    }
}

/// The first subscriber of a track hears of its publisher's rejection, with the publisher's code
/// and reason and under the id of its own request; the track is gone, and the publisher's answer is
/// awaited no more.
pub proof fn law_rejection_reaches_the_first_subscriber(
    c0: MOQTClient,
    c1: MOQTClient,
    t0: TrackManager,
    t1: TrackManager,
    t2: TrackManager,
    r0: RequestMaps,
    r1: RequestMaps,
    r2: RequestMaps,
    context: SessionContext,
    sub: SubscribeView,
    by_name: Option<usize>,
    by_namespace: Option<usize>,
    is_switch: bool,
    o: SubscribeOutcome,
    connected: Seq<usize>,
    msg: RequestError,
    deliveries: Vec<(usize, ControlMessage)>,
)
    requires
        subscribe_handled(
            c0,
            c1,
            t0,
            t1,
            r0,
            r1,
            context,
            sub,
            by_name,
            by_namespace,
            is_switch,
            Ok(o),
        ),
        by_name is Some || by_namespace is Some,
        !t0.tracks@.contains_key(sub.track),
        msg.request_id == r0.relay_next_request_id,
        subscribe_error_handled(t1, t2, r1, r2, connected, msg, deliveries),
    ensures
        connected.contains(context.connection_id) ==> {
            &&& said(deliveries@).len() == 1
            &&& said(deliveries@)[0].0 == context.connection_id
            &&& said(deliveries@)[0].1 matches ControlView::RequestError(e) && e.request_id
                == sub.request_id && e.error_code == msg.error_code && e.reason
                == msg.reason_phrase@
        },
        t2.tracks@ == t0.tracks@,
        awaited(r2, msg.request_id) is None,
{
    let relay_id = r0.relay_next_request_id;
    let request = awaited(r1, relay_id)->Some_0;
    let t = t1.tracks@[sub.track];
    let answer = rejection(msg.error_code, msg.reason_phrase@);
    let w = waiting(request, t.pending_subscribers@);
    assert(w =~= seq![(sub.request_id, context.connection_id)]);
    assert(w.drop_last() =~= Seq::<(u64, usize)>::empty());
    assert(w.last() == (sub.request_id, context.connection_id));
    assert(answers(w.drop_last(), connected, answer) =~= Seq::<(usize, ControlView)>::empty());
    let a = answers(w, connected, answer);
    if connected.contains(context.connection_id) {
        assert(a =~= seq![(context.connection_id, answer(sub.request_id))]);
        assert(said(deliveries@) == a);
    }
    assert(t2.tracks@ =~= t0.tracks@);
}

/// The end of a subscription undoes it: the client is no subscriber of the track any more, neither
/// there nor in its own books, and every other subscriber stays. The streams to close are those
/// that were open.
pub proof fn law_unsubscribing_undoes_a_subscription(
    old_client: MOQTClient,
    client: MOQTClient,
    old_tracks: TrackManager,
    tracks: TrackManager,
    context: SessionContext,
    request_id: u64,
    streams: Vec<StreamId>,
    name: TrackName,
    neighbour: usize,
    id: u64,
)
    requires
        unsubscribe_handled(
            old_client,
            client,
            old_tracks,
            tracks,
            context,
            request_id,
            streams,
        ),
        old_client.subscribe_requests@.contains_key(request_id),
        old_client.subscribe_requests@[request_id]@.original.track == name,
        old_tracks.tracks@.contains_key(name),
        neighbour != context.connection_id,
        id != request_id,
    ensures
        ({
            let before = old_tracks.tracks@[name].subscriptions();
            let after = tracks.tracks@[name].subscriptions();
            let s = before[context.connection_id];
            &&& !after.contains_key(context.connection_id)
            &&& after.contains_key(neighbour) <==> before.contains_key(neighbour)
            &&& before.contains_key(neighbour) ==> after[neighbour] == before[neighbour]
            &&& before.contains_key(context.connection_id) && !s.finished ==> forall|stream: StreamId|
                #[trigger]
                streams@.contains(stream) <==> s.send_stream_last_object_ids@.contains_key(stream)
            &&& tracks.tracks@[name].status == old_tracks.tracks@[name].status
            &&& tracks.tracks@.dom() == old_tracks.tracks@.dom()
        }),
        !client.subscriptions@.contains_key(name),
        !client.subscribe_requests@.contains_key(request_id),
        !client.inbound_requests@.contains_key(request_id),
        client.subscribe_requests@.contains_key(id) <==> old_client.subscribe_requests@.contains_key(
            id,
        ),
{
    assert(tracks.tracks@.dom() =~= old_tracks.tracks@.dom());
}

/// Those who waited and have left get no answer, and it is a matter of the others alone what they
/// get: everyone's answer is decided on its own, in the order in which they came.
pub proof fn law_only_the_connected_are_answered(
    before: Seq<(u64, usize)>,
    w: (u64, usize),
    behind: Seq<(u64, usize)>,
    connected: Seq<usize>,
    answer: spec_fn(u64) -> ControlView,
)
    ensures
        !connected.contains(w.1) ==> answers(before.push(w) + behind, connected, answer) == answers(
            before,
            connected,
            answer,
        ) + answers(behind, connected, answer),
        connected.contains(w.1) ==> answers(before.push(w) + behind, connected, answer) == answers(
            before,
            connected,
            answer,
        ).push((w.1, answer(w.0))) + answers(behind, connected, answer),
    decreases behind.len(),
{
    let all = before.push(w) + behind;
    if behind.len() == 0 {
        assert(all =~= before.push(w));
        assert(all.drop_last() =~= before);
        let none = answers(behind, connected, answer);
        assert(answers(before, connected, answer) + none =~= answers(before, connected, answer));
        assert(answers(all, connected, answer) + none =~= answers(all, connected, answer));
    } else {
        let init = behind.drop_last();
        law_only_the_connected_are_answered(before, w, init, connected, answer);
        assert(all.drop_last() =~= before.push(w) + init);
        assert(all.last() == behind.last());
        let b = answers(before, connected, answer);
        let i = answers(init, connected, answer);
        let l = behind.last();
        let x = (l.1, answer(l.0));
        assert((b + i).push(x) =~= b + i.push(x));
        let p = b.push((w.1, answer(w.0)));
        assert((p + i).push(x) =~= p + i.push(x));
    }
}

/// Those who wait are answered with the one for whom the publisher was asked at their head.
pub proof fn law_the_one_who_asked_is_answered_first(
    request: SubscribeRequestView,
    pending: Seq<(u64, usize)>,
)
    ensures
        waiting(request, pending).len() == pending.len() + 1,
        waiting(request, pending)[0] == (request.original_request_id, request.requested_by),
        waiting(request, pending).skip(1) == pending,
{
    assert(waiting(request, pending).skip(1) =~= pending);
}

proof fn lemma_first_of_joined(
    a: Seq<MessageParameter>,
    b: Seq<MessageParameter>,
    t: MessageParameterType,
)
    ensures
        message::first_of(a + b, t) == if message::first_of(a, t) is Some {
            message::first_of(a, t)
        } else {
            message::first_of(b, t)
        },
    decreases a.len(),
{
    if a.len() == 0 {
        assert(a + b =~= b);
    } else {
        assert((a + b).drop_first() =~= a.drop_first() + b);
        assert((a + b)[0] == a[0]);
        lemma_first_of_joined(a.drop_first(), b, t);
    }
}

proof fn lemma_first_of_without(
    ps: Seq<MessageParameter>,
    t: MessageParameterType,
    u: MessageParameterType,
)
    requires
        t != u,
    ensures
        message::first_of(message::without(ps, u), t) == message::first_of(ps, t),
    decreases ps.len(),
{
    if ps.len() == 0 {
        reveal(Seq::filter);
    } else {
        let none = Seq::<MessageParameter>::empty();
        let p = ps[0];
        let rest = ps.drop_first();
        assert(ps =~= none.push(p) + rest);
        message::law_leaving_out_a_type(none, p, rest, u);
        lemma_first_of_without(rest, t, u);
        let w = message::without(rest, u);
        if p.kind() == u {
            assert(none + w =~= w);
        } else {
            lemma_first_of_joined(none.push(p), w, t);
            lemma_first_of_joined(none.push(p), rest, t);
        }
    }
}

/// What the relay asks the publisher of a track for is what the first subscriber asked for, but for
/// the forwarding.
pub proof fn law_publisher_is_asked_as_the_subscriber_asked(
    ps: Seq<MessageParameter>,
    t: MessageParameterType,
)
    requires
        t != MessageParameterType::Forward,
    ensures
        message::first_of(forwarded_parameters(ps), t) == message::first_of(ps, t),
        subscription::priority_in(forwarded_parameters(ps)) == subscription::priority_in(ps),
        subscription::group_order_in(forwarded_parameters(ps)) == subscription::group_order_in(ps),
        subscription::filter_in(forwarded_parameters(ps)) == subscription::filter_in(ps),
        subscription::forward_in(forwarded_parameters(ps)),
{
    lemma_asked_alike(ps, t);
    lemma_asked_alike(ps, MessageParameterType::SubscriberPriority);
    lemma_asked_alike(ps, MessageParameterType::GroupOrder);
    lemma_asked_alike(ps, MessageParameterType::SubscriptionFilter);
    law_publisher_is_always_asked_to_forward(ps);
}

proof fn lemma_asked_alike(ps: Seq<MessageParameter>, t: MessageParameterType)
    requires
        t != MessageParameterType::Forward,
    ensures
        message::first_of(forwarded_parameters(ps), t) == message::first_of(ps, t),
{
    let w = message::without(ps, MessageParameterType::Forward);
    let on = MessageParameter::Forward { forward: true };
    let one = Seq::<MessageParameter>::empty().push(on);
    assert(w.push(on) =~= w + one);
    lemma_first_of_joined(w, one, t);
    reveal_with_fuel(message::first_of, 2);
    assert(one[0].kind() == MessageParameterType::Forward);
    assert(one.drop_first().len() == 0);
    lemma_first_of_without(ps, t, MessageParameterType::Forward);
}

/// The request that a switch stands for asks for the new track, under the switch's own id and with
/// its parameters, but always for objects; where it has no filter of its own it takes whatever the
/// track publishes from now on.
pub proof fn law_a_switch_asks_for_the_new_track(msg: Switch, t: MessageParameterType)
    ensures
        ({
            let r = switch_request(msg);
            let asked = pairs::readable(pairs::pairs_view(msg.subscribe_parameters@));
            &&& r.request_id == msg.request_id
            &&& r.track == msg.track@
            &&& subscription::forward_in(r.parameters)
            &&& r.parameters.last() == control::latest_object()
            &&& t != MessageParameterType::Forward && (t != MessageParameterType::SubscriptionFilter
                || message::first_of(asked, t) is Some) ==> message::first_of(r.parameters, t)
                == message::first_of(asked, t)
            &&& message::first_of(asked, MessageParameterType::SubscriptionFilter) is None
                ==> subscription::filter_in(r.parameters).1 is None && subscription::filter_in(
                r.parameters,
            ).2 == 0
        }),
{
    let asked = pairs::readable(pairs::pairs_view(msg.subscribe_parameters@));
    let on = MessageParameter::Forward { forward: true };
    let w = message::with_param(asked, on);
    let none = Seq::<MessageParameter>::empty();
    let one = none.push(control::latest_object());
    let f = MessageParameterType::Forward;
    let filter = MessageParameterType::SubscriptionFilter;
    assert(w.push(control::latest_object()) =~= w + one);
    lemma_first_of_joined(w, one, t);
    lemma_first_of_joined(w, one, f);
    lemma_first_of_joined(w, one, filter);
    reveal_with_fuel(message::first_of, 2);
    assert(one[0].kind() == filter);
    assert(one.drop_first().len() == 0);
    message::lemma_first_of_with_param(asked, on, t);
    message::lemma_first_of_with_param(asked, on, f);
    message::lemma_first_of_with_param(asked, on, filter);
}

/// A switch is taken from the track of the subscription that it names, and only where that one is
/// alive, not over and forwarding; anything else is a violation that changes nothing.
pub proof fn law_a_switch_leaves_a_track_that_plays(
    old_client: MOQTClient,
    client: MOQTClient,
    old_tracks: TrackManager,
    tracks: TrackManager,
    old_requests: RequestMaps,
    requests: RequestMaps,
    context: SessionContext,
    msg: Switch,
    by_name: Option<usize>,
    by_namespace: Option<usize>,
    r: Result<SwitchOutcome, TerminationCode>,
)
    requires
        switch_handled(
            old_client,
            client,
            old_tracks,
            tracks,
            old_requests,
            requests,
            context,
            msg,
            by_name,
            by_namespace,
            r,
        ),
    ensures
        ({
            let id = msg.subscription_request_id;
            let name = old_client.subscribe_requests@[id]@.original.track;
            let t = old_tracks.tracks@[name];
            let s = t.subscriptions()[old_client.connection_id];
            let alive = {
                &&& old_client.subscribe_requests@.contains_key(id)
                &&& old_tracks.tracks@.contains_key(name)
                &&& old_client.subscriptions@.contains_key(name)
                &&& old_client.subscriptions@[name] == t.relay_track_id
                &&& t.subscriptions().contains_key(old_client.connection_id)
                &&& !s.finished
                &&& s.subscription_state.forward
            };
            &&& !alive ==> (r matches Err(e) && e is ProtocolViolation) && client == old_client
                && tracks == old_tracks && requests == old_requests
            &&& alive && msg.request_id < context.max_request_id ==> r is Ok
            &&& r matches Ok(o) ==> alive && o.from@ == name && o.subscribe@.track == msg.track@
                && o.subscribe@.request_id == msg.request_id
            &&& r is Ok && (by_name is Some || by_namespace is Some) ==> {
                &&& tracks.tracks@.contains_key(msg.track@)
                &&& tracks.tracks@[msg.track@].subscriptions().contains_key(context.connection_id)
                &&& tracks.tracks@[msg.track@].subscriptions()[context.connection_id].check_switch_context_on_next_object
            }
        }),
{
}

/// A switch that is asked for touches no track but the two that it names and the one that played
/// until then.
pub proof fn law_a_switch_marks_no_other_track(
    m: Map<TrackName, SwitchStatus>,
    new_track: TrackName,
    from: TrackName,
    other: TrackName,
)
    requires
        other != new_track,
        other != from,
    ensures
        ({
            let after = switch_marked(m, new_track, from);
            &&& after.contains_key(other) <==> m.contains_key(other)
            &&& m.contains_key(other) && !(m[other] is Current) ==> after[other] == m[other]
            &&& m.contains_key(other) && m[other] is Current ==> after[other] is Inactive
        }),
{
    let n = switch_context::with_status(m, new_track, SwitchStatus::Next);
    let d = switch_context::demoted(n);
    if m.contains_key(other) {
        assert(d.contains_key(other));
    }
}

/// An update that names a priority or the forwarding has it in force for the client's subscription
/// at once, and is acknowledged under its own id; no other subscriber feels it. Where forwarding
/// comes on, the header that was held back is given out, once.
pub proof fn law_an_update_is_in_force_at_once(
    old_client: MOQTClient,
    client: MOQTClient,
    old_tracks: TrackManager,
    tracks: TrackManager,
    update: RequestUpdate,
    o: UpdateOutcome,
    k: int,
    neighbour: usize,
)
    requires
        update_handled(old_client, client, old_tracks, tracks, update, Ok(o)),
        0 <= k < update.parameters@.len(),
        forall|j: int|
            k < j < update.parameters@.len() ==> (#[trigger] update.parameters@[j]).kind()
                != update.parameters@[k].kind(),
        neighbour != old_client.connection_id,
    ensures
        ({
            let id = update.existing_request_id;
            let c = old_client.connection_id;
            let name = old_client.subscribe_requests@[id]@.original.track;
            let before = old_tracks.tracks@[name].subscriptions();
            let after = tracks.tracks@[name].subscriptions();
            let s = after[c];
            &&& old_tracks.tracks@.contains_key(name)
            &&& before.contains_key(c) ==> {
                &&& o.reply@ == ControlView::RequestOk(update.request_id)
                &&& after.contains_key(c)
                &&& update.parameters@[k] matches MessageParameter::SubscriberPriority { priority }
                    ==> s.subscription_state.subscriber_priority == priority
                &&& update.parameters@[k] matches MessageParameter::Forward { forward }
                    ==> s.subscription_state.forward == forward
                &&& s.request_id == before[c].request_id && s.finished == before[c].finished
                &&& s.send_stream_last_object_ids == before[c].send_stream_last_object_ids
                &&& !before[c].subscription_state.forward && s.subscription_state.forward ==> o.open
                    == before[c].pending_header && s.pending_header is None
                &&& o.open is None ==> s.pending_header == before[c].pending_header
                    || before[c].pending_header is None
                &&& o.open is Some ==> s.pending_header is None
            }
            &&& !before.contains_key(c) ==> tracks == old_tracks && o.open is None && (
            o.reply@ matches ControlView::RequestError(e) && e.request_id == update.request_id
                && e.error_code is DoesNotExist)
            &&& after.contains_key(neighbour) <==> before.contains_key(neighbour)
            &&& before.contains_key(neighbour) ==> after[neighbour] == before[neighbour]
        }),
{
    let id = update.existing_request_id;
    let c = old_client.connection_id;
    let name = old_client.subscribe_requests@[id]@.original.track;
    let before = old_tracks.tracks@[name].subscriptions();
    let after = tracks.tracks@[name].subscriptions();
    if before.contains_key(c) {
        subscription::law_update_sets_what_it_names(
            before[c].subscription_state,
            update.parameters@,
            after[c].subscription_state.subscribe_parameters,
            k,
        );
        subscription::law_forwarding_is_switched_on_by_a_request(
            update.parameters@,
            before[c].subscription_state.forward,
        );
    }
}

/// A kept request remembers what it was: whose it is and which track it asks for. An update changes
/// its parameters alone, and only those of its own id.
pub proof fn law_updates_reach_the_kept_request(
    old_client: MOQTClient,
    client: MOQTClient,
    id: u64,
    us: Seq<MessageParameter>,
    other: u64,
    t: MessageParameterType,
)
    requires
        request_updated(old_client, client, id, us),
        old_client.subscribe_requests@.contains_key(id),
        other != id,
    ensures
        ({
            let before = old_client.subscribe_requests@[id]@;
            let after = client.subscribe_requests@[id]@;
            &&& client.subscribe_requests@.contains_key(id)
            &&& after.original_request_id == before.original_request_id
            &&& after.requested_by == before.requested_by
            &&& after.original.track == before.original.track
            &&& after.original.request_id == before.original.request_id
            &&& after.to_publisher == before.to_publisher
            &&& message::first_of(after.original.parameters, t) == if message::last_of(us, t) is Some {
                message::last_of(us, t)
            } else {
                message::first_of(before.original.parameters, t)
            }
        }),
        client.subscribe_requests@.contains_key(other)
            <==> old_client.subscribe_requests@.contains_key(other),
        old_client.subscribe_requests@.contains_key(other) ==> client.subscribe_requests@[other]
            == old_client.subscribe_requests@[other],
        client.inbound_requests@.dom() == old_client.inbound_requests@.dom(),
{
    message::law_update_keeps_what_it_does_not_name(
        old_client.subscribe_requests@[id]@.original.parameters,
        us,
        t,
    );
    assert(client.inbound_requests@.dom() =~= old_client.inbound_requests@.dom());
}

/// A request is kept under the client's own id and name, with what it asked for as it came.
pub proof fn law_kept_requests_are_the_clients_own(
    sub: SubscribeView,
    connection_id: usize,
    relay_id: u64,
)
    ensures
        ({
            let kept = kept_request(sub, connection_id);
            &&& kept.original == sub
            &&& kept.original_request_id == sub.request_id
            &&& kept.requested_by == connection_id
            &&& kept.to_publisher is None
            &&& forwarded_request(sub, connection_id, relay_id) matches PendingView::Subscribe(p) && {
                &&& p.original == sub
                &&& p.original_request_id == sub.request_id
                &&& p.requested_by == connection_id
                &&& p.to_publisher matches Some(q) && q.request_id == relay_id && q.track
                    == sub.track
            }
        }),
{
}

/// What concerns a request that is not known changes nothing: an end closes no stream, an answer
/// reaches nobody, and an update is a violation.
pub proof fn law_unknown_requests_change_nothing(
    old_client: MOQTClient,
    client: MOQTClient,
    old_tracks: TrackManager,
    tracks: TrackManager,
    requests: RequestMaps,
    connected: Seq<usize>,
    context: SessionContext,
    request_id: u64,
    streams: Vec<StreamId>,
    ok: SubscribeOk,
    deliveries: Vec<(usize, ControlMessage)>,
    update: RequestUpdate,
    r: Result<UpdateOutcome, TerminationCode>,
)
    ensures
        unsubscribe_handled(old_client, client, old_tracks, tracks, context, request_id, streams)
            && !old_client.subscribe_requests@.contains_key(request_id) ==> client == old_client
            && tracks == old_tracks && streams@.len() == 0,
        subscribe_ok_handled(old_tracks, tracks, requests, connected, context, ok, deliveries)
            && !requests.relay_pending_requests@.contains_key(ok.request_id) ==> tracks
            == old_tracks && deliveries@.len() == 0,
        update_handled(old_client, client, old_tracks, tracks, update, r)
            && !old_client.subscribe_requests@.contains_key(update.existing_request_id) ==> (
        r matches Err(e) && e is ProtocolViolation) && client == old_client && tracks == old_tracks,
{
}

/// What deliveries say is said to the one to whom each goes, in their order.
pub proof fn law_deliveries_go_to_their_clients(ds: Seq<(usize, ControlMessage)>, i: int)
    requires
        0 <= i < ds.len(),
    ensures
        said(ds).len() == ds.len(),
        said(ds)[i].0 == ds[i].0,
        said(ds)[i].1 == ds[i].1@,
{
}

} // verus!
