//! The relay: subscriptions, switches, fetches and sessions.
use moqtail::model::data::datagram::Datagram;
use moqtail::model::parameter::authorization_token::AuthorizationToken;
use moqtail_apps::client::{MOQTClient, OpenStep, TokenBucket, WriteResult};
use moqtail_apps::control::{
    ControlMessage, Fetch, FetchOk, RequestError, RequestUpdate, Subscribe, SubscribeOk, Switch,
    TrackExtension,
};
use moqtail_apps::fetch_handler::{
    self, conclude_fetch, end_upstream_fetch, handle_fetch_message, send_upstream_fetch_for_range,
    DeliveryStep, FetchEnding, FetchOutcome,
};
use moqtail_apps::forwarding::{self, current_track, forward_event};
use moqtail_apps::location::Location;
use moqtail_apps::message::{
    apply_message_parameter_update, copy_without, find_param, set_param, FetchType, FilterType,
    GroupOrder, MessageParameter, MessageParameterType, PublishDoneStatusCode, RequestErrorCode,
    TerminationCode,
};
use moqtail_apps::names::FullTrackName;
use moqtail_apps::pairs::{read_parameter, read_parameters, KeyValuePair};
use moqtail_apps::session::{
    setup_tokens, tokens_to_log, Arrival, ArrivalStep, ControlEvent, ControlStep, LookupStep, NamespaceEvent,
    NamespaceStep, RequestStep, Session, SessionAction, SetupParameter, UniStream,
};
use moqtail_apps::session_context::{RequestMaps, SessionContext, UpstreamFetchEvent};
use moqtail_apps::stream_id::{build_stream_id, fnv_hash, HeaderInfo, StreamId, SubgroupHeader};
use moqtail_apps::subscribe_handler::{
    self, conclude_subscribe, conclude_switch, handle_request_update, handle_subscribe_error_message,
    handle_subscribe_message, handle_subscribe_ok_message, handle_switch_message,
    handle_unsubscribe_message, HandlerOutcome,
};
use moqtail_apps::subscription::{
    replay_events, CachedObject, CurrentTrack, ObjectAction, ReceiveStep, Subscription,
    SubscriptionOrigin, SubscriptionStep, TrackAction,
};
use moqtail_apps::subscription_manager::SubscriptionManager;
use moqtail_apps::switch_context::{SwitchContext, SwitchStatus};
use moqtail_apps::table::Table;
use moqtail_apps::track::{Object, Track, TrackEvent, TrackStatus};
use moqtail_apps::track_manager::TrackManager;

const PUBLISHER: usize = 1;
const CLIENT: usize = 2;

fn name(n: &str) -> FullTrackName {
    FullTrackName { namespace: b"ns".to_vec(), name: n.as_bytes().to_vec() }
}

fn subscribe(request_id: u64, track: &str) -> Subscribe {
    Subscribe::new_latest_object(request_id, name(track), vec![])
}

fn subgroup(group_id: u64) -> HeaderInfo {
    HeaderInfo::Subgroup {
        header: SubgroupHeader {
            track_alias: 70,
            group_id,
            subgroup_id: Some(0),
            publisher_priority: Some(10),
            has_extensions: false,
            contains_end_of_group: false,
        },
    }
}

fn object(group: u64, object: u64) -> Object {
    Object {
        track_alias: 70,
        location: Location::new(group, object),
        publisher_priority: 10,
        subgroup_id: Some(0),
    }
}

/// A relay with one client, whose session it is.
struct Relay {
    client: MOQTClient,
    publisher: MOQTClient,
    tracks: TrackManager,
    requests: RequestMaps,
    context: SessionContext,
}

impl Relay {
    fn new() -> Relay {
        let mut context = SessionContext::new(CLIENT, 1000);
        context.set_client();
        Relay {
            client: MOQTClient::new(CLIENT, 0, 0),
            publisher: MOQTClient::new(PUBLISHER, 0, 0),
            tracks: TrackManager::new(),
            requests: RequestMaps::new(1),
            context,
        }
    }

    /// Subscribes the client to a track whose publisher accepts it under an alias.
    fn subscribe(&mut self, request_id: u64, track: &str, alias: u64) {
        let sub = subscribe(request_id, track);
        let relay_id = self.requests.relay_next_request_id;
        handle_subscribe_message(
            &mut self.client,
            &mut self.tracks,
            &mut self.requests,
            &self.context,
            &sub,
            Some(PUBLISHER),
            None,
            false,
        )
        .unwrap();
        conclude_subscribe(&mut self.client, &self.context, &sub, Ok(())).unwrap();
        let ok = SubscribeOk {
            request_id: relay_id,
            track_alias: alias,
            subscribe_parameters: vec![],
            track_extensions: vec![],
        };
        let publisher_context = SessionContext::new(PUBLISHER, 1000);
        handle_subscribe_ok_message(
            &mut self.tracks,
            &self.requests,
            &vec![PUBLISHER, CLIENT],
            &publisher_context,
            &ok,
        );
    }

    fn track(&mut self, n: &str) -> &mut Track {
        let at = self.tracks.tracks.position(&name(n)).unwrap();
        &mut self.tracks.tracks.entries[at].1
    }

    /// Brings an object of a track to the client.
    fn bring(&mut self, n: &str, group: u64, id: u64, first: bool) -> TrackAction {
        let header = first.then_some(subgroup(group));
        let track = self.track(n);
        let stream_id = build_stream_id(track.relay_track_id, &subgroup(group));
        let event = track.new_subgroup_object(stream_id, object(group, id), header);
        let action = forward_event(&mut self.client, &mut self.tracks, &name(n), &event).unwrap();
        let location = Location::new(group, id);
        match &action {
            TrackAction::Object(ObjectAction::Open { stream_id, .. }) => {
                self.client.stream_opened(*stream_id, 900);
                forwarding::stream_opened(&mut self.tracks, &name(n), CLIENT, *stream_id);
                forwarding::object_sent(&mut self.tracks, &name(n), CLIENT, *stream_id, location);
            }
            TrackAction::Object(ObjectAction::Send) => {
                forwarding::object_sent(&mut self.tracks, &name(n), CLIENT, stream_id, location);
            }
            _ => {}
        }
        action
    }
}

fn refusal(m: &ControlMessage) -> (u64, RequestErrorCode, &str) {
    match m {
        ControlMessage::RequestError(e) => (e.request_id, e.error_code, e.reason_phrase.as_str()),
        other => panic!("{other:?}"),
    }
}

#[test]
fn tables_keep_one_value_for_a_key() {
    let mut t: Table<u64, &str> = Table::new();
    assert!(t.is_empty());
    assert_eq!(t.insert(1, "a"), None);
    assert_eq!(t.insert(2, "b"), None);
    assert_eq!(t.insert(1, "c"), Some("a"));
    assert_eq!((t.len(), t.get(&1), t.contains_key(&3)), (2, Some(&"c"), false));
    assert_eq!(t.remove(&1), Some("c"));
    assert_eq!(t.remove(&1), None);
    t.clear();
    assert_eq!(t.len(), 0);
}

#[test]
fn locations_are_ordered_by_group_then_object() {
    assert!(Location::new(1, 9).is_before(&Location::new(2, 0)));
    assert!(Location::new(2, 0).is_before(&Location::new(2, 1)));
    assert!(!Location::new(2, 1).is_before(&Location::new(2, 1)));
    assert!(!Location::new(3, 0).is_before(&Location::new(2, 9)));
}

#[test]
fn parameters_are_found_set_updated_and_left_out() {
    let mut ps = vec![
        MessageParameter::SubscriberPriority { priority: 3 },
        MessageParameter::Forward { forward: false },
    ];
    set_param(&mut ps, MessageParameter::Forward { forward: true });
    apply_message_parameter_update(&mut ps, &vec![MessageParameter::Expires { expires: 4 }]);
    assert_eq!(
        find_param(&ps, MessageParameterType::Forward),
        Some(MessageParameter::Forward { forward: true })
    );
    assert_eq!(
        find_param(&ps, MessageParameterType::Expires),
        Some(MessageParameter::Expires { expires: 4 })
    );
    assert_eq!(
        find_param(&ps, MessageParameterType::SubscriberPriority),
        Some(MessageParameter::SubscriberPriority { priority: 3 })
    );
    let rest = copy_without(&ps, MessageParameterType::Forward);
    assert_eq!(find_param(&rest, MessageParameterType::Forward), None);
    assert_eq!(rest.len(), ps.len() - 1);
    assert_eq!(TerminationCode::TooManyRequests.to_u32(), 0x7);
    assert_eq!(TerminationCode::GoawayTimeout.to_u32(), 0x10);
}

#[test]
fn stream_identities_tell_headers_apart() {
    let a = build_stream_id(1, &subgroup(4));
    assert_eq!((a.group_id, a.subgroup_id, a.fetch_request_id), (Some(4), Some(0), None));
    assert_ne!(a, build_stream_id(1, &subgroup(5)));
    let f = build_stream_id(1, &HeaderInfo::Fetch { request_id: 4 });
    assert_eq!((f.group_id, f.fetch_request_id), (None, Some(4)));
    assert_ne!(a, f);
    assert_eq!(fnv_hash(&vec![]), 0xcbf29ce484222325);
    assert_eq!(fnv_hash(&b"a".to_vec()), 0xaf63dc4c8601ec8c);
}

#[test]
fn at_most_one_track_plays() {
    let mut c = SwitchContext::new();
    c.add_or_update_switch_item(name("a"), SwitchStatus::Current);
    c.add_or_update_switch_item(name("b"), SwitchStatus::Next);
    assert_eq!(c.get_switch_status(&name("a")), Some(SwitchStatus::Current));
    c.add_or_update_switch_item(name("b"), SwitchStatus::Current);
    assert_eq!(c.get_switch_status(&name("a")), Some(SwitchStatus::Inactive));
    assert_eq!(c.get_current().unwrap().name, b"b");
    assert_eq!(c.get_switch_status(&name("x")), None);
}

#[test]
fn token_bucket_makes_writers_wait() {
    // 8 kbit/s are 1000 bytes per second.
    let mut b = TokenBucket::new(8, 0);
    assert_eq!(b.consume(0, 600), 0);
    assert_eq!(b.consume(0, 600), 200_000_000);
    // The bucket is empty; half a second brings 500 bytes.
    assert_eq!(b.consume(500_000_000, 500), 0);
    // It never holds more than a second's worth.
    assert_eq!(b.consume(9_000_000_000, 1000), 0);
    assert_eq!(b.consume(9_000_000_000, 1), 1_000_000);
    let mut c = MOQTClient::new(CLIENT, 8, 0);
    let id = build_stream_id(1, &subgroup(0));
    let step = c.write_stream_object(&id, 1500, Some(3), 0);
    assert_eq!((step.stream, step.wait_nanos), (Some(3), 500_000_000));
    let mut free = MOQTClient::new(CLIENT, 0, 0);
    let step = free.write_stream_object(&id, 1500, None, 0);
    assert_eq!((step.stream, step.wait_nanos), (None, 0));
}

#[test]
fn clients_keep_streams_announcements_and_messages() {
    let mut c = MOQTClient::new(CLIENT, 0, 0);
    let a = build_stream_id(1, &subgroup(0));
    let b = build_stream_id(1, &subgroup(1));
    assert_eq!(c.open_stream(&a), OpenStep::OpenNew);
    c.stream_opened(a, 5);
    c.stream_opened(b, 6);
    assert_eq!(c.open_stream(&a), OpenStep::Reuse { stream: 5 });
    c.object_written(&a, WriteResult::OtherError);
    assert_eq!(c.get_stream(&a), Some(5));
    c.object_written(&a, WriteResult::ClosedOrStopped);
    assert_eq!(c.get_stream(&a), None);
    assert_eq!(c.close_stream(&b), Some(6));
    assert_eq!(c.close_stream(&b), None);
    assert!(c.next_message().is_none());
    c.queue_message(ControlMessage::RequestOk { request_id: 1 });
    c.queue_message(ControlMessage::RequestOk { request_id: 2 });
    assert!(matches!(c.next_message(), Some(ControlMessage::RequestOk { request_id: 1 })));
    assert!(matches!(c.next_message(), Some(ControlMessage::RequestOk { request_id: 2 })));
    assert_eq!(c.get_outbound_announce_id(&b"ns".to_vec()), None);
    c.add_announced_track_namespace(b"ns".to_vec());
    c.add_subscriber(9);
    c.add_published_track(4, name("t"));
    assert_eq!((c.announced_track_namespaces.len(), c.subscribers.len()), (1, 1));
    assert_eq!(c.published_tracks.get(&4).unwrap().name, b"t");
}

#[test]
fn relay_request_ids_step_by_two_and_wrap() {
    let mut r = RequestMaps::new(1);
    assert_eq!((r.get_next_relay_request_id(), r.get_next_relay_request_id()), (1, 3));
    let mut r = RequestMaps::new(u64::MAX);
    assert_eq!((r.get_next_relay_request_id(), r.get_next_relay_request_id()), (u64::MAX, 1));
    let mut c = SessionContext::new(4, 10);
    assert_eq!(c.get_client(), None);
    c.set_client();
    assert_eq!(c.get_client(), Some(4));
}

#[test]
fn first_subscriber_makes_the_track_and_asks_its_publisher() {
    let mut r = Relay::new();
    let mut sub = subscribe(0, "a");
    sub.subscribe_parameters.push(MessageParameter::Forward { forward: false });
    let o = handle_subscribe_message(
        &mut r.client,
        &mut r.tracks,
        &mut r.requests,
        &r.context,
        &sub,
        None,
        Some(PUBLISHER),
        false,
    )
    .unwrap();
    assert!(o.reply.is_none());
    assert_eq!(o.publisher, Some(PUBLISHER));
    match o.to_publisher.unwrap() {
        ControlMessage::Subscribe(s) => {
            assert_eq!(s.request_id, 1);
            let forwards: Vec<_> = s
                .subscribe_parameters
                .iter()
                .filter(|p| matches!(p, MessageParameter::Forward { .. }))
                .collect();
            assert_eq!(forwards, vec![&MessageParameter::Forward { forward: true }]);
        }
        other => panic!("{other:?}"),
    }
    assert_eq!(r.track("a").relay_track_id, 1);
    assert!(!r.track("a").get_subscription(CLIENT).unwrap().is_active());
    assert!(r.requests.relay_pending_requests.contains_key(&1));
}

#[test]
fn subscribing_to_nobody_or_beyond_the_limit() {
    let mut r = Relay::new();
    let o = handle_subscribe_message(
        &mut r.client,
        &mut r.tracks,
        &mut r.requests,
        &r.context,
        &subscribe(6, "a"),
        None,
        None,
        false,
    )
    .unwrap();
    assert_eq!(
        refusal(&o.reply.unwrap()),
        (6, RequestErrorCode::DoesNotExist, "Unknown track namespace")
    );
    assert!(r.tracks.tracks.is_empty());
    let e = handle_subscribe_message(
        &mut r.client,
        &mut r.tracks,
        &mut r.requests,
        &r.context,
        &subscribe(1000, "a"),
        Some(PUBLISHER),
        None,
        false,
    );
    assert_eq!(e.unwrap_err(), TerminationCode::TooManyRequests);
}

#[test]
fn everyone_who_waits_is_answered() {
    let mut r = Relay::new();
    let mut others = Vec::new();
    for (connection, request) in [(CLIENT, 0), (3, 40), (4, 50)] {
        let mut context = SessionContext::new(connection, 1000);
        context.set_client();
        let mut client = MOQTClient::new(connection, 0, 0);
        let o = handle_subscribe_message(
            &mut client,
            &mut r.tracks,
            &mut r.requests,
            &context,
            &subscribe(request, "a"),
            Some(PUBLISHER),
            None,
            false,
        )
        .unwrap();
        assert!(o.reply.is_none());
        assert_eq!(o.to_publisher.is_some(), connection == CLIENT);
        others.push(client);
    }
    let ok = SubscribeOk {
        request_id: 1,
        track_alias: 70,
        subscribe_parameters: vec![MessageParameter::Expires { expires: 9 }],
        track_extensions: vec![TrackExtension::DynamicGroups { enabled: true }],
    };
    let context = SessionContext::new(PUBLISHER, 1000);
    // Client 3 has left meanwhile.
    let ds = handle_subscribe_ok_message(
        &mut r.tracks,
        &r.requests,
        &vec![PUBLISHER, CLIENT, 4],
        &context,
        &ok,
    );
    let told: Vec<(usize, u64, u64)> = ds
        .iter()
        .map(|(to, m)| match m {
            ControlMessage::SubscribeOk(m) => (*to, m.request_id, m.track_alias),
            other => panic!("{other:?}"),
        })
        .collect();
    assert_eq!(told, vec![(CLIENT, 0, 1), (4, 50, 1)]);
    assert_eq!(r.tracks.get_name_by_alias(PUBLISHER, 70).unwrap().name, b"a");
    // A later subscriber is answered at once, with the largest position.
    r.track("a").new_datagram(object(5, 6));
    let mut late = MOQTClient::new(5, 0, 0);
    let context = SessionContext::new(5, 1000);
    let o = handle_subscribe_message(
        &mut late,
        &mut r.tracks,
        &mut r.requests,
        &context,
        &subscribe(8, "a"),
        Some(PUBLISHER),
        None,
        false,
    )
    .unwrap();
    match o.reply.unwrap() {
        ControlMessage::SubscribeOk(m) => {
            assert_eq!((m.request_id, m.track_alias), (8, 1));
            assert_eq!(
                m.subscribe_parameters,
                vec![
                    MessageParameter::Expires { expires: 9 },
                    MessageParameter::LargestObject { location: Location::new(5, 6) },
                ]
            );
            assert_eq!(m.track_extensions, vec![TrackExtension::DynamicGroups { enabled: true }]);
        }
        other => panic!("{other:?}"),
    }
}

#[test]
fn a_rejection_goes_to_everyone_and_ends_the_track() {
    let mut r = Relay::new();
    handle_subscribe_message(
        &mut r.client,
        &mut r.tracks,
        &mut r.requests,
        &r.context,
        &subscribe(0, "a"),
        Some(PUBLISHER),
        None,
        false,
    )
    .unwrap();
    let error = RequestError {
        request_id: 1,
        error_code: RequestErrorCode::Unauthorized,
        retry_interval: 5,
        reason_phrase: "no".to_string(),
    };
    let ds =
        handle_subscribe_error_message(&mut r.tracks, &mut r.requests, &vec![CLIENT], &error);
    assert_eq!(ds.len(), 1);
    assert_eq!(ds[0].0, CLIENT);
    assert_eq!(refusal(&ds[0].1), (0, RequestErrorCode::Unauthorized, "no"));
    assert!(r.tracks.tracks.is_empty());
    assert!(r.requests.relay_pending_requests.is_empty());
    let ds =
        handle_subscribe_error_message(&mut r.tracks, &mut r.requests, &vec![CLIENT], &error);
    assert!(ds.is_empty());
}

#[test]
fn a_rejected_track_rejects_later_subscribers() {
    let mut r = Relay::new();
    r.subscribe(0, "a", 70);
    r.track("a").reject(RequestErrorCode::Timeout, "late".to_string());
    assert!(matches!(r.track("a").get_status(), TrackStatus::Rejected { .. }));
    let o = handle_subscribe_message(
        &mut r.client,
        &mut r.tracks,
        &mut r.requests,
        &r.context,
        &subscribe(2, "a"),
        Some(PUBLISHER),
        None,
        false,
    )
    .unwrap();
    assert_eq!(refusal(&o.reply.unwrap()), (2, RequestErrorCode::Timeout, "late"));
}

#[test]
fn objects_are_forwarded_and_their_streams_closed_in_the_end() {
    let mut r = Relay::new();
    r.subscribe(0, "a", 70);
    match r.bring("a", 3, 0, true) {
        TrackAction::Object(ObjectAction::Open { stream_id, priority, first, .. }) => {
            assert_eq!((stream_id.group_id, first), (Some(3), true));
            let expected = moqtail_apps::priority::compute_stream_priority(
                128,
                10,
                GroupOrder::Ascending,
                3,
            );
            assert_eq!(priority, expected);
        }
        other => panic!("{other:?}"),
    }
    assert!(matches!(r.bring("a", 3, 1, false), TrackAction::Object(ObjectAction::Send)));
    // A stream that was lost is opened again with the header that the publisher used.
    let id = build_stream_id(1, &subgroup(3));
    r.client.close_stream(&id);
    assert!(matches!(
        r.bring("a", 3, 2, false),
        TrackAction::Object(ObjectAction::Open { first: false, .. })
    ));
    assert_eq!(r.track("a").get_subscription(CLIENT).unwrap().previous_object_id(&id), Some(2));
    let closed = TrackEvent::StreamClosed { stream_id: id };
    let action = forward_event(&mut r.client, &mut r.tracks, &name("a"), &closed);
    assert!(matches!(action, Some(TrackAction::CloseStream { .. })));
    let datagram = TrackEvent::Datagram { object: object(4, 0) };
    let action = forward_event(&mut r.client, &mut r.tracks, &name("a"), &datagram);
    assert!(matches!(action, Some(TrackAction::Datagram { track_alias: 1 })));
    r.bring("a", 5, 0, true);
    let gone = TrackEvent::PublisherDisconnected { reason: "bye".to_string() };
    match forward_event(&mut r.client, &mut r.tracks, &name("a"), &gone) {
        Some(TrackAction::Done { message: Some(ControlMessage::PublishDone(m)), streams }) => {
            assert_eq!((m.request_id, m.reason_phrase.as_str()), (0, "bye"));
            assert_eq!(m.status_code, PublishDoneStatusCode::TrackEnded);
            assert_eq!(streams, vec![build_stream_id(1, &subgroup(5))]);
        }
        other => panic!("{other:?}"),
    }
    let s = r.track("a").get_subscription(CLIENT).unwrap();
    assert!(s.finished && s.subscription_state.forward);
    assert!(s.send_stream_last_object_ids.is_empty());
    match forward_event(&mut r.client, &mut r.tracks, &name("a"), &gone) {
        Some(TrackAction::Done { message: Some(_), streams }) => assert!(streams.is_empty()),
        other => panic!("{other:?}"),
    }
    assert!(forward_event(&mut r.client, &mut r.tracks, &name("x"), &gone).is_none());
}

#[test]
fn a_reason_that_is_too_long_is_not_sent() {
    let s = Subscription::new(1, name("a"), SubscriptionOrigin::from(subscribe(4, "a")), CLIENT);
    let long = "x".repeat(1025);
    assert!(s.send_publish_done(PublishDoneStatusCode::TrackEnded, &long).is_err());
    let fits = "x".repeat(1024);
    assert!(s.send_publish_done(PublishDoneStatusCode::TrackEnded, &fits).is_ok());
}

#[test]
fn updates_change_forwarding_priority_and_filter() {
    let mut r = Relay::new();
    r.subscribe(0, "a", 70);
    let mut send = |r: &mut Relay, existing: u64, parameters: Vec<MessageParameter>| {
        let u = RequestUpdate { request_id: 9, existing_request_id: existing, parameters };
        handle_request_update(&mut r.client, &mut r.tracks, &u)
    };
    let o = send(&mut r, 0, vec![MessageParameter::Forward { forward: false }]).unwrap();
    assert!(matches!(o.reply, ControlMessage::RequestOk { request_id: 9 }));
    assert!(o.open.is_none());
    // The header of a stream that came while nothing was forwarded is held back.
    assert!(matches!(r.bring("a", 3, 0, true), TrackAction::Object(ObjectAction::Withheld)));
    let o = send(
        &mut r,
        0,
        vec![
            MessageParameter::Forward { forward: true },
            MessageParameter::SubscriberPriority { priority: 7 },
            MessageParameter::SubscriptionFilter {
                filter_type: FilterType::AbsoluteRange,
                start_location: Some(Location::new(3, 2)),
                end_group: Some(4),
            },
        ],
    )
    .unwrap();
    assert_eq!(o.open, Some((build_stream_id(1, &subgroup(3)), subgroup(3))));
    let state = &r.track("a").get_subscription(CLIENT).unwrap().subscription_state;
    assert_eq!((state.forward, state.subscriber_priority, state.end_group), (true, 7, 4));
    assert!(matches!(r.bring("a", 3, 1, false), TrackAction::Object(ObjectAction::Withheld)));
    assert!(matches!(
        r.bring("a", 3, 2, false),
        TrackAction::Object(ObjectAction::Open { first: false, .. })
    ));
    assert!(matches!(r.bring("a", 5, 0, true), TrackAction::Object(ObjectAction::Withheld)));
    assert_eq!(send(&mut r, 77, vec![]).unwrap_err(), TerminationCode::ProtocolViolation);
    r.track("a").remove_subscription(CLIENT);
    let o = send(&mut r, 0, vec![]).unwrap();
    assert_eq!(
        refusal(&o.reply),
        (9, RequestErrorCode::DoesNotExist, "Subscription not found")
    );
}

#[test]
fn unsubscribing_forgets_the_request() {
    let mut r = Relay::new();
    r.subscribe(0, "a", 70);
    r.bring("a", 3, 0, true);
    let streams =
        handle_unsubscribe_message(&mut r.client, &mut r.tracks, &r.context, 0);
    assert_eq!(streams, vec![build_stream_id(1, &subgroup(3))]);
    assert!(r.track("a").get_subscription(CLIENT).is_none());
    assert!(r.client.subscribe_requests.is_empty() && r.client.subscriptions.is_empty());
    assert!(handle_unsubscribe_message(&mut r.client, &mut r.tracks, &r.context, 0).is_empty());
}

fn switch(r: &mut Relay, to: &str, alias: u64) {
    let msg = Switch {
        request_id: 4,
        track: name(to),
        subscription_request_id: 0,
        subscribe_parameters: vec![
            KeyValuePair::VarInt { type_value: 0x10, number: 0 },
            KeyValuePair::VarInt { type_value: 0x10, number: 2 },
            KeyValuePair::VarInt { type_value: 0x20, number: 7 },
            KeyValuePair::Bytes { type_value: 0x21, bytes: vec![9], kept_as: 0 },
        ],
    };
    let relay_id = r.requests.relay_next_request_id;
    let o = handle_switch_message(
        &mut r.client,
        &mut r.tracks,
        &mut r.requests,
        &r.context,
        &msg,
        Some(PUBLISHER),
        None,
    )
    .unwrap();
    assert_eq!(
        o.subscribe.subscribe_parameters,
        vec![
            MessageParameter::Forward { forward: true },
            MessageParameter::SubscriberPriority { priority: 7 },
            MessageParameter::SubscriptionFilter {
                filter_type: FilterType::LatestObject,
                start_location: None,
                end_group: None,
            },
        ]
    );
    let done = conclude_subscribe(&mut r.client, &r.context, &o.subscribe, Ok(()));
    conclude_switch(&mut r.client, &name(to), &o.from, done).unwrap();
    let ok = SubscribeOk {
        request_id: relay_id,
        track_alias: alias,
        subscribe_parameters: vec![],
        track_extensions: vec![],
    };
    let context = SessionContext::new(PUBLISHER, 1000);
    handle_subscribe_ok_message(&mut r.tracks, &r.requests, &vec![CLIENT], &context, &ok);
}

#[test]
fn a_switch_leaves_no_gap_and_no_overlap() {
    let mut r = Relay::new();
    r.subscribe(0, "a", 70);
    r.bring("a", 9, 0, true);
    r.bring("a", 9, 1, false);
    switch(&mut r, "b", 71);
    assert_eq!(r.client.switch_context.get_switch_status(&name("b")), Some(SwitchStatus::Next));
    assert_eq!(
        current_track(&r.client, &r.tracks),
        CurrentTrack::Live { last_sent_max_location: Some(Location::new(9, 1)) }
    );
    // The new track waits until it has reached the group that plays.
    assert!(matches!(r.bring("b", 8, 0, true), TrackAction::Object(ObjectAction::Withheld)));
    assert_eq!(r.client.switch_context.get_switch_status(&name("b")), Some(SwitchStatus::Next));
    // It takes over at the same group, from the next one on.
    assert!(matches!(r.bring("b", 9, 0, true), TrackAction::Object(ObjectAction::Withheld)));
    assert_eq!(r.client.switch_context.get_switch_status(&name("b")), Some(SwitchStatus::Current));
    assert_eq!(r.client.switch_context.get_switch_status(&name("a")), Some(SwitchStatus::Inactive));
    // The old track goes on to the end of its group, and no further.
    assert!(matches!(r.bring("a", 9, 2, false), TrackAction::Object(ObjectAction::Send)));
    assert!(matches!(r.bring("a", 10, 0, true), TrackAction::Object(ObjectAction::Withheld)));
    assert!(matches!(r.bring("b", 9, 5, false), TrackAction::Object(ObjectAction::Withheld)));
    assert!(matches!(
        r.bring("b", 10, 0, true),
        TrackAction::Object(ObjectAction::Open { .. })
    ));
    let b = r.track("b").get_subscription(CLIENT).unwrap();
    assert_eq!(b.subscription_state.start_location, Some(Location::new(10, 0)));
    assert_eq!(b.next_step(), SubscriptionStep::EndJoining);
    forwarding::end_joining(&mut r.tracks, &name("b"), CLIENT);
    let b = r.track("b").get_subscription(CLIENT).unwrap();
    assert_eq!(b.next_step(), SubscriptionStep::Wait);
}

#[test]
fn a_track_that_is_ahead_is_brought_up_from_the_cache() {
    let mut r = Relay::new();
    r.subscribe(0, "a", 70);
    r.bring("a", 9, 0, true);
    switch(&mut r, "b", 71);
    r.bring("b", 12, 3, true);
    let b = r.track("b").get_subscription(CLIENT).unwrap();
    assert_eq!(
        b.next_step(),
        SubscriptionStep::Replay { from: Location::new(10, 0), to: Location::new(12, 3) }
    );
    let cached = |group_id, object_id, datagram| CachedObject {
        group_id,
        subgroup_id: 2,
        object_id,
        publisher_priority: 10,
        has_extensions: true,
        datagram,
    };
    let events =
        replay_events(2, &vec![cached(10, 0, false), cached(10, 1, true), cached(11, 0, false)]);
    let opened: Vec<(u64, bool, Option<u64>, StreamId)> = events
        .iter()
        .map(|e| match e {
            TrackEvent::SubgroupObject { stream_id, object, header_info } => (
                object.location.group,
                header_info.is_some(),
                object.subgroup_id,
                *stream_id,
            ),
            other => panic!("{other:?}"),
        })
        .collect();
    assert_eq!((opened[0].0, opened[0].1, opened[0].2), (10, true, Some(2)));
    assert_eq!((opened[1].0, opened[1].1, opened[1].2), (10, false, None));
    assert_eq!((opened[2].0, opened[2].1), (11, true));
    assert_eq!(opened[0].3, opened[1].3);
    assert_ne!(opened[0].3, opened[2].3);
}

#[test]
fn switching_from_what_does_not_play_violates_the_protocol() {
    let mut r = Relay::new();
    r.subscribe(0, "a", 70);
    let msg = |from| Switch {
        request_id: 4,
        track: name("b"),
        subscription_request_id: from,
        subscribe_parameters: vec![],
    };
    let mut ask = |r: &mut Relay, from: u64| {
        handle_switch_message(
            &mut r.client,
            &mut r.tracks,
            &mut r.requests,
            &r.context,
            &msg(from),
            Some(PUBLISHER),
            None,
        )
        .map(|_| ())
    };
    assert_eq!(ask(&mut r, 5), Err(TerminationCode::ProtocolViolation));
    let at = r.tracks.tracks.position(&name("a")).unwrap();
    let subs = &mut r.tracks.tracks.entries[at].1.subscription_manager.subscriptions;
    subs.entries[0].1.finish();
    assert_eq!(ask(&mut r, 0), Err(TerminationCode::ProtocolViolation));
    assert!(r.tracks.get_track(&name("b")).is_none());
    assert_eq!(
        conclude_switch(&mut r.client, &name("b"), &name("a"), Err(TerminationCode::InternalError)),
        Err(TerminationCode::InternalError)
    );
    assert_eq!(r.client.switch_context.get_switch_status(&name("b")), None);
}

#[test]
fn handlers_pass_over_what_is_not_theirs() {
    let mut r = Relay::new();
    let o = subscribe_handler::handle(
        &mut r.client,
        &mut r.tracks,
        &mut r.requests,
        &vec![],
        &r.context,
        &ControlMessage::ClientSetup,
        None,
        None,
    );
    assert!(matches!(o, Ok(HandlerOutcome::Nothing)));
    let o = subscribe_handler::handle(
        &mut r.client,
        &mut r.tracks,
        &mut r.requests,
        &vec![],
        &r.context,
        &ControlMessage::Subscribe(subscribe(0, "a")),
        None,
        Some(PUBLISHER),
    );
    assert!(matches!(o, Ok(HandlerOutcome::Subscribe { .. })));
    let o = subscribe_handler::handle(
        &mut r.client,
        &mut r.tracks,
        &mut r.requests,
        &vec![],
        &r.context,
        &ControlMessage::Unsubscribe { request_id: 0 },
        None,
        None,
    );
    assert!(matches!(o, Ok(HandlerOutcome::CloseStreams(_))));
    let o = fetch_handler::handle(
        &mut r.client,
        &r.tracks,
        &r.requests,
        &r.context,
        &ControlMessage::ClientSetup,
        1,
    );
    assert!(matches!(o, Ok(FetchOutcome::Nothing)));
}

#[test]
fn subscription_managers_refuse_a_second_subscription() {
    let mut m = SubscriptionManager::new(1, name("a"));
    let origin = |id| SubscriptionOrigin::from(subscribe(id, "a"));
    assert!(m.add_subscription(5, origin(0)).is_ok());
    assert!(m.add_subscription(6, origin(2)).is_ok());
    assert!(m.add_subscription(5, origin(4)).is_err());
    let mut all = m.get_all_subscriptions();
    all.sort();
    assert_eq!(all, vec![5, 6]);
    let mut to = m.recipients();
    to.sort();
    assert_eq!(to, vec![5, 6]);
    assert_eq!(m.send_event_to_subscribers(&vec![6]), vec![6]);
    assert!(m.remove_subscription(5).is_empty());
    assert!(m.get_subscription(5).is_none());
    assert_eq!(m.get_subscription(6).unwrap().request_id, 2);
}

#[test]
fn subscriptions_end_once() {
    let mut s = Subscription::new(1, name("a"), SubscriptionOrigin::from(subscribe(4, "a")), CLIENT);
    let id = build_stream_id(1, &subgroup(2));
    s.stream_opened(id);
    assert_eq!(s.receive(true), ReceiveStep::Handle);
    assert_eq!(s.receive(false), ReceiveStep::FinishAndDropReceiver);
    assert_eq!(s.finish(), vec![id]);
    assert!(s.finish().is_empty());
    assert!(s.is_finished() && !s.is_active() && s.is_forwarding());
    assert_eq!(s.receive(true), ReceiveStep::DropReceiver);
    assert_eq!(s.next_step(), SubscriptionStep::Stop);
    assert_eq!(s.subscriber(), CLIENT);
}

#[test]
fn tracks_keep_publishers_and_the_largest_position() {
    let mut t = Track::new(3, name("a"), TrackStatus::Pending);
    assert!(!t.has_publishers());
    t.add_publisher(1, 10);
    t.add_publisher(2, 20);
    let (alias, event) = t.remove_publisher(1);
    assert_eq!(alias, Some(10));
    assert!(event.is_none());
    let (alias, event) = t.remove_publisher(9);
    assert!(alias.is_none() && event.is_none());
    let (alias, event) = t.remove_publisher(2);
    assert_eq!(alias, Some(20));
    assert!(matches!(event, Some(TrackEvent::PublisherDisconnected { .. })));
    t.new_datagram(object(5, 6));
    t.new_datagram(object(4, 9));
    assert_eq!(t.largest_location, Location::new(5, 6));
    let id = build_stream_id(3, &subgroup(6));
    t.new_subgroup_object(id, object(6, 0), Some(subgroup(6)));
    assert_eq!(t.active_subgroup_headers.get(&id), Some(&subgroup(6)));
    t.stream_closed(id);
    assert!(t.active_subgroup_headers.is_empty());
    t.set_track_extensions(vec![TrackExtension::DynamicGroups { enabled: false }]);
    assert_eq!(t.track_extensions.len(), 1);
}

fn standalone(request_id: u64, track: &str, start: Location, end: Location) -> Fetch {
    Fetch::new_standalone(request_id, name(track), start, end, vec![])
}

#[test]
fn fetches_are_accepted_or_refused() {
    let mut r = Relay::new();
    r.subscribe(0, "a", 70);
    r.track("a").new_datagram(object(8, 3));
    let mut ask = |r: &mut Relay, f: &Fetch| {
        let d = handle_fetch_message(&mut r.client, &r.tracks, &r.context, f, 2);
        let mut told = Vec::new();
        while let Some(m) = r.client.next_message() {
            told.push(m);
        }
        (d, told)
    };
    let (d, told) = ask(&mut r, &standalone(10, "a", Location::new(2, 1), Location::new(4, 0)));
    let d = d.unwrap().unwrap();
    assert_eq!((d.start, d.end, d.group_id), (Location::new(2, 1), Location::new(4, 0), 2));
    match &told[..] {
        [ControlMessage::FetchOk(ok)] => {
            assert_eq!((ok.request_id, ok.end_location), (10, Location::new(4, 0)))
        }
        other => panic!("{other:?}"),
    }
    assert!(r.client.fetch_cancel_senders.contains_key(&10));
    assert_eq!(r.client.incoming_fetch_requests.get(&10).unwrap().requested_by, CLIENT);

    let (d, told) = ask(&mut r, &standalone(11, "x", Location::new(0, 0), Location::new(1, 0)));
    assert!(d.unwrap().is_none());
    assert_eq!(refusal(&told[0]), (11, RequestErrorCode::DoesNotExist, "Track does not exist"));

    let joining = |id, kind, start| Fetch::new_joining(id, kind, 0, start, vec![]).unwrap();
    let (d, _) = ask(&mut r, &joining(12, FetchType::RelativeFetch, 0));
    let d = d.unwrap().unwrap();
    assert_eq!((d.start, d.end), (Location::new(8, 0), Location::new(8, 4)));
    let (d, _) = ask(&mut r, &joining(13, FetchType::RelativeFetch, 3));
    assert_eq!(d.unwrap().unwrap().start, Location::new(5, 0));
    let (d, _) = ask(&mut r, &joining(14, FetchType::AbsoluteFetch, 3));
    assert_eq!(d.unwrap().unwrap().start, Location::new(3, 0));
    let (d, told) = ask(&mut r, &joining(15, FetchType::RelativeFetch, 9));
    assert!(d.unwrap().is_none());
    assert_eq!(refusal(&told[0]), (15, RequestErrorCode::InvalidRange, "Invalid range"));
    let (d, _) = ask(&mut r, &standalone(1000, "a", Location::new(0, 0), Location::new(1, 0)));
    assert!(matches!(d, Err(TerminationCode::TooManyRequests)));
    assert!(Fetch::new_joining(1, FetchType::Standalone, 0, 0, vec![]).is_none());
}

#[test]
fn a_delivery_takes_every_group_once() {
    let mut r = Relay::new();
    r.subscribe(0, "a", 70);
    let f = standalone(10, "a", Location::new(2, 1), Location::new(9, 4));
    let mut d = handle_fetch_message(&mut r.client, &r.tracks, &r.context, &f, 1).unwrap().unwrap();
    let cached = vec![3, 4, 7];
    let mut steps = Vec::new();
    loop {
        let step = d.next_step(&cached, false);
        steps.push(step);
        if step == DeliveryStep::Finished {
            break;
        }
    }
    assert_eq!(
        steps,
        vec![
            DeliveryStep::FetchUpstream { gap_start: 2, gap_end: 2 },
            DeliveryStep::ServeGroup { group_id: 3 },
            DeliveryStep::ServeGroup { group_id: 4 },
            DeliveryStep::SkipGap { gap_start: 5, gap_end: 6 },
            DeliveryStep::ServeGroup { group_id: 7 },
            DeliveryStep::SkipGap { gap_start: 8, gap_end: 9 },
            DeliveryStep::Finished,
        ]
    );
    assert_eq!(d.objects_to_send(2, &vec![0, 1, 2]), vec![1, 2]);
    assert_eq!(d.objects_to_send(5, &vec![0, 1, 2]), vec![0, 1, 2]);
    assert_eq!(d.objects_to_send(9, &vec![2, 3, 4, 5]), vec![0, 1]);
    assert!(d.needs_stream());
    d.object_sent();
    assert!(!d.needs_stream());
    assert_eq!(conclude_fetch(&mut r.client, &d), FetchEnding::Close);
    assert!(r.client.incoming_fetch_requests.is_empty());
}

#[test]
fn fetches_are_cancelled_and_concluded() {
    let mut r = Relay::new();
    r.subscribe(0, "a", 70);
    let f = standalone(10, "a", Location::new(2, 0), Location::new(4, 0));
    let mut d = handle_fetch_message(&mut r.client, &r.tracks, &r.context, &f, 1).unwrap().unwrap();
    let cancel = ControlMessage::FetchCancel { request_id: 10 };
    let o = fetch_handler::handle(&mut r.client, &r.tracks, &r.requests, &r.context, &cancel, 1);
    assert!(matches!(o, Ok(FetchOutcome::Stop { request_id: 10 })));
    let o = fetch_handler::handle(&mut r.client, &r.tracks, &r.requests, &r.context, &cancel, 1);
    assert!(matches!(o, Ok(FetchOutcome::Nothing)));
    assert_eq!(d.next_step(&vec![], true), DeliveryStep::Cancelled);
    assert_eq!(conclude_fetch(&mut r.client, &d), FetchEnding::CloseCancelled);

    let f = standalone(12, "a", Location::new(2, 0), Location::new(1, 0));
    let mut d = handle_fetch_message(&mut r.client, &r.tracks, &r.context, &f, 1).unwrap().unwrap();
    assert_eq!(d.next_step(&vec![], false), DeliveryStep::Finished);
    while r.client.next_message().is_some() {}
    assert_eq!(conclude_fetch(&mut r.client, &d), FetchEnding::OpenAndClose);
    match r.client.next_message() {
        Some(ControlMessage::FetchOk(ok)) => assert_eq!(ok.end_location, Location::new(2, 0)),
        other => panic!("{other:?}"),
    }
}

#[test]
fn gaps_are_fetched_from_the_publisher() {
    let mut r = Relay::new();
    r.subscribe(0, "a", 70);
    let f = standalone(10, "a", Location::new(2, 0), Location::new(4, 0));
    let mut d = handle_fetch_message(&mut r.client, &r.tracks, &r.context, &f, 1).unwrap().unwrap();
    let at = r.tracks.tracks.position(&name("a")).unwrap();
    let track = &r.tracks.tracks.entries[at].1;
    let id = send_upstream_fetch_for_range(
        &mut r.publisher,
        &mut r.requests,
        track,
        CLIENT,
        &f,
        2,
        3,
    )
    .unwrap();
    match r.publisher.next_message() {
        Some(ControlMessage::Fetch(f)) => {
            assert_eq!(f.request_id, id);
            let props = f.standalone_fetch_props.unwrap();
            assert_eq!(props.start_location, Location::new(2, 0));
            assert_eq!(props.end_location, Location::new(3, 0));
        }
        other => panic!("{other:?}"),
    }
    assert_eq!(r.publisher.outgoing_fetch_requests.get(&id).unwrap().track_alias, 70);
    let o = CachedObject {
        group_id: 2,
        subgroup_id: 0,
        object_id: 0,
        publisher_priority: 1,
        has_extensions: false,
        datagram: false,
    };
    assert!(d.upstream_event(UpstreamFetchEvent::Object(o), false));
    assert!(!d.upstream_event(UpstreamFetchEvent::TimedOut, false));
    assert!(!d.cancelled);
    assert!(!d.upstream_event(UpstreamFetchEvent::Object(o), true));
    assert!(d.cancelled);
    let ok = ControlMessage::FetchOk(FetchOk {
        request_id: id,
        end_of_track: false,
        end_location: Location::new(3, 0),
    });
    let handled = fetch_handler::handle(&mut r.client, &r.tracks, &r.requests, &r.context, &ok, 1);
    assert!(matches!(handled, Ok(FetchOutcome::Nothing)));
    // The stream of the fetch is told from the client's own streams.
    let mut context = SessionContext::new(PUBLISHER, 10);
    context.set_client();
    let header = HeaderInfo::Fetch { request_id: id };
    let u = UniStream::new(&context, &r.publisher, &r.requests, Some(header)).unwrap();
    assert_eq!((u.track_alias, u.upstream), (70, Some(id)));
    end_upstream_fetch(&mut r.publisher, &mut r.requests, id);
    assert!(r.publisher.outgoing_fetch_requests.is_empty());
    let handled = fetch_handler::handle(&mut r.client, &r.tracks, &r.requests, &r.context, &ok, 1);
    assert!(matches!(handled, Err(TerminationCode::InternalError)));
    // A publisher that never told its alias cannot be asked.
    let mut stranger = MOQTClient::new(8, 0, 0);
    let track = &r.tracks.tracks.entries[at].1;
    assert!(send_upstream_fetch_for_range(
        &mut stranger,
        &mut r.requests,
        track,
        CLIENT,
        &f,
        2,
        3
    )
    .is_none());
}

#[test]
fn the_version_is_one_that_both_speak() {
    let header = |v: &str| vec![("wt-available-protocols".to_string(), v.to_string())];
    let (_, answer) = Session::new(&header("\"moqt-15\", \"moqt-16\"")).unwrap();
    assert_eq!(answer, vec![("wt-protocol".to_string(), "moqt-16".to_string())]);
    assert!(Session::new(&header("\"moqt-15\"")).is_err());
    assert!(Session::new(&header("moqt-16")).is_err());
    assert!(Session::new(&vec![]).is_err());
    assert_eq!(
        Session::parse_available_protocols(&header(" \"a\" ,\"b\"")),
        vec!["\"a\"", "\"b\""]
    );
    assert_eq!(Session::select_protocol(&vec!["\"moqt-16\"".to_string()]), Some("moqt-16".to_string()));
}

#[test]
fn tokens_are_logged_where_they_are_registered() {
    let token = |alias_type, value: Option<&[u8]>| SetupParameter::AuthorizationToken {
        alias_type,
        value: value.map(|v| v.to_vec()),
    };
    let ps = vec![
        token(1, Some(b"four")),
        token(3, Some(b"five")),
        token(1, None),
        SetupParameter::Other,
        token(1, Some(b"six")),
    ];
    assert_eq!(tokens_to_log(true, &ps), vec![b"four".to_vec(), b"six".to_vec()]);
    assert!(tokens_to_log(false, &ps).is_empty());
}

#[test]
fn tokens_are_read_from_the_setup() {
    let pair = |type_value, token: AuthorizationToken| KeyValuePair::Bytes {
        type_value,
        bytes: token.serialize().unwrap().to_vec(),
        kept_as: 0,
    };
    let value = |v: &'static [u8]| bytes::Bytes::from_static(v);
    let pairs = vec![
        KeyValuePair::VarInt { type_value: 2, number: 100 },
        pair(3, AuthorizationToken::new_register(5, 0, value(b"first"))),
        pair(3, AuthorizationToken::new_use_value(0, value(b"other"))),
        pair(3, AuthorizationToken::new_use_alias(5)),
        pair(1, AuthorizationToken::new_register(5, 0, value(b"path"))),
        KeyValuePair::Bytes { type_value: 3, bytes: vec![], kept_as: 0 },
        pair(3, AuthorizationToken::new_register(6, 0, value(b"second"))),
    ];
    assert_eq!(setup_tokens(true, &pairs), vec![b"first".to_vec(), b"second".to_vec()]);
    assert!(setup_tokens(false, &pairs).is_empty());
}

#[test]
fn parameters_that_cannot_be_read_are_left_out() {
    let number = |type_value, number| KeyValuePair::VarInt { type_value, number };
    let bytes = |type_value, bytes: &[u8]| KeyValuePair::Bytes {
        type_value,
        bytes: bytes.to_vec(),
        kept_as: 77,
    };
    let filter = |filter_type, start_location, end_group| MessageParameter::SubscriptionFilter {
        filter_type,
        start_location,
        end_group,
    };
    let at = Location::new(5, 6);
    let cases = [
        (number(0x02, 9), Some(MessageParameter::DeliveryTimeout { timeout: 9 })),
        (number(0x02, 0), None),
        (number(0x08, 0), Some(MessageParameter::Expires { expires: 0 })),
        (number(0x10, 0), Some(MessageParameter::Forward { forward: false })),
        (number(0x10, 1), Some(MessageParameter::Forward { forward: true })),
        (number(0x10, 2), None),
        (number(0x20, 255), Some(MessageParameter::SubscriberPriority { priority: 255 })),
        (number(0x20, 256), None),
        (number(0x22, 0), Some(MessageParameter::GroupOrder { order: GroupOrder::Original })),
        (number(0x22, 1), Some(MessageParameter::GroupOrder { order: GroupOrder::Ascending })),
        (number(0x22, 2), Some(MessageParameter::GroupOrder { order: GroupOrder::Descending })),
        (number(0x22, 3), None),
        (number(0x32, 4), Some(MessageParameter::NewGroupRequest { group: 4 })),
        (number(0x04, 1), None),
        (number(0x03, 1), None),
        (bytes(0x03, &[2, 8]), Some(MessageParameter::AuthorizationToken { token: 77 })),
        (bytes(0x03, &[9, 8]), None),
        (bytes(0x09, &[5, 6]), Some(MessageParameter::LargestObject { location: at })),
        (bytes(0x09, &[5]), None),
        (bytes(0x21, &[1]), Some(filter(FilterType::NextGroupStart, None, None))),
        (bytes(0x21, &[2]), Some(filter(FilterType::LatestObject, None, None))),
        (bytes(0x21, &[3, 5, 6]), Some(filter(FilterType::AbsoluteStart, Some(at), None))),
        (bytes(0x21, &[4, 5, 6, 8]), Some(filter(FilterType::AbsoluteRange, Some(at), Some(8)))),
        (bytes(0x21, &[4, 5, 6]), None),
        (bytes(0x10, &[1]), None),
    ];
    for (pair, expected) in &cases {
        assert_eq!(read_parameter(pair), *expected, "{pair:?}");
    }
    let (pairs, expected): (Vec<KeyValuePair>, Vec<Option<MessageParameter>>) =
        cases.into_iter().unzip();
    assert_eq!(read_parameters(&pairs), expected.into_iter().flatten().collect::<Vec<_>>());
}

fn closing(a: &SessionAction) -> (u32, &str) {
    match a {
        SessionAction::Close { code, reason } => (*code, reason.as_str()),
        other => panic!("{other:?}"),
    }
}

#[test]
fn sessions_are_set_up_and_ended() {
    let mut c = SessionContext::new(1, 100);
    assert_eq!(Session::negotiate(&Ok(ControlMessage::ClientSetup), &c), Ok(101));
    assert_eq!(
        Session::negotiate(&Ok(ControlMessage::Other), &c),
        Err(TerminationCode::ProtocolViolation)
    );
    assert_eq!(
        Session::negotiate(&Err(TerminationCode::ControlMessageTimeout), &c),
        Err(TerminationCode::ControlMessageTimeout)
    );
    assert_eq!(
        Session::conclude_negotiation(&mut c, false),
        Err(TerminationCode::InternalError)
    );
    assert!(c.get_client().is_none());
    assert_eq!(Session::conclude_negotiation(&mut c, true), Ok(()));
    assert!(c.get_client().is_some());
    assert_eq!(closing(&Session::setup_failed()), (0, "Setup failed"));
    assert_eq!(
        closing(&Session::control_stream_refused()),
        (1, "Error in control stream handler")
    );
    let a = Session::control_stream_ended(&mut c, TerminationCode::ProtocolViolation);
    assert_eq!(closing(&a), (3, "Error in control stream handler"));
    assert_eq!(Session::wait_for_streams(&c, None), ArrivalStep::Wait);
    let a = Session::control_stream_ended(&mut c, TerminationCode::NoError);
    assert!(matches!(a, SessionAction::MarkClosed));
    assert_eq!(Session::wait_for_streams(&c, None), ArrivalStep::Stop);
    assert_eq!(
        Session::wait_for_streams(&c, Some(Arrival::DataStream)),
        ArrivalStep::HandleUniStream
    );
    assert_eq!(
        Session::wait_for_streams(&c, Some(Arrival::RequestStream)),
        ArrivalStep::HandleRequestStream
    );
    assert_eq!(
        Session::wait_for_streams(&c, Some(Arrival::Datagram)),
        ArrivalStep::HandleDatagram
    );
    assert_eq!(Session::wait_for_streams(&c, Some(Arrival::Failed)), ArrivalStep::Wait);
}

#[test]
fn control_stream_events() {
    let step = Session::handle_control_messages(ControlEvent::Received(Ok(ControlMessage::Other)));
    assert!(matches!(step, ControlStep::Handle(ControlMessage::Other)));
    let e = TerminationCode::ProtocolViolation;
    match Session::handle_control_messages(ControlEvent::Received(Err(e))) {
        ControlStep::End { code, action: None } => assert_eq!(code, e),
        other => panic!("{other:?}"),
    }
    assert!(matches!(
        Session::handle_control_messages(ControlEvent::Sent(Ok(()))),
        ControlStep::Continue
    ));
    match Session::handle_control_messages(ControlEvent::Handled(Err(e))) {
        ControlStep::End { code, action: Some(a) } => {
            assert_eq!(code, e);
            assert_eq!(closing(&a), (3, "Error handling PublishNamespace message"));
        }
        other => panic!("{other:?}"),
    }
}

#[test]
fn request_streams_are_for_namespaces() {
    let mut c = SessionContext::new(1, 100);
    let ask = |request_id| Ok(ControlMessage::SubscribeNamespace { request_id });
    assert!(matches!(Session::handle_request_stream(&c, &ask(1)), RequestStep::Ignore));
    c.set_client();
    assert!(matches!(
        Session::handle_request_stream(&c, &ask(1)),
        RequestStep::SubscribeNamespace { request_id: 1 }
    ));
    match Session::handle_request_stream(&c, &ask(100)) {
        RequestStep::Act(a) => assert_eq!(closing(&a), (7, "Request ID exceeds maximum")),
        other => panic!("{other:?}"),
    }
    match Session::handle_request_stream(&c, &Ok(ControlMessage::Other)) {
        RequestStep::Act(a) => {
            assert_eq!(closing(&a), (3, "Unsupported message type on request bi-stream"))
        }
        other => panic!("{other:?}"),
    }
    assert!(matches!(
        Session::handle_request_stream(&c, &Err(TerminationCode::NoError)),
        RequestStep::Ignore
    ));
    let step = Session::dispatch_request_stream_message;
    assert!(matches!(step(NamespaceEvent::Handled { ok: true }), NamespaceStep::Continue));
    assert!(matches!(step(NamespaceEvent::Handled { ok: false }), NamespaceStep::End));
    assert!(matches!(step(NamespaceEvent::Written { ok: false }), NamespaceStep::Cancel));
    assert!(matches!(step(NamespaceEvent::ChannelGone), NamespaceStep::End));
    assert!(matches!(step(NamespaceEvent::StreamEnded), NamespaceStep::Cancel));
    assert!(matches!(step(NamespaceEvent::ExtraMessage), NamespaceStep::Act(_)));
}

#[test]
fn data_streams_find_their_track() {
    let mut r = Relay::new();
    r.subscribe(0, "a", 70);
    let mut context = SessionContext::new(PUBLISHER, 10);
    assert!(matches!(
        UniStream::new(&context, &r.publisher, &r.requests, Some(subgroup(3))),
        Err(TerminationCode::InternalError)
    ));
    context.set_client();
    assert!(UniStream::new(&context, &r.publisher, &r.requests, None).is_err());
    let mut u = UniStream::new(&context, &r.publisher, &r.requests, Some(subgroup(3))).unwrap();
    for _ in 0..5 {
        assert_eq!(u.find_track(&r.tracks, 99), LookupStep::Retry);
    }
    assert_eq!(
        u.find_track(&r.tracks, PUBLISHER),
        LookupStep::Failed(TerminationCode::InternalError)
    );
    let mut u = UniStream::new(&context, &r.publisher, &r.requests, Some(subgroup(3))).unwrap();
    assert_eq!(u.find_track(&r.tracks, PUBLISHER), LookupStep::Found);
    let at = r.tracks.tracks.position(&name("a")).unwrap();
    let track = &mut r.tracks.tracks.entries[at].1;
    let (event, fetched) = u.new_object(track, object(3, 0), None);
    assert!(fetched.is_none());
    assert!(matches!(event, TrackEvent::SubgroupObject { header_info: Some(_), .. }));
    let (event, _) = u.new_object(track, object(3, 1), None);
    assert!(matches!(event, TrackEvent::SubgroupObject { header_info: None, .. }));
    assert!(matches!(u.end(track), Some(TrackEvent::StreamClosed { .. })));
    assert_eq!(track.largest_location, Location::new(3, 1));
    let (n, event) = Session::handle_datagram(&mut r.tracks, PUBLISHER, object(5, 0)).unwrap();
    assert_eq!(n.name, b"a");
    assert!(matches!(event, TrackEvent::Datagram { .. }));
    assert!(Session::handle_datagram(&mut r.tracks, 99, object(5, 0)).is_none());
}

#[test]
fn datagrams_are_read_and_go_to_their_track() {
    let mut r = Relay::new();
    r.subscribe(0, "a", 70);
    let bytes = |alias, priority| {
        let payload = bytes::Bytes::from_static(b"payload");
        Datagram::new_payload(alias, 5, 6, priority, None, payload, false).serialize().unwrap()
    };
    for (priority, expected) in [(Some(9), 9), (None, 0)] {
        let (n, event) =
            Session::handle_datagram_bytes(&mut r.tracks, PUBLISHER, &bytes(70, priority)).unwrap();
        assert_eq!(n.name, b"a");
        match event {
            TrackEvent::Datagram { object } => {
                assert_eq!((object.track_alias, object.publisher_priority), (70, expected));
                assert_eq!(object.location, Location::new(5, 6));
                assert_eq!(object.subgroup_id, None);
            }
            other => panic!("{other:?}"),
        }
    }
    assert_eq!(r.track("a").largest_location, Location::new(5, 6));
    let cut = bytes(70, None);
    for (connection, b) in [(PUBLISHER, &bytes(71, None)[..]), (99, &cut[..]), (PUBLISHER, &cut[..2])] {
        assert!(Session::handle_datagram_bytes(&mut r.tracks, connection, b).is_none());
    }
    assert!(Session::handle_datagram_bytes(&mut r.tracks, PUBLISHER, &[]).is_none());
}

#[test]
fn the_end_of_a_connection_leaves_no_trace() {
    let mut r = Relay::new();
    r.subscribe(0, "a", 70);
    r.subscribe(2, "b", 71);
    r.bring("a", 3, 0, true);
    r.track("b").add_publisher(8, 5);
    let mut publisher = SessionContext::new(PUBLISHER, 10);
    let end = Session::handle_connection_close(&mut r.tracks, &mut publisher);
    assert!(publisher.is_connection_closed);
    // Track a has lost its last publisher, track b has another.
    assert_eq!(end.orphaned.len(), 1);
    assert_eq!(end.orphaned[0].track.full_track_name.name, b"a");
    assert!(matches!(end.orphaned[0].event, TrackEvent::PublisherDisconnected { .. }));
    assert!(r.tracks.get_track(&name("a")).is_none());
    assert!(r.tracks.get_name_by_alias(PUBLISHER, 70).is_none());
    assert!(r.tracks.get_name_by_alias(PUBLISHER, 71).is_none());
    assert!(r.tracks.get_track(&name("b")).unwrap().get_subscription(CLIENT).is_some());
    r.bring("b", 4, 0, true);
    let id = r.track("b").relay_track_id;
    let mut context = r.context;
    let end = Session::handle_connection_close(&mut r.tracks, &mut context);
    assert!(end.orphaned.is_empty());
    assert_eq!(end.streams, vec![build_stream_id(id, &subgroup(4))]);
    assert!(r.tracks.get_track(&name("b")).unwrap().get_subscription(CLIENT).is_none());
}
