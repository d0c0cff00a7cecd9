//! The publisher, the subscriber and the timeline.
use moqtail::model::data::datagram::Datagram;
use moqtail_apps::cli::DeliveryMode;
use moqtail_apps::control::{ControlMessage, Subscribe, SubscribeOk};
use moqtail_apps::location::Location;
use moqtail_apps::message::{GroupOrder, MessageParameter};
use moqtail_apps::names::FullTrackName;
use moqtail_apps::publisher::{
    self, check_namespace_reply, check_publish_reply, choose_alias, datagram_object, due_ms, frame_size,
    generate_payload, group_header, publish_message, run_multi, stream_object, NamespaceAction,
    NamespacePublisher, PublishConfig, PublishFailure, PublishMultiConfig, Schedule, SendStep, TrackSpec,
};
use moqtail_apps::stats::ReceptionStats;
use moqtail_apps::stream_id::HeaderInfo;
use moqtail_apps::subscriber::{
    receive_datagram, receive_datagrams, run, subscribed, DatagramEvent, DatagramVerdict, SubscribeConfig,
    SubscribeFailure, TrackLabels,
};
use moqtail_apps::timeline::{Timeline, TimelineRecord};
use moqtail_apps::timeline_producer::{PollStep, TimelineProducer};

fn name(n: &str) -> FullTrackName {
    FullTrackName { namespace: b"ns".to_vec(), name: n.as_bytes().to_vec() }
}

#[test]
fn payloads_are_reproducible() {
    let long = generate_payload(64);
    assert_eq!(long.len(), 64);
    assert_eq!(&long[..10], &generate_payload(10)[..]);
    assert!(generate_payload(0).is_empty());
    let mut seed: u64 = 0x123456789abcdef0;
    for b in long {
        seed ^= seed << 13;
        seed ^= seed >> 7;
        seed ^= seed << 17;
        assert_eq!(b, (seed & 0xff) as u8);
    }
}

#[test]
fn objects_are_scheduled_group_by_group_without_a_gap() {
    let mut s = Schedule::new(2, 2);
    let mut steps = Vec::new();
    loop {
        let step = s.next_step();
        steps.push(step);
        if step == SendStep::Done {
            break;
        }
    }
    let object = |group_id, object_id, previous, total| SendStep::Object {
        group_id,
        object_id,
        previous,
        total,
    };
    assert_eq!(
        steps,
        vec![
            SendStep::OpenGroup { group_id: 0 },
            object(0, 0, None, 0),
            object(0, 1, Some(0), 1),
            SendStep::CloseGroup { group_id: 0 },
            SendStep::OpenGroup { group_id: 1 },
            object(1, 0, None, 2),
            object(1, 1, Some(0), 3),
            SendStep::CloseGroup { group_id: 1 },
            SendStep::Done,
        ]
    );
    assert_eq!(s.next_step(), SendStep::Done);
    assert_eq!(Schedule::new(0, 5).next_step(), SendStep::Done);
    let mut empty = Schedule::new(1, 0);
    assert_eq!(empty.next_step(), SendStep::OpenGroup { group_id: 0 });
    assert_eq!(empty.next_step(), SendStep::CloseGroup { group_id: 0 });
    assert_eq!(due_ms(40, 26), 1040);
    assert_eq!(due_ms(u64::MAX, u64::MAX), u64::MAX as u128 * u64::MAX as u128);
}

#[test]
fn frames_headers_and_objects() {
    assert_eq!((frame_size(0, 9, 4), frame_size(1, 9, 4)), (9, 4));
    match group_header(7, 3, 128) {
        HeaderInfo::Subgroup { header } => {
            assert_eq!((header.track_alias, header.group_id), (7, 3));
            assert_eq!((header.subgroup_id, header.publisher_priority), (Some(1), Some(128)));
            assert!(header.has_extensions && header.contains_end_of_group);
        }
        other => panic!("{other:?}"),
    }
    let o = stream_object(7, 3, 2);
    assert_eq!((o.track_alias, o.location), (7, Location::new(3, 2)));
    assert_eq!((o.publisher_priority, o.subgroup_id), (1, Some(3)));
    let d = datagram_object(7, 3, 2, 99);
    assert_eq!((d.location, d.publisher_priority, d.subgroup_id), (Location::new(3, 2), 99, None));
    let t = TrackSpec::new("x".to_string(), 5);
    assert_eq!((t.name.as_str(), t.payload_size, t.p_ratio, t.start_delay_ms), ("x", 5, None, 0));
    assert_eq!(choose_alias(Some(u64::MAX), 1), u64::MAX);
    assert_eq!(choose_alias(None, 0xffff_ffff_ffff_fffe), 0x3fff_ffff_ffff_fffe);
}

#[test]
fn announcements_and_their_replies() {
    match publish_message(4, &name("t"), 9, GroupOrder::Descending) {
        ControlMessage::Publish(p) => {
            assert_eq!((p.request_id, p.track_alias), (4, 9));
            assert_eq!(
                p.parameters,
                vec![
                    MessageParameter::GroupOrder { order: GroupOrder::Descending },
                    MessageParameter::LargestObject { location: Location::new(0, 0) },
                    MessageParameter::Forward { forward: true },
                ]
            );
        }
        other => panic!("{other:?}"),
    }
    let config = PublishConfig {
        namespace: "ns".to_string(),
        track_name: "demo".to_string(),
        delivery_mode: DeliveryMode::Subgroup,
        group_count: 1,
        interval: 40,
        objects_per_group: 25,
        payload_size: 10,
        track_alias: 9,
        publisher_priority: 128,
        group_order: GroupOrder::Ascending,
    };
    match publisher::run(&config) {
        ControlMessage::Publish(p) => {
            assert_eq!((p.request_id, p.track_alias), (0, 9));
            assert_eq!((&p.track.namespace[..], &p.track.name[..]), (&b"\x01\x02ns"[..], &b"demo"[..]));
            let order = MessageParameter::GroupOrder { order: GroupOrder::Ascending };
            assert_eq!(p.parameters[0], order);
        }
        other => panic!("{other:?}"),
    }
    assert_eq!(check_publish_reply(&Ok(ControlMessage::PublishOk { request_id: 4 })), Ok(()));
    assert_eq!(
        check_publish_reply(&Ok(ControlMessage::RequestOk { request_id: 4 })),
        Err(PublishFailure::UnexpectedMessage)
    );
    assert_eq!(check_publish_reply(&Err(())), Err(PublishFailure::StreamEnded));
    assert_eq!(check_namespace_reply(0, &Ok(ControlMessage::RequestOk { request_id: 0 })), Ok(()));
    assert_eq!(
        check_namespace_reply(0, &Ok(ControlMessage::RequestOk { request_id: 3 })),
        Err(PublishFailure::OtherRequest { expected: 0, got: 3 })
    );
    assert_eq!(
        check_namespace_reply(0, &Ok(ControlMessage::PublishOk { request_id: 0 })),
        Err(PublishFailure::UnexpectedMessage)
    );
    assert_eq!(check_namespace_reply(0, &Err(())), Err(PublishFailure::StreamEnded));
}

#[test]
fn several_tracks_are_announced_in_order() {
    let config = |names: &[&str]| PublishMultiConfig {
        namespace: "/live/cam".to_string(),
        tracks: names
            .iter()
            .map(|n| TrackSpec {
                name: n.to_string(),
                payload_size: 100,
                p_ratio: None,
                start_delay_ms: 0,
            })
            .collect(),
        objects_per_group: 1,
        interval_ms: 40,
        group_count: 1,
        publisher_priority: 128,
    };
    assert!(run_multi(&config(&[])).is_none());
    let ms = run_multi(&config(&["a", "b"])).unwrap();
    let ids: Vec<(u64, u64, Vec<u8>)> = ms
        .into_iter()
        .map(|m| match m {
            ControlMessage::Publish(p) => {
                assert_eq!(p.track.namespace, b"\x02\x04live\x03cam");
                (p.request_id, p.track_alias, p.track.name)
            }
            other => panic!("{other:?}"),
        })
        .collect();
    assert_eq!(ids, vec![(0, 1, b"a".to_vec()), (1, 2, b"b".to_vec())]);
}

#[test]
fn namespace_publisher_serves_each_subscription_under_its_own_alias() {
    let mut p = NamespacePublisher::new();
    let ask = |id| {
        Ok(ControlMessage::Subscribe(Subscribe::new_latest_object(id, name("t"), Vec::new())))
    };
    for (id, alias) in [(5, 1), (8, 2)] {
        match p.run_namespace(&ask(id)) {
            NamespaceAction::Serve { reply: ControlMessage::SubscribeOk(ok), track_alias } => {
                assert_eq!((ok.request_id, ok.track_alias, track_alias), (id, alias, alias));
                assert!(ok.subscribe_parameters.is_empty() && ok.track_extensions.is_empty());
            }
            other => panic!("{other:?}"),
        }
    }
    assert!(matches!(
        p.run_namespace(&Ok(ControlMessage::Unsubscribe { request_id: 5 })),
        NamespaceAction::Ignore
    ));
    assert!(matches!(p.run_namespace(&Err(())), NamespaceAction::Stop));
    assert_eq!(p.next_alias, 3);
}

#[test]
fn subscriber_asks_for_one_or_two_tracks() {
    let mut config = SubscribeConfig {
        namespace: "ns".to_string(),
        track_name: "demo".to_string(),
        delivery_mode: DeliveryMode::Datagram,
        duration: 0,
        subscriber_priority: 7,
        group_order: GroupOrder::Original,
        extra_track: None,
    };
    assert_eq!(config.closes_after(), None);
    assert_eq!(run(&config).len(), 1);
    config.extra_track = Some(("x".to_string(), 200));
    let ms = run(&config);
    let asked: Vec<(u64, Vec<u8>, MessageParameter)> = ms
        .into_iter()
        .map(|m| match m {
            ControlMessage::Subscribe(s) => {
                assert_eq!(s.subscribe_parameters.len(), 4);
                assert_eq!(s.track.namespace, b"\x01\x02ns");
                (s.request_id, s.track.name, s.subscribe_parameters[0])
            }
            other => panic!("{other:?}"),
        })
        .collect();
    assert_eq!(
        asked,
        vec![
            (0, b"demo".to_vec(), MessageParameter::SubscriberPriority { priority: 7 }),
            (1, b"x".to_vec(), MessageParameter::SubscriberPriority { priority: 200 }),
        ]
    );
    let ok = SubscribeOk {
        request_id: 0,
        track_alias: 12,
        subscribe_parameters: vec![],
        track_extensions: vec![],
    };
    assert_eq!(subscribed(&Ok(ControlMessage::SubscribeOk(ok))), Ok(12));
    assert_eq!(
        subscribed(&Ok(ControlMessage::ClientSetup)),
        Err(SubscribeFailure::UnexpectedMessage)
    );
    assert_eq!(subscribed(&Err(())), Err(SubscribeFailure::StreamEnded));
}

#[test]
fn datagrams_are_counted_ignored_or_refused() {
    let mut stats = ReceptionStats::new(0);
    let object = |track_alias, group_id, object_id| DatagramEvent::Object {
        track_alias,
        group_id,
        object_id,
    };
    let mut take = |e| receive_datagrams(&mut stats, 3, e);
    assert_eq!(take(object(3, 0, 0)), DatagramVerdict::Received { sequence_ok: true });
    assert_eq!(take(object(4, 0, 1)), DatagramVerdict::Ignored);
    assert_eq!(take(object(3, 10000, 0)), DatagramVerdict::Invalid);
    assert_eq!(take(object(3, 0, 10000)), DatagramVerdict::Invalid);
    assert_eq!(take(DatagramEvent::Unreadable), DatagramVerdict::Unreadable);
    assert_eq!(take(object(3, 0, 1)), DatagramVerdict::Received { sequence_ok: true });
    assert_eq!(take(object(3, 9999, 9999)), DatagramVerdict::Received { sequence_ok: false });
    assert_eq!((stats.total_received, stats.parse_errors, stats.sequence_gaps), (3, 3, 1));
}

#[test]
fn datagrams_are_read_from_their_bytes() {
    let mut stats = ReceptionStats::new(0);
    let bytes = |alias, group, object| {
        let payload = bytes::Bytes::from_static(b"payload");
        Datagram::new(alias, group, object, 128, payload).serialize().unwrap()
    };
    let mut take = |b: &[u8]| receive_datagram(&mut stats, 300, b);
    assert_eq!(take(&bytes(300, 0, 0)), DatagramVerdict::Received { sequence_ok: true });
    assert_eq!(take(&bytes(300, 0, 1)), DatagramVerdict::Received { sequence_ok: true });
    assert_eq!(take(&bytes(300, 7, 70)), DatagramVerdict::Received { sequence_ok: false });
    assert_eq!(take(&bytes(301, 0, 2)), DatagramVerdict::Ignored);
    assert_eq!(take(&bytes(300, 10000, 0)), DatagramVerdict::Invalid);
    assert_eq!(take(&bytes(300, 0, 2)[..2]), DatagramVerdict::Unreadable);
    assert_eq!(take(&[]), DatagramVerdict::Unreadable);
    assert_eq!(take(b"\x3fno datagram"), DatagramVerdict::Unreadable);
    assert_eq!((stats.total_received, stats.parse_errors, stats.sequence_gaps), (3, 4, 1));
    assert_eq!((stats.last_group, stats.last_object), (7, 70));
}

#[test]
fn tracks_are_named_by_a_path() {
    let at = |path, name| FullTrackName::from_path(path, name);
    let track = at("meet/room-1", "v");
    assert_eq!(track.namespace, b"\x02\x04meet\x06room-1");
    assert_eq!(track.name, b"v");
    for path in ["/meet/room-1", "meet/room-1/", "meet//room-1", "//meet///room-1//"] {
        assert_eq!(at(path, "v").namespace, track.namespace, "{path}");
    }
    assert_eq!(at("", "v").namespace, b"\x00");
    assert_eq!(at("/", "").namespace, b"\x00");
    assert_eq!(at("\u{e9}t\u{e9}", "\u{e9}").namespace, b"\x01\x05\xc3\xa9t\xc3\xa9");
    assert_eq!(at("", "\u{e9}").name, b"\xc3\xa9");
    let long = "x".repeat(300);
    let namespace = at(&long, "v").namespace;
    assert_eq!(namespace[..3], [0x01, 0x41, 0x2c]);
    assert_eq!(&namespace[3..], long.as_bytes());
    let many = "a/".repeat(70);
    assert_eq!(at(&many, "v").namespace[..4], [0x40, 0x46, 0x01, b'a']);
    let longest = "x".repeat(20000);
    assert_eq!(at(&longest, "v").namespace[..5], [0x01, 0x80, 0x00, 0x4e, 0x20]);
}

#[test]
fn streams_are_labelled_by_their_track() {
    let mut stats = ReceptionStats::new(0);
    let labels = TrackLabels { primary_alias: 4, extra: Some(("demo2".to_string(), 5)) };
    assert_eq!(labels.receive_streams(&mut stats, 4, 0, 0), ("alias=4(primary)".to_string(), true));
    assert_eq!(labels.receive_streams(&mut stats, 5, 0, 1), ("alias=5(demo2)".to_string(), true));
    assert_eq!(labels.receive_streams(&mut stats, 6, 7, 1), ("unknown".to_string(), false));
    let same = TrackLabels { primary_alias: 4, extra: Some(("x".to_string(), 4)) };
    assert_eq!(same.label(4), "alias=4(x)");
    assert_eq!(TrackLabels { primary_alias: 4, extra: None }.label(4), "alias=4(primary)");
}

#[test]
fn timelines_and_their_polling() {
    let record = TimelineRecord {
        media_pts: 1000,
        start: Some(Location::new(1, 1)),
        end: None,
        wallclock: 0,
        metadata: None,
        version: 1,
    };
    let t = Timeline::new(vec![record], 1234);
    assert_eq!(t.track_name, "timeline");
    assert_eq!((t.version, t.format_version, t.generated_at, t.records.len()), (0, 1, 1234, 1));
    let p = TimelineProducer::new("http://localhost/events".to_string(), 5);
    assert!(TimelineProducer::accepts(200));
    assert!(!TimelineProducer::accepts(404) && !TimelineProducer::accepts(204));
    match p.poll(200, Some(t)) {
        PollStep::Send { timeline, wait_secs } => {
            assert_eq!((timeline.generated_at, wait_secs), (1234, 5))
        }
        other => panic!("{other:?}"),
    }
    assert!(matches!(p.poll(500, None), PollStep::Retry { wait_secs: 5 }));
}
