//! The track-switching experiment.
use moqtail_apps::control::{ControlMessage, SubscribeOk};
use moqtail_apps::event_log::EventLog;
use moqtail_apps::location::Location;
use moqtail_apps::message::MessageParameter;
use moqtail_apps::stats::{PlayerSimulator, PlayoutConfig, SwitchRecord};
use moqtail_apps::switcher::{
    expect_subscribe_ok, handle_a_object, initial_subscribe, log_path, plan, process_b_object,
    ObjectEvent, SwitchAction, SwitchFailure, SwitchMethod, SwitchRun, SwitchState,
    SwitchTestConfig,
};

const MS: u64 = 1_000_000;

fn config(method: SwitchMethod, sequence: &[&str]) -> SwitchTestConfig {
    SwitchTestConfig {
        namespace: "ns".to_string(),
        track_sequence: sequence.iter().map(|s| s.to_string()).collect(),
        track_a: "2".to_string(),
        track_b: "3".to_string(),
        method,
        switch_after_ms: 15000,
        bandwidth_cap_bps: 0,
        output_json: None,
        playout: PlayoutConfig {
            frame_interval_ms: 40,
            objects_per_group: 25,
            jitter_buffer_ms: 200,
        },
    }
}

fn subscribe_ok(track_alias: u64, largest: Option<Location>) -> Result<ControlMessage, ()> {
    let subscribe_parameters =
        largest.into_iter().map(|location| MessageParameter::LargestObject { location }).collect();
    Ok(ControlMessage::SubscribeOk(SubscribeOk {
        request_id: 1,
        track_alias,
        subscribe_parameters,
        track_extensions: vec![],
    }))
}

fn event(track_alias: u64, group: u64, object: u64, ms: u64) -> ObjectEvent {
    ObjectEvent { track_alias, group, object, payload_size: 100, received_at: ms * MS }
}

fn start(method: SwitchMethod) -> (SwitchRun, EventLog) {
    let mut log = EventLog::new();
    log.register_alias(11, "A");
    let run = SwitchRun::new(&config(method, &[]), SwitchState::new(11), "2", "3");
    (run, log)
}

#[test]
fn methods_have_names() {
    assert_eq!(SwitchMethod::Switch.as_str(), "switch");
    assert_eq!(SwitchMethod::SubUpdateForward.as_str(), "sub-update-forward");
    assert_eq!(SwitchMethod::JoiningFetch.as_str(), "joining-fetch");
}

#[test]
fn sequence_of_tracks_and_plan_of_switches() {
    let single = config(SwitchMethod::Switch, &[]);
    assert_eq!(single.sequence(), vec!["2", "3"]);
    assert_eq!(plan(&single), Some(vec![("2".to_string(), "3".to_string())]));
    let many = config(SwitchMethod::Switch, &["2", "3", "4"]);
    assert_eq!(many.sequence(), vec!["2", "3", "4"]);
    assert_eq!(
        plan(&many),
        Some(vec![("2".to_string(), "3".to_string()), ("3".to_string(), "4".to_string())])
    );
    assert_eq!(plan(&config(SwitchMethod::Switch, &["2"])), None);
}

#[test]
fn log_file_goes_with_the_statistics() {
    assert_eq!(log_path("/tmp/result.json"), "/tmp/result_events.csv");
    assert_eq!(log_path("result"), "result");
}

#[test]
fn first_subscription_and_its_reply() {
    let first = initial_subscribe(&config(SwitchMethod::Switch, &[]), "2");
    match &first {
        ControlMessage::Subscribe(s) => {
            assert_eq!((&s.track.namespace[..], &s.track.name[..]), (&b"\x01\x02ns"[..], &b"2"[..]));
        }
        other => panic!("{other:?}"),
    }
    let m = format!("{first:?}");
    assert!(m.contains("request_id: 0"), "{m}");
    assert!(m.contains("SubscriberPriority { priority: 128 }"), "{m}");
    assert!(m.contains("Forward { forward: true }"), "{m}");
    assert!(m.contains("LatestObject"), "{m}");
    assert_eq!(expect_subscribe_ok(&subscribe_ok(7, None)), Ok(7));
    assert_eq!(
        expect_subscribe_ok(&Ok(ControlMessage::ClientSetup)),
        Err(SwitchFailure::UnexpectedMessage)
    );
    assert_eq!(expect_subscribe_ok(&Err(())), Err(SwitchFailure::StreamEnded));
}

#[test]
fn request_ids_grow() {
    let mut s = SwitchState::new(4);
    assert_eq!(s.take_req_id(), 1);
    assert_eq!(s.take_req_id(), 2);
    assert_eq!((s.current_alias, s.current_req_id, s.next_req_id), (4, 0, 3));
}

#[test]
fn switch_method_takes_one_message_and_accepts_the_next_group() {
    let (mut run, mut log) = start(SwitchMethod::Switch);
    assert!(matches!(run.start(&mut log, 0), SwitchAction::Collect { ms: 15000 }));
    assert!(matches!(run.object(&mut log, &event(11, 9, 0, 1000), 1000 * MS), SwitchAction::Wait));
    assert!(matches!(run.object(&mut log, &event(11, 9, 1, 1040), 1040 * MS), SwitchAction::Wait));
    match run.decide(&mut log, 1100 * MS) {
        SwitchAction::Send(ControlMessage::Switch(s)) => {
            assert_eq!((s.request_id, s.subscription_request_id), (1, 0));
            assert_eq!((&s.track.namespace[..], &s.track.name[..]), (&b"\x01\x02ns"[..], &b"3"[..]));
            assert!(s.subscribe_parameters.is_empty());
        }
        other => panic!("{other:?}"),
    }
    assert!(matches!(run.sent(&mut log, true, 1101 * MS), SwitchAction::Drain { ms: 15000 }));
    // The old track goes on until the new one is accepted.
    run.object(&mut log, &event(11, 9, 2, 1150), 1150 * MS);
    assert!(matches!(run.reply(&mut log, &subscribe_ok(12, None), 1200 * MS), SwitchAction::Wait));
    run.object(&mut log, &event(12, 10, 1, 1300), 1300 * MS);
    run.object(&mut log, &event(12, 11, 0, 1982), 1982 * MS);
    run.object(&mut log, &event(12, 11, 1, 2022), 2022 * MS);
    run.object(&mut log, &event(11, 9, 3, 2030), 2030 * MS);
    run.object(&mut log, &event(12, 12, 0, 2982), 2982 * MS);
    assert!(matches!(run.drained(), SwitchAction::Finish));
    let (record, state) = run.finish(&mut log);
    assert_eq!((state.current_alias, state.current_req_id, state.next_req_id), (12, 1, 2));
    assert_eq!(record.control_messages, 1);
    assert_eq!(record.decision_a_group, Some(9));
    assert_eq!(record.latest_played_a_group, Some(9));
    assert_eq!(record.switched_b_group, Some(11));
    assert_eq!(record.a_stopped_at_ms, Some(1200));
    assert_eq!(record.b_started_at_ms, Some(2200));
    assert_eq!(record.stall_ms(), Some(1000));
    assert_eq!((record.skipped_gops, record.skipped_duration_ms), (1, 1000));
    assert_eq!(record.switch_delay_ms(), Some(882));
    assert_eq!(record.pre_switch_a_bytes, 100);
    assert_eq!(record.redundant_bytes, 100);
    assert_eq!(record.trailing_a_bytes, 100);
    assert_eq!(record.useful_b_bytes, 300);
    assert_eq!(record.b_gop_payload_bytes, Some(200));
    assert_eq!(record.aetr(), Some((200, 200)));
    let content = log.content();
    assert!(content.contains("switch_decision,100\n"), "{content}");
    assert!(content.contains("subscribe_ok_b,200\n"), "{content}");
    assert!(content.contains("fresh_b_iframe,11,982\n"), "{content}");
}

#[test]
fn sub_update_forward_takes_three_messages() {
    let (mut run, mut log) = start(SwitchMethod::SubUpdateForward);
    match run.start(&mut log, 0) {
        SwitchAction::Send(ControlMessage::Subscribe(s)) => {
            assert_eq!(s.request_id, 1);
            assert!(s
                .subscribe_parameters
                .contains(&MessageParameter::Forward { forward: false }));
        }
        other => panic!("{other:?}"),
    }
    assert!(matches!(run.sent(&mut log, true, 0), SwitchAction::Wait));
    assert!(matches!(
        run.reply(&mut log, &subscribe_ok(12, None), 0),
        SwitchAction::Collect { ms: 15000 }
    ));
    run.object(&mut log, &event(11, 9, 0, 1000), 1000 * MS);
    match run.decide(&mut log, 1100 * MS) {
        SwitchAction::Send(ControlMessage::RequestUpdate(u)) => {
            assert_eq!((u.request_id, u.existing_request_id), (2, 1));
            assert_eq!(u.parameters, vec![MessageParameter::Forward { forward: true }]);
        }
        other => panic!("{other:?}"),
    }
    assert!(matches!(run.sent(&mut log, true, 0), SwitchAction::Drain { ms: 15000 }));
    match run.object(&mut log, &event(12, 10, 0, 1900), 1900 * MS) {
        SwitchAction::Send(ControlMessage::RequestUpdate(u)) => {
            assert_eq!((u.request_id, u.existing_request_id), (3, 0));
            assert_eq!(u.parameters, vec![MessageParameter::Forward { forward: false }]);
        }
        other => panic!("{other:?}"),
    }
    assert!(matches!(
        run.sent(&mut log, true, 1901 * MS),
        SwitchAction::DrainTail { ms: 5000 }
    ));
    assert!(matches!(run.drained(), SwitchAction::Finish));
    let (record, state) = run.finish(&mut log);
    assert_eq!(record.control_messages, 3);
    assert_eq!(record.switched_b_group, Some(10));
    assert_eq!(record.stall_ms(), Some(0));
    assert_eq!((state.current_alias, state.current_req_id, state.next_req_id), (12, 1, 4));
}

#[test]
fn the_old_track_is_not_stopped_for_an_iframe_that_is_not_accepted() {
    for accepted in [false, true] {
        let (mut run, mut log) = start(SwitchMethod::SubUpdateForward);
        run.start(&mut log, 0);
        run.sent(&mut log, true, 0);
        run.reply(&mut log, &subscribe_ok(12, None), 0);
        run.object(&mut log, &event(11, 9, 0, 1000), 1000 * MS);
        run.decide(&mut log, 1100 * MS);
        run.sent(&mut log, true, 1100 * MS);
        // The group is being played already, so its I-frame comes too late.
        assert!(matches!(
            run.object(&mut log, &event(12, 9, 0, 1700), 1700 * MS),
            SwitchAction::Wait
        ));
        assert!(!run.a_stopped);
        if accepted {
            assert!(matches!(
                run.object(&mut log, &event(12, 10, 0, 2100), 2100 * MS),
                SwitchAction::Send(ControlMessage::RequestUpdate(_))
            ));
            assert!(matches!(
                run.sent(&mut log, true, 2101 * MS),
                SwitchAction::DrainTail { ms: 5000 }
            ));
            assert!(run.a_stopped);
        }
        assert!(matches!(run.drained(), SwitchAction::Finish));
        let (record, _) = run.finish(&mut log);
        assert_eq!(record.control_messages, if accepted { 3 } else { 2 });
        assert_eq!(record.switched_b_group, if accepted { Some(10) } else { None });
    }
}

fn probe(run: &mut SwitchRun, log: &mut EventLog) {
    assert!(matches!(run.start(log, 0), SwitchAction::Collect { ms: 15000 }));
    run.object(log, &event(11, 9, 0, 1000), 1000 * MS);
    match run.decide(log, 1100 * MS) {
        SwitchAction::Send(ControlMessage::Subscribe(s)) => {
            assert_eq!(s.request_id, 1);
            assert!(s
                .subscribe_parameters
                .contains(&MessageParameter::SubscriberPriority { priority: 200 }));
        }
        other => panic!("{other:?}"),
    }
    assert!(matches!(run.sent(log, true, 0), SwitchAction::Wait));
}

#[test]
fn joining_fetch_fetches_the_running_group() {
    let (mut run, mut log) = start(SwitchMethod::JoiningFetch);
    probe(&mut run, &mut log);
    match run.reply(&mut log, &subscribe_ok(12, Some(Location::new(10, 5))), 1150 * MS) {
        SwitchAction::Send(ControlMessage::Fetch(f)) => {
            assert_eq!(f.request_id, 2);
            let joining = f.joining_fetch_props.unwrap();
            assert_eq!((joining.joining_request_id, joining.joining_start), (1, 0));
        }
        other => panic!("{other:?}"),
    }
    assert!(matches!(run.sent(&mut log, true, 0), SwitchAction::Wait));
    let ok = Ok(ControlMessage::FetchOk(moqtail_apps::control::FetchOk {
        request_id: 2,
        end_of_track: false,
        end_location: Location::new(10, 5),
    }));
    assert!(matches!(run.reply(&mut log, &ok, 0), SwitchAction::Drain { ms: 15000 }));
    // The fetched I-frame stops the old track, and is accepted when that is done.
    match run.object(&mut log, &event(0, 10, 0, 1200), 1200 * MS) {
        SwitchAction::Send(ControlMessage::RequestUpdate(u)) => {
            assert_eq!((u.request_id, u.existing_request_id), (3, 0));
        }
        other => panic!("{other:?}"),
    }
    match run.sent(&mut log, true, 1201 * MS) {
        SwitchAction::Send(ControlMessage::RequestUpdate(u)) => {
            assert_eq!((u.request_id, u.existing_request_id), (4, 1));
            assert_eq!(u.parameters, vec![MessageParameter::SubscriberPriority { priority: 128 }]);
        }
        other => panic!("{other:?}"),
    }
    assert!(matches!(run.sent(&mut log, true, 0), SwitchAction::DrainTail { ms: 5000 }));
    assert!(matches!(run.drained(), SwitchAction::Finish));
    let (record, _) = run.finish(&mut log);
    assert_eq!(record.control_messages, 4);
    assert_eq!(record.switched_b_group, Some(10));
    assert!(log.content().contains("fetch_sent"));
}

#[test]
fn joining_fetch_subscribes_anew_where_the_new_track_is_behind() {
    let (mut run, mut log) = start(SwitchMethod::JoiningFetch);
    probe(&mut run, &mut log);
    match run.reply(&mut log, &subscribe_ok(12, Some(Location::new(8, 5))), 1150 * MS) {
        SwitchAction::Send(ControlMessage::Unsubscribe { request_id }) => assert_eq!(request_id, 1),
        other => panic!("{other:?}"),
    }
    match run.sent(&mut log, true, 0) {
        SwitchAction::Send(ControlMessage::Subscribe(s)) => {
            assert_eq!(s.request_id, 2);
            let text = format!("{:?}", s.subscribe_parameters);
            assert!(text.contains("AbsoluteStart"), "{text}");
            assert!(text.contains("Location { group: 9, object: 0 }"), "{text}");
        }
        other => panic!("{other:?}"),
    }
    assert!(matches!(run.sent(&mut log, true, 0), SwitchAction::Wait));
    assert!(matches!(
        run.reply(&mut log, &subscribe_ok(13, None), 0),
        SwitchAction::Drain { ms: 15000 }
    ));
    assert_eq!(run.b_alias, Some(13));
    accept_group_ten(&mut run, &mut log, 13);
    assert_eq!(run.finish(&mut log).0.control_messages, 5);
}

/// The I-frame of group 10 stops the old track and raises the new one.
fn accept_group_ten(run: &mut SwitchRun, log: &mut EventLog, alias: u64) {
    for (existing, done) in [(0, false), (run.b_req_id.unwrap(), true)] {
        let action = match done {
            false => run.object(log, &event(alias, 10, 0, 1900), 1900 * MS),
            true => run.sent(log, true, 1901 * MS),
        };
        match action {
            SwitchAction::Send(ControlMessage::RequestUpdate(u)) => {
                assert_eq!(u.existing_request_id, existing);
            }
            other => panic!("{other:?}"),
        }
    }
    assert!(matches!(run.sent(log, true, 1902 * MS), SwitchAction::DrainTail { ms: 5000 }));
    assert!(matches!(run.drained(), SwitchAction::Finish));
}

#[test]
fn joining_fetch_needs_no_fetch_at_the_start_of_a_group() {
    let (mut run, mut log) = start(SwitchMethod::JoiningFetch);
    probe(&mut run, &mut log);
    assert!(matches!(
        run.reply(&mut log, &subscribe_ok(12, Some(Location::new(10, 0))), 0),
        SwitchAction::Drain { ms: 15000 }
    ));
    accept_group_ten(&mut run, &mut log, 12);
    assert_eq!(run.finish(&mut log).0.control_messages, 3);
}

#[test]
fn failures_of_a_switch() {
    let (mut run, mut log) = start(SwitchMethod::Switch);
    run.start(&mut log, 0);
    run.decide(&mut log, 0);
    assert!(matches!(
        run.sent(&mut log, false, 0),
        SwitchAction::Fail(SwitchFailure::SendFailed)
    ));

    let (mut run, mut log) = start(SwitchMethod::SubUpdateForward);
    run.start(&mut log, 0);
    run.sent(&mut log, true, 0);
    assert!(matches!(
        run.reply(&mut log, &Ok(ControlMessage::ClientSetup), 0),
        SwitchAction::Fail(SwitchFailure::UnexpectedMessage)
    ));

    let (mut run, mut log) = start(SwitchMethod::JoiningFetch);
    probe(&mut run, &mut log);
    assert!(matches!(
        run.reply(&mut log, &Err(()), 0),
        SwitchAction::Fail(SwitchFailure::StreamEnded)
    ));

    let (mut run, mut log) = start(SwitchMethod::JoiningFetch);
    probe(&mut run, &mut log);
    run.reply(&mut log, &subscribe_ok(12, Some(Location::new(9, 5))), 0);
    run.sent(&mut log, true, 0);
    let refused = Ok(ControlMessage::RequestError(moqtail_apps::control::RequestError {
        request_id: 2,
        error_code: moqtail_apps::message::RequestErrorCode::InvalidRange,
        retry_interval: 0,
        reason_phrase: String::new(),
    }));
    assert!(matches!(
        run.reply(&mut log, &refused, 0),
        SwitchAction::Fail(SwitchFailure::RequestRefused)
    ));
}

#[test]
fn end_of_the_objects_before_the_decision() {
    let (mut run, mut log) = start(SwitchMethod::JoiningFetch);
    run.start(&mut log, 0);
    assert!(matches!(run.objects_ended(&mut log, 0), SwitchAction::Finish));
    let (mut run, mut log) = start(SwitchMethod::Switch);
    run.start(&mut log, 0);
    assert!(matches!(
        run.objects_ended(&mut log, 0),
        SwitchAction::Send(ControlMessage::Switch(_))
    ));
    assert_eq!(run.record.switch_decision_time, None);
}

#[test]
fn the_group_at_the_decision_is_the_threshold_without_a_clock() {
    let cfg = config(SwitchMethod::Switch, &[]);
    let mut player = PlayerSimulator::new(&cfg.playout);
    let mut record = SwitchRecord::new("2", "3");
    record.decision_a_group = Some(5);
    let (mut log, mut target, mut seen) = (EventLog::new(), None, false);
    let mut take = |group: u64, record: &mut SwitchRecord| {
        process_b_object(
            &event(12, group, 0, 10),
            &mut player,
            record,
            &mut log,
            &mut target,
            &mut seen,
            "B",
            true,
        )
    };
    assert!(!take(5, &mut record));
    assert!(take(6, &mut record));
    assert_eq!(record.switched_b_group, Some(6));
    assert_eq!(record.latest_played_a_group, Some(5));
    assert_eq!(record.redundant_bytes, 100);
    assert_eq!(record.stall_ms(), None);
}

#[test]
fn an_overdue_iframe_sets_the_group_to_wait_for() {
    let cfg = config(SwitchMethod::Switch, &[]);
    let mut player = PlayerSimulator::new(&cfg.playout);
    let mut record = SwitchRecord::new("2", "3");
    let mut log = EventLog::new();
    handle_a_object(&event(11, 9, 0, 0), &mut record, &mut player, &mut log, false);
    let (mut target, mut seen) = (None, false);
    let mut accepted = Vec::new();
    for (group, ms) in [(9, 700), (9, 800), (10, 1500)] {
        accepted.push(process_b_object(
            &event(12, group, 0, ms),
            &mut player,
            &mut record,
            &mut log,
            &mut target,
            &mut seen,
            "B",
            true,
        ));
    }
    assert_eq!(accepted, vec![false, false, true]);
    assert!(!process_b_object(
        &event(12, 11, 0, 2500),
        &mut player,
        &mut record,
        &mut log,
        &mut target,
        &mut seen,
        "B",
        true,
    ));
    assert_eq!(target, Some(10));
    assert_eq!(record.switched_b_group, Some(10));
    assert_eq!(record.b_objects_pre_active, 2);
    assert_eq!(record.a_stopped_at_ms, Some(1200));
    assert_eq!(record.b_started_at_ms, Some(1700));
    handle_a_object(&event(11, 10, 0, 1600), &mut record, &mut player, &mut log, true);
    assert_eq!(record.trailing_a_bytes, 100);
    assert_eq!(record.pre_switch_a_bytes, 100);
}
