//! The command line and the jobs it describes.
use moqtail_apps::cli::{
    job, job_with, parse_extra_track, parse_track_sequence, parse_tracks, ratio_fields, Cli,
    CliGroupOrder, CliSwitchMethod, Command, DeliveryMode, Job, RatioVerdict,
};
use moqtail_apps::message::GroupOrder;
use moqtail_apps::publisher::MAX_ALIAS;
use moqtail_apps::switcher::SwitchMethod;

fn cli(command: Command) -> Cli {
    Cli {
        command,
        server: "https://127.0.0.1:4433".to_string(),
        namespace: "moqtail".to_string(),
        track_name: "demo".to_string(),
        no_cert_validation: false,
        delivery_mode: DeliveryMode::Subgroup,
        group_count: 1000,
        interval: 40,
        objects_per_group: 25,
        payload_size: 1200,
        track_alias: None,
        duration: 0,
        start_group: 1,
        start_object: 0,
        end_group: 5,
        end_object: 3,
        cancel_after: 0,
        subscriber_priority: 128,
        publisher_priority: 128,
        group_order: CliGroupOrder::Ascending,
        extra_track: None,
        tracks: "1:2500,2:5000".to_string(),
        track_a: "2".to_string(),
        track_b: "3".to_string(),
        track_sequence: String::new(),
        method: CliSwitchMethod::SwitchMessage,
        switch_after: 15000,
        bandwidth_cap_bps: 0,
        output_json: None,
        jitter_buffer_ms: 0,
    }
}

/// Reads the ratios as numbers.
fn verdicts(tracks: &str) -> Vec<RatioVerdict> {
    ratio_fields(tracks)
        .into_iter()
        .map(|field| match field.map(|t| t.parse::<f64>()) {
            None => RatioVerdict::Usable,
            Some(Err(_)) => RatioVerdict::Unreadable,
            Some(Ok(r)) if r <= 0.0 || r > 1.0 => RatioVerdict::OutOfRange { shown: r.to_string() },
            Some(Ok(_)) => RatioVerdict::Usable,
        })
        .collect()
}

fn error_of(tracks: &str) -> String {
    parse_tracks(tracks, &verdicts(tracks)).unwrap_err().message()
}

#[test]
fn track_lists_with_and_without_ratio_and_delay() {
    let text = " a : b :0.5, 3:12500:0.25:500 ,x:+7";
    assert_eq!(ratio_fields("3:12500:0.25:0,4:20000"), vec![Some("0.25".to_string()), None]);
    assert!(parse_tracks(text, &verdicts(text)).is_err());
    let text = "1:2500, 3 :12500:0.25:500 ,x:+7:1";
    let tracks = parse_tracks(text, &verdicts(text)).unwrap();
    assert_eq!(tracks.len(), 3);
    assert_eq!((tracks[0].name.as_str(), tracks[0].payload_size), ("1", 2500));
    assert_eq!((tracks[0].p_ratio.as_deref(), tracks[0].start_delay_ms), (None, 0));
    assert_eq!((tracks[1].name.as_str(), tracks[1].payload_size), ("3", 12500));
    assert_eq!((tracks[1].p_ratio.as_deref(), tracks[1].start_delay_ms), (Some("0.25"), 500));
    assert_eq!((tracks[2].name.as_str(), tracks[2].payload_size), ("x", 7));
    assert_eq!((tracks[2].p_ratio.as_deref(), tracks[2].start_delay_ms), (Some("1"), 0));
}

#[test]
fn faults_in_track_lists() {
    assert_eq!(error_of("a:x"), "invalid payload size 'x' in 'a:x'");
    assert_eq!(error_of("a:1:r"), "invalid p_ratio 'r' in 'a:1:r'");
    assert_eq!(error_of("a:1:1.5"), "p_ratio must be in (0, 1], got 1.5 in 'a:1:1.5'");
    assert_eq!(error_of("a:1:0"), "p_ratio must be in (0, 1], got 0 in 'a:1:0'");
    assert_eq!(error_of("a:1:0.5:z"), "invalid start_delay_ms 'z' in 'a:1:0.5:z'");
    assert_eq!(error_of("a:1:0.5:1:2"), "invalid start_delay_ms '1:2' in 'a:1:0.5:1:2'");
    assert_eq!(
        error_of("a"),
        "invalid track spec 'a'; expected 'name:bytes', 'name:bytes:p_ratio', or \
         'name:bytes:p_ratio:delay_ms'"
    );
    assert!(error_of("").starts_with("invalid track spec ''"));
    // The first fault of the first faulty entry is told.
    assert_eq!(error_of("a:1,b:y:r,c"), "invalid payload size 'y' in 'b:y:r'");
}

#[test]
fn extra_tracks_are_cut_at_the_last_colon() {
    let read = |s: &str| parse_extra_track(&Some(s.to_string()));
    assert_eq!(read("demo2:200"), Some(("demo2".to_string(), 200)));
    assert_eq!(read("a:b:7"), Some(("a:b".to_string(), 7)));
    assert_eq!(read("demo2:256"), None);
    assert_eq!(read("demo2"), None);
    assert_eq!(read("demo2:"), None);
    assert_eq!(parse_extra_track(&None), None);
}

#[test]
fn track_sequences_drop_what_is_empty() {
    assert_eq!(parse_track_sequence("2, 3,,4 ,"), vec!["2", "3", "4"]);
    assert!(parse_track_sequence("").is_empty());
    assert!(parse_track_sequence(" , ").is_empty());
}

#[test]
fn orders_and_methods_keep_their_meaning() {
    assert_eq!(GroupOrder::from(CliGroupOrder::Original), GroupOrder::Original);
    assert_eq!(GroupOrder::from(CliGroupOrder::Ascending), GroupOrder::Ascending);
    assert_eq!(GroupOrder::from(CliGroupOrder::Descending), GroupOrder::Descending);
    assert_eq!(SwitchMethod::from(CliSwitchMethod::SwitchMessage), SwitchMethod::Switch);
    assert_eq!(
        SwitchMethod::from(CliSwitchMethod::SubUpdateForward),
        SwitchMethod::SubUpdateForward
    );
    assert_eq!(SwitchMethod::from(CliSwitchMethod::JoiningFetch), SwitchMethod::JoiningFetch);
}

#[test]
fn publish_job_with_a_given_or_a_random_alias() {
    let ratios = verdicts("1:2500,2:5000");
    let mut given = cli(Command::Publish);
    given.track_alias = Some(77);
    match job_with(given, &ratios, 5).unwrap() {
        Job::Publish(c) => assert_eq!((c.track_alias, c.payload_size, c.interval), (77, 1200, 40)),
        other => panic!("{other:?}"),
    }
    match job_with(cli(Command::Publish), &ratios, u64::MAX).unwrap() {
        Job::Publish(c) => assert_eq!(c.track_alias, MAX_ALIAS),
        other => panic!("{other:?}"),
    }
    // Random aliases fit into 62 bits and differ from run to run.
    let mut aliases = Vec::new();
    for _ in 0..8 {
        match job(cli(Command::Publish), &ratios).unwrap() {
            Job::Publish(c) => aliases.push(c.track_alias),
            other => panic!("{other:?}"),
        }
    }
    assert!(aliases.iter().all(|a| *a <= MAX_ALIAS));
    assert!(aliases.iter().any(|a| *a != aliases[0]));
}

#[test]
fn other_jobs_take_their_values_from_the_command_line() {
    let ratios = verdicts("1:2500,2:5000");
    match job(cli(Command::PublishNamespace), &ratios).unwrap() {
        Job::PublishNamespace(c) => assert_eq!((c.group_count, c.objects_per_group), (1000, 25)),
        other => panic!("{other:?}"),
    }
    match job(cli(Command::PublishMulti), &ratios).unwrap() {
        Job::PublishMulti(c) => {
            assert_eq!(c.tracks.len(), 2);
            assert_eq!((c.interval_ms, c.publisher_priority), (40, 128));
        }
        other => panic!("{other:?}"),
    }
    let mut s = cli(Command::Subscribe);
    s.extra_track = Some("demo2:9".to_string());
    s.group_order = CliGroupOrder::Descending;
    s.duration = 3;
    match job(s, &ratios).unwrap() {
        Job::Subscribe(c) => {
            assert_eq!(c.extra_track, Some(("demo2".to_string(), 9)));
            assert_eq!(c.group_order, GroupOrder::Descending);
            assert_eq!(c.closes_after(), Some(3));
        }
        other => panic!("{other:?}"),
    }
    match job(cli(Command::Fetch), &ratios).unwrap() {
        Job::Fetch(c) => {
            assert_eq!((c.start_group, c.start_object, c.end_group, c.end_object), (1, 0, 5, 3))
        }
        other => panic!("{other:?}"),
    }
    let mut t = cli(Command::SwitchTest);
    t.track_sequence = "2,3,4".to_string();
    t.jitter_buffer_ms = 200;
    match job(t, &ratios).unwrap() {
        Job::SwitchTest(c) => {
            assert_eq!(c.track_sequence, vec!["2", "3", "4"]);
            assert_eq!((c.switch_after_ms, c.playout.jitter_buffer_ms), (15000, 200));
            assert_eq!(c.playout.frame_interval_ms, 40);
        }
        other => panic!("{other:?}"),
    }
    let mut bad = cli(Command::PublishMulti);
    bad.tracks = "a".to_string();
    assert!(job(bad, &verdicts("a")).is_err());
}
