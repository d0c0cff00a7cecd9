//! The playout model, the records of a switch and the reception counts.
use moqtail_apps::stats::{
    signed_millis, BAcceptance, PlayerSimulator, PlayoutConfig, ReceptionStats, SwitchRecord,
    SwitchStats,
};

const MS: u64 = 1_000_000;

fn playout(jitter_buffer_ms: u64) -> PlayoutConfig {
    PlayoutConfig { frame_interval_ms: 40, objects_per_group: 25, jitter_buffer_ms }
}

fn player(first_group: u64, jitter_buffer_ms: u64) -> PlayerSimulator {
    let mut p = PlayerSimulator::new(&playout(jitter_buffer_ms));
    assert!(p.set_base_if_unset(first_group, 0));
    p
}

#[test]
fn presentation_times_are_counted_from_the_first_group() {
    let p = player(9, 200);
    assert_eq!(p.pt_ms(9, 0, false), Some(200));
    assert_eq!(p.pt_ms(9, 24, false), Some(24 * 40 + 200));
    assert_eq!(p.pt_ms(10, 0, false), Some(1200));
    assert_eq!(p.pt_ms(8, 0, false), Some(-800));
    assert_eq!(p.pt_ms(9, 0, true), None);
    assert_eq!(PlayerSimulator::new(&playout(200)).pt_ms(9, 0, false), None);
    assert_eq!(p.objects_per_group(), 25);
}

#[test]
fn the_clock_is_set_once() {
    let mut p = player(9, 200);
    let answers = |p: &PlayerSimulator| {
        (p.pt_ms(9, 0, false), p.pt_ms(12, 7, false), p.last_a_object_at(1500 * MS))
    };
    let first = answers(&p);
    assert_eq!(first, (Some(200), Some(3480), Some((10, 7))));
    for (group, ms) in [(11, 500), (3, 0), (9, 700)] {
        assert!(!p.set_base_if_unset(group, ms * MS));
        assert_eq!(answers(&p), first);
    }
}

#[test]
fn played_frame_is_the_one_due() {
    let p = player(9, 200);
    assert_eq!(p.last_a_object_at(199 * MS), None);
    assert_eq!(p.last_a_object_at(200 * MS), Some((9, 0)));
    assert_eq!(p.last_a_object_at(239 * MS), Some((9, 0)));
    assert_eq!(p.last_a_object_at(240 * MS), Some((9, 1)));
    assert_eq!(p.last_a_object_at(1200 * MS), Some((10, 0)));
    assert_eq!(p.last_a_object_at(1200 * MS - 1), Some((9, 24)));
    assert_eq!(PlayerSimulator::new(&playout(0)).last_a_object_at(5 * MS), None);
}

#[test]
fn iframes_are_fresh_overdue_or_stale() {
    let p = player(9, 200);
    // At 982 ms the frame (9, 19) plays.
    assert_eq!(p.check_b_iframe(11, 982 * MS), BAcceptance::Fresh((9, 19)));
    assert_eq!(p.check_b_iframe(10, 982 * MS), BAcceptance::Fresh((9, 19)));
    // Group 9 started at 200 ms: it is overdue, and group 10 is waited for.
    assert_eq!(p.check_b_iframe(9, 982 * MS), BAcceptance::OverduePending(10));
    // Before playback has started, the frame at the start of the old track counts as played.
    assert_eq!(p.check_b_iframe(9, 100 * MS), BAcceptance::Fresh((9, 0)));
    assert_eq!(p.check_b_iframe(8, 100 * MS), BAcceptance::OverduePending(10));
    // Before the clock is set every I-frame is accepted.
    let idle = PlayerSimulator::new(&playout(200));
    assert_eq!(idle.check_b_iframe(3, 0), BAcceptance::Fresh((0, 0)));
    // Group 0 is never ahead of playback that has not started.
    let zero = player(0, 200);
    assert_eq!(zero.check_b_iframe(0, 100 * MS), BAcceptance::Stale);
}

#[test]
fn metrics_of_a_switch_that_skips_a_group() {
    let p = player(9, 200);
    assert_eq!(p.compute_switch_metrics(9, 11, 982 * MS), Some((1200, 2200, 1000, 1, 1000)));
}

#[test]
fn metrics_of_a_switch_that_is_received_late() {
    let p = player(9, 200);
    assert_eq!(p.compute_switch_metrics(9, 10, 1203 * MS), Some((1200, 1403, 203, 0, 0)));
}

#[test]
fn metrics_of_a_switch_in_time() {
    let p = player(9, 200);
    assert_eq!(p.compute_switch_metrics(9, 10, 1000 * MS), Some((1200, 1200, 0, 0, 0)));
    assert_eq!(p.compute_switch_metrics(10, 10, 1000 * MS), Some((2200, 1200, 0, 0, 0)));
    assert_eq!(PlayerSimulator::new(&playout(0)).compute_switch_metrics(9, 10, 0), None);
}

#[test]
fn new_timeline_starts_at_the_accepted_iframe() {
    let mut p = player(9, 200);
    let played: Vec<_> = (0..40).map(|i| p.last_a_object_at(i * 50 * MS)).collect();
    p.reset_base(11, 982 * MS);
    assert_eq!(played, (0..40).map(|i| p.last_a_object_at(i * 50 * MS)).collect::<Vec<_>>());
    assert_eq!(p.pt_ms(13, 2, false), Some(4 * 1000 + 2 * 40 + 200));
    assert_eq!(p.pt_ms(11, 0, true), Some(982 + 200));
    assert_eq!(p.pt_ms(12, 1, true), Some(982 + 1000 + 40 + 200));
    assert_eq!(p.pt_ms(9, 0, false), Some(200));
}

#[test]
fn milliseconds_between_instants_are_signed_and_cut_off() {
    assert_eq!(signed_millis(5 * MS, 8 * MS + 999_999), 3);
    assert_eq!(signed_millis(8 * MS, 5 * MS), -3);
    assert_eq!(signed_millis(4 * MS, 4 * MS), 0);
    assert_eq!(signed_millis(1_500_000, 0), -1);
}

fn sample() -> SwitchRecord {
    let mut r = SwitchRecord::new("3", "4");
    r.switch_decision_time = Some(100 * MS);
    r.last_a_object_time = Some(638 * MS);
    r.first_b_object_time = Some(1082 * MS);
    r.actual_switch_time = Some(1082 * MS);
    r.pre_switch_a_bytes = 156254;
    r.useful_b_bytes = 4571402;
    r.b_gop_payload_bytes = Some(499997);
    r.a_objects_post_decision = 14;
    r.control_messages = 1;
    r.group_boundary_aligned = Some(true);
    r.decision_a_group = Some(9);
    r.decision_a_object = Some(10);
    r.latest_played_a_group = Some(9);
    r.latest_played_a_object = Some(19);
    r.last_a_group = Some(9);
    r.last_a_object = Some(24);
    r.first_b_group = Some(10);
    r.switched_b_group = Some(10);
    r.a_stopped_at_ms = Some(1200);
    r.b_started_at_ms = Some(1403);
    r
}

#[test]
fn derived_numbers_of_a_record() {
    let mut r = sample();
    assert_eq!(r.switch_delay_ms(), Some(982));
    assert_eq!(r.last_a_object_time_ms(), Some(538));
    assert_eq!(r.first_b_object_time_ms(), Some(982));
    assert_eq!(r.stall_ms(), Some(203));
    assert_eq!(r.excess_bytes(), 0);
    assert_eq!(r.total_bytes(), 4571402);
    assert_eq!(r.aetr(), Some((0, 499997)));
    r.redundant_bytes = 7;
    r.trailing_a_bytes = 5;
    assert_eq!(r.excess_bytes(), 12);
    assert_eq!(r.total_bytes(), 4571414);
    assert_eq!(r.aetr(), Some((12, 499997)));
    r.b_gop_payload_bytes = Some(0);
    assert_eq!(r.aetr(), None);
    r.b_started_at_ms = Some(1100);
    assert_eq!(r.stall_ms(), Some(0));
    let blank = SwitchRecord::new("a", "b");
    assert_eq!(blank.switch_delay_ms(), None);
    assert_eq!(blank.stall_ms(), None);
    assert_eq!(blank.aetr(), None);
}

#[test]
fn statistics_are_written_as_json() {
    let mut stats = SwitchStats::new("switch", 0, playout(200));
    stats.switches.push(sample());
    assert_eq!(stats.ratios(), vec![(0, 499997)]);
    stats.finalize("0.000000");
    let json = stats.to_json(&vec!["0.000000".to_string()]);
    let start = "{\n  \"method\": \"switch\",\n  \"bandwidth_cap_bps\": 0,\n  \
                 \"frame_interval_ms\": 40,\n  \"objects_per_group\": 25,\n  \
                 \"jitter_buffer_ms\": 200,\n  \"aetr\": 0.000000,\n  \"switches\": [\n";
    assert!(json.starts_with(start), "{json}");
    for line in [
        "\"track_from\": \"3\"",
        "\"switch_delay_ms\": 982",
        "\"stall_ms\": 203",
        "\"skipped_gops\": 0",
        "\"group_boundary_aligned\": true",
        "\"pre_switch_a_bytes\": 156254",
        "\"total_bytes\": 4571402",
        "\"a_stopped_at_ms\": 1200.000",
        "\"b_started_at_ms\": 1403.000",
        "\"last_a_object_time_ms\": 538",
    ] {
        assert!(json.contains(line), "{line} in {json}");
    }
    let value: serde_json::Value = serde_json::from_str(&json).unwrap();
    assert_eq!(value["switches"][0]["switched_b_group"], 10);
    assert_eq!(value["switches"].as_array().unwrap().len(), 1);
}

#[test]
fn a_switch_that_did_not_take_place_is_written_with_nulls() {
    let mut stats = SwitchStats::new("joining-fetch", 5, playout(0));
    stats.switches.push(SwitchRecord::new("a", "b"));
    assert_eq!(stats.ratios(), vec![]);
    let json = stats.to_json(&vec!["null".to_string()]);
    let value: serde_json::Value = serde_json::from_str(&json).unwrap();
    assert!(value["aetr"].is_null());
    let s = &value["switches"][0];
    for name in ["switch_delay_ms", "stall_ms", "skipped_gops", "switched_b_group", "aetr"] {
        assert!(s[name].is_null(), "{name}");
    }
    assert_eq!(s["control_messages"], 0);
    // A record without a ratio has none in the file, whatever text comes with it.
    assert_eq!(stats.to_json(&vec!["0.500".to_string()]), json);
    let mut empty_group = sample();
    empty_group.b_gop_payload_bytes = Some(0);
    assert!(empty_group.to_json("0.500").contains("\"aetr\": null"));
    assert!(sample().to_json("0.500").contains("\"aetr\": 0.500"));
}

#[test]
fn objects_follow_each_other_in_sequence() {
    let mut s = ReceptionStats::new(0);
    assert!(s.record_object(5, 7));
    assert!(s.record_object(5, 8));
    assert!(s.record_object(6, 0));
    assert!(!s.record_object(6, 2));
    assert!(!s.record_object(6, 2));
    assert!(s.record_object(7, 0));
    assert!(!s.record_object(9, 0));
    s.record_parse_error();
    assert_eq!((s.total_received, s.sequence_gaps, s.parse_errors), (7, 3, 1));
    assert_eq!(s.elapsed_ms(12 * MS + 5), 12);
    let (counts, state) = s.report(12 * MS);
    assert_eq!(
        counts,
        "Reception stats: total=7, last=group:9/object:0, errors=1, gaps=3, elapsed=12ms"
    );
    assert_eq!(state, "Found 1 parse errors and 3 sequence gaps");
    let (_, state) = ReceptionStats::new(0).report(0);
    assert_eq!(state, "All objects received with correct sequence");
}
