//! The switch test: a subscriber switches from one track to another, in one of three ways, and
//! measures what it costs.
use crate::control::{
    ControlMessage, Fetch, RequestUpdate, Subscribe, SubscribeOk, Switch,
};
use crate::control;
use crate::event_log::EventLog;
use crate::event_log;
use crate::location::Location;
use crate::message::{FetchType, MessageParameter};
use crate::message;
use crate::names::{FullTrackName, TrackName};
use crate::names;
use crate::stats::{BAcceptance, PlayerSimulator, PlayoutConfig, SwitchRecord, MAX_ID};
use crate::stats;
use crate::text::decimal;
use crate::text;
use vstd::prelude::*;

verus! {

#[derive(Debug, Clone, Copy, PartialEq, Eq, Structural)]
pub enum SwitchMethod {
    Switch,
    SubUpdateForward,
    JoiningFetch,
}

impl SwitchMethod {
    pub open spec fn name(self) -> Seq<char> {
        match self {
            SwitchMethod::Switch => "switch"@,
            SwitchMethod::SubUpdateForward => "sub-update-forward"@,
            SwitchMethod::JoiningFetch => "joining-fetch"@,
        }
    }

    pub fn as_str(&self) -> (r: &'static str)
        ensures
            r@ == self.name(),
    {
        match self {
            SwitchMethod::Switch => "switch",
            SwitchMethod::SubUpdateForward => "sub-update-forward",
            SwitchMethod::JoiningFetch => "joining-fetch",
        }
    }
}

#[derive(Debug)]
pub struct SwitchTestConfig {
    pub namespace: String,
    /// The tracks of a run with several switches, in order. Where it is not empty, `track_a` and
    /// `track_b` are passed over.
    pub track_sequence: Vec<String>,
    /// The tracks of a single switch.
    pub track_a: String,
    pub track_b: String,
    pub method: SwitchMethod,
    pub switch_after_ms: u64,
    pub bandwidth_cap_bps: u64,
    pub output_json: Option<String>,
    pub playout: PlayoutConfig,
}

impl SwitchTestConfig {
    pub open spec fn tracks(&self) -> Seq<Seq<char>> {
        if self.track_sequence@.len() > 0 {
            text::texts(self.track_sequence@)
        } else {
            seq![self.track_a@, self.track_b@]
        }
    }

    /// The tracks of the experiment, in order.
    pub fn sequence(&self) -> (r: Vec<String>)
        ensures
            text::texts(r@) == self.tracks(),
    {
        let mut r: Vec<String> = Vec::new();
        if self.track_sequence.len() > 0 {
            let mut i: usize = 0;
            while i < self.track_sequence.len()
                invariant
                    i <= self.track_sequence@.len(),
                    r@.len() == i,
                    forall|j: int| 0 <= j < i ==> (#[trigger] r@[j])@ == self.track_sequence@[j]@,
                decreases self.track_sequence@.len() - i,
            {
                r.push(self.track_sequence[i].clone());
                i = i + 1;
            }
        } else {
            r.push(self.track_a.clone());
            r.push(self.track_b.clone());
        }
        assert(text::texts(r@) =~= self.tracks());
        r
    }
}

/// The file of the event log that goes with a file of statistics.
pub fn log_path(output_json: &str) -> (r: String)
    ensures
        r@ == text::replaced(output_json@, ".json"@, "_events.csv"@),
{
    proof {
        reveal_strlit(".json");
    }
    text::replace(output_json, ".json", "_events.csv")
}

/// The arrival of an object.
#[derive(Debug, Clone, Copy, PartialEq, Eq, Structural)]
pub struct ObjectEvent {
    pub track_alias: u64,
    pub group: u64,
    pub object: u64,
    pub payload_size: usize,
    /// In nanoseconds.
    pub received_at: u64,
}

impl ObjectEvent {
    pub open spec fn wf(self) -> bool {
        self.group <= MAX_ID && self.object <= MAX_ID
    }
}

/// What carries over from one switch to the next.
#[derive(Debug, Clone, Copy, PartialEq, Eq, Structural)]
pub struct SwitchState {
    /// Alias of the track that plays.
    pub current_alias: u64,
    /// The request that subscribed to it.
    pub current_req_id: u64,
    /// The id of the next request.
    pub next_req_id: u64,
}

impl SwitchState {
    pub fn new(initial_alias: u64) -> (s: Self)
        ensures
            s == (SwitchState { current_alias: initial_alias, current_req_id: 0, next_req_id: 1 }),
    {
        SwitchState { current_alias: initial_alias, current_req_id: 0, next_req_id: 1 }
    }

    pub fn take_req_id(&mut self) -> (id: u64)
        requires
            old(self).next_req_id < u64::MAX,
        ensures
            id == old(self).next_req_id,
            *final(self) == (SwitchState {
                next_req_id: (old(self).next_req_id + 1) as u64,
                ..*old(self)
            }),
    {
        let id: u64 = self.next_req_id;
        self.next_req_id = id + 1;
        id
    }
}

/// A log with some more lines and its time set.
pub open spec fn logged(
    before: EventLog,
    log: EventLog,
    lines: Seq<(u64, Seq<char>)>,
    t0: Option<u64>,
) -> bool {
    &&& log.wf()
    &&& log.noted() == before.noted() + lines
    &&& log.t0 == t0
    &&& log.alias_labels == before.alias_labels
}

/// The line that gives a presentation time, if there is one.
pub open spec fn pt_lines(ev: ObjectEvent, label: Seq<char>, pt: Option<int>) -> Seq<
    (u64, Seq<char>),
> {
    match pt {
        Some(t) => seq![(ev.received_at, event_log::pt_line(label, ev.group, ev.object, t))],
        None => Seq::empty(),
    }
}

/// The record after an object of the old track.
pub open spec fn a_noted(record: SwitchRecord, ev: ObjectEvent) -> SwitchRecord {
    SwitchRecord {
        last_a_object_time: Some(ev.received_at),
        last_a_group: Some(ev.group),
        last_a_object: Some(ev.object),
        ..record
    }
}

/// The player after an object of the old track: the first I-frame sets the clock.
pub open spec fn a_clocked(player: PlayerSimulator, ev: ObjectEvent) -> PlayerSimulator {
    if ev.object == 0 && player.t_base is None {
        PlayerSimulator {
            t_base: Some(ev.received_at),
            first_group_a: Some(ev.group),
            ..player
        }
    } else {
        player
    }
}

/// The log's time after an object of the old track.
pub open spec fn a_timed(t0: Option<u64>, player: PlayerSimulator, ev: ObjectEvent) -> Option<u64> {
    if ev.object == 0 && player.t_base is None && t0 is None {
        Some(ev.received_at)
    } else {
        t0
    }
}

fn record_pt(log: &mut EventLog, player: &PlayerSimulator, ev: &ObjectEvent, label: &str, for_b: bool)
    requires
        old(log).wf(),
        player.wf(),
        ev.wf(),
    ensures
        logged(
            *old(log),
            *final(log),
            pt_lines(*ev, label@, player.pt(ev.group, ev.object, for_b)),
            old(log).t0,
        ),
{
    match player.pt_ms(ev.group, ev.object, for_b) {
        Some(pt) => {
            proof {
                stats::lemma_pt_fits(*player, ev.group, ev.object, for_b);
            }
            log.record_pt(ev.received_at, label, ev.group, ev.object, pt);
            assert(log.noted() =~= old(log).noted() + pt_lines(
                *ev,
                label@,
                player.pt(ev.group, ev.object, for_b),
            ));
        },
        None => {
            assert(log.noted() =~= old(log).noted() + Seq::<(u64, Seq<char>)>::empty());
        },
    }
}

/// Notes an object of the old track.
fn note_a_object(
    ev: &ObjectEvent,
    record: &mut SwitchRecord,
    player: &mut PlayerSimulator,
    log: &mut EventLog,
)
    requires
        ev.wf(),
        old(record).wf(),
        old(player).wf(),
        old(log).wf(),
    ensures
        final(record).wf(),
        final(player).wf(),
        *final(record) == a_noted(*old(record), *ev),
        *final(player) == a_clocked(*old(player), *ev),
        logged(
            *old(log),
            *final(log),
            pt_lines(*ev, "A"@, final(player).pt(ev.group, ev.object, false)),
            a_timed(old(log).t0, *old(player), *ev),
        ),
{
    record.last_a_object_time = Some(ev.received_at);
    record.last_a_group = Some(ev.group);
    record.last_a_object = Some(ev.object);
    if ev.object == 0 && player.set_base_if_unset(ev.group, ev.received_at) {
        log.set_t0(ev.received_at);
    }
    record_pt(log, player, ev, "A", false);
}

/// The record after an object of the old track that came behind the decision.
pub open spec fn a_counted(record: SwitchRecord, ev: ObjectEvent, first_b_seen: bool) -> SwitchRecord {
    let r = SwitchRecord {
        a_objects_post_decision: (record.a_objects_post_decision + 1) as u64,
        ..a_noted(record, ev)
    };
    if first_b_seen {
        SwitchRecord { trailing_a_bytes: (r.trailing_a_bytes + ev.payload_size) as u64, ..r }
    } else {
        SwitchRecord { pre_switch_a_bytes: (r.pre_switch_a_bytes + ev.payload_size) as u64, ..r }
    }
}

/// Handles an object of the old track behind the decision: its bytes are needed until the new
/// track was accepted, and excess from then on.
pub fn handle_a_object(
    ev: &ObjectEvent,
    record: &mut SwitchRecord,
    player: &mut PlayerSimulator,
    log: &mut EventLog,
    first_b_seen: bool,
)
    requires
        ev.wf(),
        old(record).wf(),
        old(record).room(ev.payload_size),
        old(player).wf(),
        old(log).wf(),
    ensures
        final(record).wf(),
        final(player).wf(),
        *final(record) == a_counted(*old(record), *ev, first_b_seen),
        *final(player) == a_clocked(*old(player), *ev),
        logged(
            *old(log),
            *final(log),
            pt_lines(*ev, "A"@, final(player).pt(ev.group, ev.object, false)),
            a_timed(old(log).t0, *old(player), *ev),
        ),
{
    note_a_object(ev, record, player, log);
    record.a_objects_post_decision = record.a_objects_post_decision + 1;
    if first_b_seen {
        record.trailing_a_bytes = record.trailing_a_bytes + ev.payload_size as u64;
    } else {
        record.pre_switch_a_bytes = record.pre_switch_a_bytes + ev.payload_size as u64;
    }
}

/// What an object of the new track comes to.
#[verifier::ext_equal]
pub struct BOutcome {
    pub player: PlayerSimulator,
    pub record: SwitchRecord,
    pub overdue_target: Option<u64>,
    pub first_b_seen: bool,
    /// Whether the new track was accepted with this object.
    pub accepted: bool,
    pub lines: Seq<(u64, Seq<char>)>,
}

/// What becomes of an I-frame of the new track. Once an overdue one has been seen, the group that
/// it set is waited for; where no I-frame of the old track has set the clock, the group at the
/// decision is the threshold.
pub open spec fn b_verdict(
    ev: ObjectEvent,
    player: PlayerSimulator,
    record: SwitchRecord,
    overdue_target: Option<u64>,
) -> BAcceptance {
    match overdue_target {
        Some(target) => if ev.group >= target {
            BAcceptance::Overdue
        } else {
            BAcceptance::Stale
        },
        None => match record.decision_a_group {
            Some(d) if player.t_base is None => if ev.group > d {
                BAcceptance::Fresh(
                    (
                        d,
                        match record.decision_a_object {
                            Some(o) => o,
                            None => 0,
                        },
                    ),
                )
            } else {
                BAcceptance::Stale
            },
            _ => player.verdict(ev.group, ev.received_at),
        },
    }
}

/// The frame of the old track that is taken for the last one played, for an overdue I-frame.
pub open spec fn last_received(record: SwitchRecord) -> (u64, u64) {
    (
        match (record.last_a_group, record.decision_a_group) {
            (Some(g), _) => g,
            (None, Some(g)) => g,
            (None, None) => 0,
        },
        match (record.last_a_object, record.decision_a_object) {
            (Some(o), _) => o,
            (None, Some(o)) => o,
            (None, None) => 0,
        },
    )
}

/// The record with the costs of a switch, where the clock is set.
pub open spec fn with_metrics(
    record: SwitchRecord,
    player: PlayerSimulator,
    last_a_group: u64,
    ev: ObjectEvent,
) -> SwitchRecord {
    if player.t_base is Some {
        SwitchRecord {
            a_stopped_at_ms: Some(player.a_stops_at(last_a_group) as i128),
            b_started_at_ms: Some(player.b_starts_at(ev.group, ev.received_at) as i128),
            skipped_gops: PlayerSimulator::skipped(last_a_group, ev.group) as u64,
            skipped_duration_ms: (PlayerSimulator::skipped(last_a_group, ev.group) * player.gop())
                as u128,
            ..record
        }
    } else {
        record
    }
}

/// The record when the new track is accepted, with the frame of the old one that was played last.
pub open spec fn b_accepted(
    record: SwitchRecord,
    player: PlayerSimulator,
    played: (u64, u64),
    ev: ObjectEvent,
) -> SwitchRecord {
    SwitchRecord {
        latest_played_a_group: Some(played.0),
        latest_played_a_object: Some(played.1),
        actual_switch_time: Some(ev.received_at),
        switched_b_group: Some(ev.group),
        group_boundary_aligned: Some(true),
        b_cur_gop_bytes: ev.payload_size as u64,
        useful_b_bytes: (record.useful_b_bytes + ev.payload_size) as u64,
        ..with_metrics(record, player, played.0, ev)
    }
}

/// The record with an object of the new track that is of no use yet.
pub open spec fn b_redundant(record: SwitchRecord, ev: ObjectEvent) -> SwitchRecord {
    SwitchRecord {
        redundant_bytes: (record.redundant_bytes + ev.payload_size) as u64,
        b_objects_pre_active: (record.b_objects_pre_active + 1) as u64,
        ..record
    }
}

/// The record with an object of the new track after its acceptance: the group that it was
/// accepted with is complete when the next one starts.
pub open spec fn b_useful(record: SwitchRecord, ev: ObjectEvent) -> SwitchRecord {
    let r = SwitchRecord {
        useful_b_bytes: (record.useful_b_bytes + ev.payload_size) as u64,
        ..record
    };
    if record.b_gop_payload_bytes is Some {
        r
    } else if ev.object == 0 {
        SwitchRecord { b_gop_payload_bytes: Some(record.b_cur_gop_bytes), ..r }
    } else {
        SwitchRecord { b_cur_gop_bytes: (record.b_cur_gop_bytes + ev.payload_size) as u64, ..r }
    }
}

/// The record with the first object of the new track.
pub open spec fn b_first(record: SwitchRecord, ev: ObjectEvent) -> SwitchRecord {
    if record.first_b_object_time is None {
        SwitchRecord {
            first_b_object_time: Some(ev.received_at),
            first_b_group: Some(ev.group),
            ..record
        }
    } else {
        record
    }
}

/// The lines about the acceptance of the new track.
pub open spec fn acceptance_lines(player: PlayerSimulator, ev: ObjectEvent, label: Seq<char>) -> Seq<
    (u64, Seq<char>),
> {
    pt_lines(ev, label, player.rebased(ev.group, ev.received_at).pt(ev.group, 0, true)).push(
        (ev.received_at, "fresh_b_iframe,"@ + text::dec(ev.group as nat)),
    )
}

/// What an object of the new track, or of a fetch for it, comes to.
pub open spec fn b_object(
    ev: ObjectEvent,
    player: PlayerSimulator,
    record: SwitchRecord,
    overdue_target: Option<u64>,
    first_b_seen: bool,
    label: Seq<char>,
    initial_pt_for_b: bool,
) -> BOutcome {
    let lines = pt_lines(ev, label, player.pt(ev.group, ev.object, initial_pt_for_b));
    let r = b_first(record, ev);
    let same = BOutcome { player, record: r, overdue_target, first_b_seen, accepted: false, lines };
    if first_b_seen {
        BOutcome { record: b_useful(r, ev), ..same }
    } else if ev.object != 0 {
        BOutcome { record: b_redundant(r, ev), ..same }
    } else {
        match b_verdict(ev, player, r, overdue_target) {
            BAcceptance::Fresh(played) => b_taken(same, played, ev, label),
            BAcceptance::Overdue => b_taken(same, last_received(r), ev, label),
            BAcceptance::OverduePending(target) => BOutcome {
                record: b_redundant(r, ev),
                overdue_target: Some(target),
                ..same
            },
            BAcceptance::Stale => BOutcome { record: b_redundant(r, ev), ..same },
        }
    }
}

/// The outcome where the new track is accepted.
pub open spec fn b_taken(
    same: BOutcome,
    played: (u64, u64),
    ev: ObjectEvent,
    label: Seq<char>,
) -> BOutcome {
    BOutcome {
        player: same.player.rebased(ev.group, ev.received_at),
        record: b_accepted(same.record, same.player, played, ev),
        overdue_target: same.overdue_target,
        first_b_seen: true,
        accepted: true,
        lines: same.lines + acceptance_lines(same.player, ev, label),
    }
}

fn classify(
    ev: &ObjectEvent,
    player: &PlayerSimulator,
    record: &SwitchRecord,
    overdue_target: Option<u64>,
) -> (v: BAcceptance)
    requires
        ev.wf(),
        player.wf(),
    ensures
        v == b_verdict(*ev, *player, *record, overdue_target),
{
    if let Some(target) = overdue_target {
        return if ev.group >= target {
            BAcceptance::Overdue
        } else {
            BAcceptance::Stale
        };
    }
    if player.t_base.is_none() {
        if let Some(d) = record.decision_a_group {
            let o: u64 = match record.decision_a_object {
                Some(o) => o,
                None => 0,
            };
            return if ev.group > d {
                BAcceptance::Fresh((d, o))
            } else {
                BAcceptance::Stale
            };
        }
    }
    player.check_b_iframe(ev.group, ev.received_at)
}

fn accept_b(
    ev: &ObjectEvent,
    player: &mut PlayerSimulator,
    record: &mut SwitchRecord,
    log: &mut EventLog,
    played: (u64, u64),
    label: &str,
)
    requires
        ev.wf(),
        ev.object == 0,
        old(player).wf(),
        old(record).wf(),
        old(record).room(ev.payload_size),
        old(log).wf(),
        played.0 <= MAX_ID,
    ensures
        final(player).wf(),
        final(record).wf(),
        *final(player) == old(player).rebased(ev.group, ev.received_at),
        *final(record) == b_accepted(*old(record), *old(player), played, *ev),
        logged(*old(log), *final(log), acceptance_lines(*old(player), *ev, label@), old(log).t0),
{
    record.latest_played_a_group = Some(played.0);
    record.latest_played_a_object = Some(played.1);
    if let Some((a_stopped, b_started, _, skipped_gops, skipped_ms)) =
        player.compute_switch_metrics(played.0, ev.group, ev.received_at) {
        proof {
            stats::lemma_metrics_fit(*player, played.0, ev.group, ev.received_at);
        }
        record.a_stopped_at_ms = Some(a_stopped);
        record.b_started_at_ms = Some(b_started);
        record.skipped_gops = skipped_gops;
        record.skipped_duration_ms = skipped_ms;
    }
    player.reset_base(ev.group, ev.received_at);
    record_pt(log, player, ev, label, true);
    let ghost middle = log.noted();
    record.actual_switch_time = Some(ev.received_at);
    record.switched_b_group = Some(ev.group);
    record.group_boundary_aligned = Some(true);
    record.b_cur_gop_bytes = ev.payload_size as u64;
    record.useful_b_bytes = record.useful_b_bytes + ev.payload_size as u64;
    let mut line = "fresh_b_iframe,".to_owned();
    line.append(decimal(ev.group as u128).as_str());
    log.record(ev.received_at, line.as_str());
    assert(log.noted() =~= old(log).noted() + acceptance_lines(*old(player), *ev, label@));
}

/// Handles an object of the new track, or of a fetch for it. `label` names it in the log, and
/// `initial_pt_for_b` says on whose timeline its presentation time is noted. Says whether the new
/// track was accepted with it.
pub fn process_b_object(
    ev: &ObjectEvent,
    player: &mut PlayerSimulator,
    record: &mut SwitchRecord,
    log: &mut EventLog,
    overdue_target: &mut Option<u64>,
    first_b_seen: &mut bool,
    label: &str,
    initial_pt_for_b: bool,
) -> (accepted: bool)
    requires
        ev.wf(),
        old(player).wf(),
        old(record).wf(),
        old(record).room(ev.payload_size),
        old(log).wf(),
    ensures
        final(player).wf(),
        final(record).wf(),
        ({
            let out = b_object(
                *ev,
                *old(player),
                *old(record),
                *old(overdue_target),
                *old(first_b_seen),
                label@,
                initial_pt_for_b,
            );
            &&& accepted == out.accepted
            &&& *final(player) == out.player
            &&& *final(record) == out.record
            &&& *final(overdue_target) == out.overdue_target
            &&& *final(first_b_seen) == out.first_b_seen
            &&& logged(*old(log), *final(log), out.lines, old(log).t0)
        }),
{
    record_pt(log, player, ev, label, initial_pt_for_b);
    if record.first_b_object_time.is_none() {
        record.first_b_object_time = Some(ev.received_at);
        record.first_b_group = Some(ev.group);
    }
    if *first_b_seen {
        record.useful_b_bytes = record.useful_b_bytes + ev.payload_size as u64;
        if record.b_gop_payload_bytes.is_none() {
            if ev.object == 0 {
                record.b_gop_payload_bytes = Some(record.b_cur_gop_bytes);
            } else {
                record.b_cur_gop_bytes = record.b_cur_gop_bytes + ev.payload_size as u64;
            }
        }
        return false;
    }
    if ev.object != 0 {
        record.redundant_bytes = record.redundant_bytes + ev.payload_size as u64;
        record.b_objects_pre_active = record.b_objects_pre_active + 1;
        return false;
    }
    let ghost noted = log.noted();
    match classify(ev, player, record, *overdue_target) {
        BAcceptance::Fresh(played) => {
            accept_b(ev, player, record, log, played, label);
            *first_b_seen = true;
            proof {
                let lines = pt_lines(
                    *ev,
                    label@,
                    old(player).pt(ev.group, ev.object, initial_pt_for_b),
                );
                assert(log.noted() =~= old(log).noted() + (lines + acceptance_lines(
                    *old(player),
                    *ev,
                    label@,
                )));
            }
            true
        },
        BAcceptance::Overdue => {
            let group: u64 = match record.last_a_group {
                Some(g) => g,
                None => match record.decision_a_group {
                    Some(g) => g,
                    None => 0,
                },
            };
            let object: u64 = match record.last_a_object {
                Some(o) => o,
                None => match record.decision_a_object {
                    Some(o) => o,
                    None => 0,
                },
            };
            accept_b(ev, player, record, log, (group, object), label);
            *first_b_seen = true;
            proof {
                let lines = pt_lines(
                    *ev,
                    label@,
                    old(player).pt(ev.group, ev.object, initial_pt_for_b),
                );
                assert(log.noted() =~= old(log).noted() + (lines + acceptance_lines(
                    *old(player),
                    *ev,
                    label@,
                )));
            }
            true
        },
        BAcceptance::OverduePending(target) => {
            *overdue_target = Some(target);
            record.b_objects_pre_active = record.b_objects_pre_active + 1;
            record.redundant_bytes = record.redundant_bytes + ev.payload_size as u64;
            false
        },
        BAcceptance::Stale => {
            record.b_objects_pre_active = record.b_objects_pre_active + 1;
            record.redundant_bytes = record.redundant_bytes + ev.payload_size as u64;
            false
        },
    }
}

/// Every byte behind the decision is counted once: an object of either track adds its size to
/// exactly one of the four counts.
pub proof fn law_every_byte_is_counted_once(
    ev: ObjectEvent,
    player: PlayerSimulator,
    record: SwitchRecord,
    overdue_target: Option<u64>,
    first_b_seen: bool,
    label: Seq<char>,
    for_b: bool,
)
    requires
        record.wf(),
        record.room(ev.payload_size),
    ensures
        a_counted(record, ev, first_b_seen).byte_count() == record.byte_count() + ev.payload_size,
        b_object(ev, player, record, overdue_target, first_b_seen, label, for_b).record.byte_count()
            == record.byte_count() + ev.payload_size,
        first_b_seen ==> a_counted(record, ev, first_b_seen).excess() == record.excess()
            + ev.payload_size,
        !first_b_seen ==> a_counted(record, ev, first_b_seen).excess() == record.excess(),
{
}

/// The new track is accepted once, with an I-frame, and what comes of it from then on is useful.
pub proof fn law_new_track_is_accepted_once(
    ev: ObjectEvent,
    player: PlayerSimulator,
    record: SwitchRecord,
    overdue_target: Option<u64>,
    first_b_seen: bool,
    label: Seq<char>,
    for_b: bool,
)
    requires
        record.wf(),
        record.room(ev.payload_size),
    ensures
        ({
            let out = b_object(ev, player, record, overdue_target, first_b_seen, label, for_b);
            &&& out.accepted ==> !first_b_seen && out.first_b_seen && ev.object == 0
            &&& out.accepted ==> out.record.switched_b_group == Some(ev.group)
                && out.record.actual_switch_time == Some(ev.received_at)
                && out.record.group_boundary_aligned == Some(true)
            &&& !out.accepted ==> out.first_b_seen == first_b_seen && out.record.switched_b_group
                == record.switched_b_group && out.record.actual_switch_time
                == record.actual_switch_time && out.record.group_boundary_aligned
                == record.group_boundary_aligned
            &&& first_b_seen ==> out.first_b_seen && !out.accepted
            &&& out.first_b_seen ==> out.record.excess() == record.excess()
            &&& !out.first_b_seen ==> out.record.excess() == record.excess() + ev.payload_size
                && out.record.switched_b_group == record.switched_b_group
        }),
{
}

/// An object of the new track, with what it is handled on.
pub struct BCall {
    pub ev: ObjectEvent,
    pub player: PlayerSimulator,
    pub record: SwitchRecord,
    pub overdue_target: Option<u64>,
    pub label: Seq<char>,
    pub for_b: bool,
}

/// What an object of the new track comes to in a call.
pub open spec fn outcome_of(c: BCall, first_b_seen: bool) -> BOutcome {
    b_object(c.ev, c.player, c.record, c.overdue_target, first_b_seen, c.label, c.for_b)
}

/// Whether the new track was accepted in a run of calls, each of which is told whether it was
/// before.
pub open spec fn seen_after(calls: Seq<BCall>) -> bool
    decreases calls.len(),
{
    calls.len() > 0 && outcome_of(calls.last(), seen_after(calls.drop_last())).first_b_seen
}

/// How often the new track was accepted in such a run.
pub open spec fn acceptances(calls: Seq<BCall>) -> nat
    decreases calls.len(),
{
    if calls.len() == 0 {
        0
    } else if outcome_of(calls.last(), seen_after(calls.drop_last())).accepted {
        acceptances(calls.drop_last()) + 1
    } else {
        acceptances(calls.drop_last())
    }
}

/// Over a run of calls, whatever becomes of the player and the record in between, the new track is
/// accepted at most once: exactly if it has been seen at the end.
pub proof fn law_new_track_is_accepted_at_most_once_in_a_run(calls: Seq<BCall>)
    ensures
        acceptances(calls) == if seen_after(calls) {
            1nat
        } else {
            0
        },
    decreases calls.len(),
{
    if calls.len() > 0 {
        law_new_track_is_accepted_at_most_once_in_a_run(calls.drop_last());
    }
}

/// Why a switch test fails.
#[derive(Debug, Clone, Copy, PartialEq, Eq, Structural)]
pub enum SwitchFailure {
    /// A message could not be sent.
    SendFailed,
    /// A message came that answers nothing.
    UnexpectedMessage,
    /// The relay has refused a request.
    RequestRefused,
    /// The control stream has ended.
    StreamEnded,
}

/// A message that is being sent.
#[derive(Debug, Clone, Copy, PartialEq, Eq, Structural)]
pub enum Sending {
    /// The subscription to the new track ahead of the decision.
    SubscribeAhead,
    Switch,
    EnableB,
    /// The subscription that asks where the new track stands.
    Probe,
    CancelProbe,
    SubscribeFuture,
    Fetch,
    /// The old track is stopped before this object of the new one is handled.
    StopA { ev: ObjectEvent, fetched: bool },
    RaiseB,
}

/// A reply that is awaited.
#[derive(Debug, Clone, Copy, PartialEq, Eq, Structural)]
pub enum Reply {
    SubscribedAhead,
    Probe,
    Future,
    FetchOk,
}

#[derive(Debug, Clone, Copy, PartialEq, Eq, Structural)]
pub enum SwitchStage {
    Ready,
    /// Objects of the old track are received until the decision.
    Collecting,
    Sending(Sending),
    Awaiting(Reply),
    /// Objects of both tracks are received.
    Draining,
    Finished,
    Failed(SwitchFailure),
}

/// What is to be done next.
#[derive(Debug)]
pub enum SwitchAction {
    Wait,
    /// Collecting starts: the decision falls after this many milliseconds.
    Collect { ms: u64 },
    Send(ControlMessage),
    /// Draining starts: it ends after this many milliseconds.
    Drain { ms: u64 },
    /// The new track was accepted: draining ends after this many milliseconds.
    DrainTail { ms: u64 },
    Finish,
    Fail(SwitchFailure),
}

/// Draining lasts at least this many milliseconds.
pub const MIN_DRAIN_MS: u64 = 10_000;

/// After the new track was accepted, draining ends after this many milliseconds.
pub const TAIL_MS: u64 = 5_000;

/// How Joining Fetch comes by the new track.
#[derive(Debug, Clone, Copy, PartialEq, Eq, Structural)]
pub enum JoinRoute {
    /// It has not asked yet how far the new track is.
    Unasked,
    /// The new track is at the start of a group, or nothing is known of it: it is taken as it
    /// comes.
    AsItComes,
    /// The new track is inside a group, which is fetched.
    Fetched,
    /// The new track is behind the old one: it is subscribed to anew.
    Anew,
}

/// The alias under which fetched objects come.
pub const FETCH_ALIAS: u64 = 0;

/// One switch from a track to another.
#[derive(Debug)]
pub struct SwitchRun {
    pub method: SwitchMethod,
    pub switch_after_ms: u64,
    /// The track that is switched to.
    pub to: FullTrackName,
    pub state: SwitchState,
    pub stage: SwitchStage,
    /// The new track's alias, once it is known.
    pub b_alias: Option<u64>,
    /// The request that subscribes to the new track, once it was made.
    pub b_req_id: Option<u64>,
    pub record: SwitchRecord,
    pub player: PlayerSimulator,
    pub first_b_seen: bool,
    pub a_stopped: bool,
    pub overdue_target: Option<u64>,
    /// What Joining Fetch has asked for.
    pub route: JoinRoute,
    /// The relay was told to raise the new track's priority.
    pub b_raised: bool,
}

/// How the new track is asked for.
pub open spec fn subscribe_to(
    request_id: u64,
    track: TrackName,
    priority: u8,
    forward: bool,
    filter: MessageParameter,
) -> control::ControlView {
    control::ControlView::Subscribe(
        control::SubscribeView {
            request_id,
            track,
            parameters: seq![
                MessageParameter::SubscriberPriority { priority },
                MessageParameter::Forward { forward },
                filter,
            ],
        },
    )
}

/// An update of one parameter of a request.
pub open spec fn update_of(
    request_id: u64,
    existing_request_id: u64,
    parameter: MessageParameter,
) -> control::ControlView {
    control::ControlView::RequestUpdate {
        request_id,
        existing_request_id,
        parameters: seq![parameter],
    }
}

fn subscribe_message(request_id: u64, track: &FullTrackName, priority: u8, forward: bool) -> (m:
    ControlMessage)
    ensures
        m@ == subscribe_to(request_id, track@, priority, forward, control::latest_object()),
{
    let mut ps: Vec<MessageParameter> = Vec::new();
    ps.push(MessageParameter::SubscriberPriority { priority });
    ps.push(MessageParameter::Forward { forward });
    let m = ControlMessage::Subscribe(Subscribe::new_latest_object(request_id, track.copy(), ps));
    assert(m@ =~= subscribe_to(request_id, track@, priority, forward, control::latest_object()));
    m
}

fn subscribe_from_message(
    request_id: u64,
    track: &FullTrackName,
    priority: u8,
    forward: bool,
    start: Location,
) -> (m: ControlMessage)
    ensures
        m@ == subscribe_to(request_id, track@, priority, forward, control::absolute_start(start)),
{
    let mut ps: Vec<MessageParameter> = Vec::new();
    ps.push(MessageParameter::SubscriberPriority { priority });
    ps.push(MessageParameter::Forward { forward });
    let m = ControlMessage::Subscribe(
        Subscribe::new_absolute_start(request_id, track.copy(), start, ps),
    );
    assert(m@ =~= subscribe_to(
        request_id,
        track@,
        priority,
        forward,
        control::absolute_start(start),
    ));
    m
}

fn update_message(request_id: u64, existing_request_id: u64, parameter: MessageParameter) -> (m:
    ControlMessage)
    ensures
        m@ == update_of(request_id, existing_request_id, parameter),
{
    let mut parameters: Vec<MessageParameter> = Vec::new();
    parameters.push(parameter);
    let m = ControlMessage::RequestUpdate(
        RequestUpdate { request_id, existing_request_id, parameters },
    );
    assert(m@ =~= update_of(request_id, existing_request_id, parameter));
    m
}

/// The subscription to the first track of the experiment: request 0.
pub fn initial_subscribe(config: &SwitchTestConfig, track: &str) -> (m: ControlMessage)
    requires
        names::path_fits(config.namespace@),
    ensures
        m@ == subscribe_to(
            0,
            names::track_at(config.namespace@, track@),
            128,
            true,
            control::latest_object(),
        ),
{
    let name = FullTrackName::from_path(config.namespace.as_str(), track);
    subscribe_message(0, &name, 128, true)
}

/// The alias that the reply to a subscription gives the track.
pub open spec fn subscribed_alias(reply: Result<ControlMessage, ()>) -> Result<u64, SwitchFailure> {
    match reply {
        Ok(ControlMessage::SubscribeOk(m)) => Ok(m.track_alias),
        Ok(_) => Err(SwitchFailure::UnexpectedMessage),
        Err(_) => Err(SwitchFailure::StreamEnded),
    }
}

/// Reads the reply to a subscription.
pub fn expect_subscribe_ok(reply: &Result<ControlMessage, ()>) -> (r: Result<u64, SwitchFailure>)
    ensures
        r == subscribed_alias(*reply),
{
    match reply {
        Ok(ControlMessage::SubscribeOk(m)) => Ok(m.track_alias),
        Ok(_) => Err(SwitchFailure::UnexpectedMessage),
        Err(_) => Err(SwitchFailure::StreamEnded),
    }
}

/// The position that the relay reports for a track.
pub open spec fn reported(ps: Seq<MessageParameter>) -> Option<Location> {
    match message::first_of(ps, message::MessageParameterType::LargestObject) {
        Some(MessageParameter::LargestObject { location }) => Some(location),
        _ => None,
    }
}

fn largest_reported(m: &SubscribeOk) -> (r: Option<Location>)
    ensures
        r == reported(m@.parameters),
{
    match message::find_param(
        &m.subscribe_parameters,
        message::MessageParameterType::LargestObject,
    ) {
        Some(MessageParameter::LargestObject { location }) => Some(location),
        _ => None,
    }
}

/// What an action says.
#[verifier::ext_equal]
pub enum ActionView {
    Wait,
    Collect(u64),
    Send(control::ControlView),
    Drain(u64),
    DrainTail(u64),
    Finish,
    Fail(SwitchFailure),
}

impl View for SwitchAction {
    type V = ActionView;

    open spec fn view(&self) -> ActionView {
        match self {
            SwitchAction::Wait => ActionView::Wait,
            SwitchAction::Collect { ms } => ActionView::Collect(*ms),
            SwitchAction::Send(m) => ActionView::Send(m@),
            SwitchAction::Drain { ms } => ActionView::Drain(*ms),
            SwitchAction::DrainTail { ms } => ActionView::DrainTail(*ms),
            SwitchAction::Finish => ActionView::Finish,
            SwitchAction::Fail(f) => ActionView::Fail(*f),
        }
    }
}

/// What an event makes of a switch, and what it adds to the log.
#[verifier::ext_equal]
pub struct Step {
    pub run: SwitchRun,
    pub lines: Seq<(u64, Seq<char>)>,
    pub labels: Seq<(u64, Seq<char>)>,
    pub t0: Option<u64>,
    pub action: ActionView,
}

/// A step that adds nothing to the log.
pub open spec fn quiet(run: SwitchRun, t0: Option<u64>, action: ActionView) -> Step {
    Step { run, lines: Seq::empty(), labels: Seq::empty(), t0, action }
}

/// The label of a track after some were given.
pub open spec fn label_after(log: EventLog, labels: Seq<(u64, Seq<char>)>, alias: u64) -> Seq<char>
    decreases labels.len(),
{
    if labels.len() == 0 {
        log.label(alias)
    } else if labels.last().0 == alias {
        labels.last().1
    } else {
        label_after(log, labels.drop_last(), alias)
    }
}

/// The log after a step.
pub open spec fn log_stepped(before: EventLog, log: EventLog, step: Step) -> bool {
    &&& log.wf()
    &&& log.noted() == before.noted() + step.lines
    &&& log.t0 == step.t0
    &&& forall|a: u64| #[trigger] log.label(a) == label_after(before, step.labels, a)
}

/// A switch with one more request made: its id is taken.
pub open spec fn with_id_taken(run: SwitchRun) -> SwitchRun {
    SwitchRun {
        state: SwitchState { next_req_id: (run.state.next_req_id + 1) as u64, ..run.state },
        ..run
    }
}

/// A switch with one more control message counted.
pub open spec fn with_message_counted(run: SwitchRun) -> SwitchRun {
    SwitchRun {
        record: SwitchRecord {
            control_messages: (run.record.control_messages + 1) as u64,
            ..run.record
        },
        ..run
    }
}

/// A switch at its start: with Sub Update Forward the new track is subscribed to first, without
/// being forwarded.
pub open spec fn started(run: SwitchRun, t0: Option<u64>, now: u64) -> Step {
    match run.method {
        SwitchMethod::SubUpdateForward => Step {
            run: SwitchRun {
                b_req_id: Some(run.state.next_req_id),
                stage: SwitchStage::Sending(Sending::SubscribeAhead),
                ..with_id_taken(run)
            },
            lines: seq![(now, "subscribe_b"@)],
            labels: Seq::empty(),
            t0,
            action: ActionView::Send(
                subscribe_to(
                    run.state.next_req_id,
                    run.to@,
                    128,
                    false,
                    control::latest_object(),
                ),
            ),
        },
        _ => quiet(
            SwitchRun { stage: SwitchStage::Collecting, ..run },
            t0,
            ActionView::Collect(run.switch_after_ms),
        ),
    }
}

/// The decision: the new track is asked for, in the way of the method.
pub open spec fn decided(run: SwitchRun, t0: Option<u64>, now: u64, at: Option<u64>) -> Step {
    let record = SwitchRecord {
        switch_decision_time: match at {
            Some(t) => Some(t),
            None => run.record.switch_decision_time,
        },
        decision_a_group: run.record.last_a_group,
        decision_a_object: match run.method {
            SwitchMethod::JoiningFetch => run.record.decision_a_object,
            _ => run.record.last_a_object,
        },
        ..run.record
    };
    let id = run.state.next_req_id;
    let next = SwitchRun { record, ..with_id_taken(run) };
    let lines = match at {
        Some(t) => seq![(t, "switch_decision"@)],
        None => Seq::empty(),
    };
    match run.method {
        SwitchMethod::Switch => Step {
            run: SwitchRun {
                b_req_id: Some(id),
                stage: SwitchStage::Sending(Sending::Switch),
                ..next
            },
            lines,
            labels: Seq::empty(),
            t0,
            action: ActionView::Send(
                control::ControlView::Switch {
                    request_id: id,
                    track: run.to@,
                    subscription_request_id: run.state.current_req_id,
                    pairs: Seq::empty(),
                },
            ),
        },
        SwitchMethod::SubUpdateForward => Step {
            run: SwitchRun { stage: SwitchStage::Sending(Sending::EnableB), ..next },
            lines: lines.push((now, "enable_b"@)),
            labels: Seq::empty(),
            t0,
            action: ActionView::Send(
                update_of(id, run.b_req_id->Some_0, MessageParameter::Forward { forward: true }),
            ),
        },
        SwitchMethod::JoiningFetch => Step {
            run: SwitchRun {
                b_req_id: Some(id),
                stage: SwitchStage::Sending(Sending::Probe),
                ..next
            },
            lines: lines.push((now, "subscribe_b"@)),
            labels: Seq::empty(),
            t0,
            action: ActionView::Send(
                subscribe_to(id, run.to@, 200, true, control::latest_object()),
            ),
        },
    }
}

/// An object of the new track, or of the fetch for it. When the new track is accepted, Joining
/// Fetch raises its priority, and the end is in sight.
pub open spec fn b_step(run: SwitchRun, t0: Option<u64>, ev: ObjectEvent, fetched: bool) -> Step {
    let out = b_object(
        ev,
        run.player,
        run.record,
        run.overdue_target,
        run.first_b_seen,
        if fetched {
            "F"@
        } else {
            "B"@
        },
        !fetched,
    );
    let next = SwitchRun {
        player: out.player,
        record: out.record,
        overdue_target: out.overdue_target,
        first_b_seen: out.first_b_seen,
        stage: SwitchStage::Draining,
        ..run
    };
    let waiting = Step {
        run: next,
        lines: out.lines,
        labels: Seq::empty(),
        t0,
        action: ActionView::Wait,
    };
    if !out.accepted {
        waiting
    } else {
        match run.method {
            SwitchMethod::Switch => waiting,
            SwitchMethod::SubUpdateForward => Step {
                action: ActionView::DrainTail(TAIL_MS),
                ..waiting
            },
            SwitchMethod::JoiningFetch => Step {
                run: SwitchRun {
                    stage: SwitchStage::Sending(Sending::RaiseB),
                    ..with_id_taken(next)
                },
                action: ActionView::Send(
                    update_of(
                        next.state.next_req_id,
                        run.b_req_id->Some_0,
                        MessageParameter::SubscriberPriority { priority: 128 },
                    ),
                ),
                ..waiting
            },
        }
    }
}

/// Whether the new track is accepted with an object.
pub open spec fn accepts(run: SwitchRun, ev: ObjectEvent, fetched: bool) -> bool {
    b_object(
        ev,
        run.player,
        run.record,
        run.overdue_target,
        run.first_b_seen,
        if fetched {
            "F"@
        } else {
            "B"@
        },
        !fetched,
    ).accepted
}

/// An object of the new track arrives while the old one is still forwarded: with the I-frame that
/// the new track is accepted with, the old one is stopped, unless the relay does so by itself.
pub open spec fn b_arrived(
    run: SwitchRun,
    t0: Option<u64>,
    ev: ObjectEvent,
    fetched: bool,
    now: u64,
) -> Step {
    if !run.a_stopped && !(run.method is Switch) && accepts(run, ev, fetched) {
        Step {
            run: SwitchRun {
                stage: SwitchStage::Sending(Sending::StopA { ev, fetched }),
                ..with_id_taken(run)
            },
            lines: seq![(now, "stop_a"@)],
            labels: Seq::empty(),
            t0,
            action: ActionView::Send(
                update_of(
                    run.state.next_req_id,
                    run.state.current_req_id,
                    MessageParameter::Forward { forward: false },
                ),
            ),
        }
    } else {
        b_step(run, t0, ev, fetched)
    }
}

/// An object arrives.
pub open spec fn object_step(run: SwitchRun, t0: Option<u64>, ev: ObjectEvent, now: u64) -> Step {
    let player = a_clocked(run.player, ev);
    if ev.track_alias == run.state.current_alias {
        Step {
            run: SwitchRun {
                player,
                record: if run.stage is Collecting {
                    a_noted(run.record, ev)
                } else {
                    a_counted(run.record, ev, run.first_b_seen)
                },
                ..run
            },
            lines: pt_lines(ev, "A"@, player.pt(ev.group, ev.object, false)),
            labels: Seq::empty(),
            t0: a_timed(t0, run.player, ev),
            action: ActionView::Wait,
        }
    } else if run.stage is Collecting {
        quiet(run, t0, ActionView::Wait)
    } else if run.method is JoiningFetch && ev.track_alias == FETCH_ALIAS {
        b_arrived(run, t0, ev, true, now)
    } else if run.b_alias == Some(ev.track_alias) {
        b_arrived(run, t0, ev, false, now)
    } else {
        quiet(run, t0, ActionView::Wait)
    }
}

/// How long draining lasts.
pub open spec fn drain_ms(run: SwitchRun) -> u64 {
    if run.switch_after_ms >= MIN_DRAIN_MS {
        run.switch_after_ms
    } else {
        MIN_DRAIN_MS
    }
}

pub open spec fn draining(run: SwitchRun, t0: Option<u64>) -> Step {
    quiet(
        SwitchRun { stage: SwitchStage::Draining, ..run },
        t0,
        ActionView::Drain(drain_ms(run)),
    )
}

pub open spec fn finished(run: SwitchRun, t0: Option<u64>) -> Step {
    quiet(SwitchRun { stage: SwitchStage::Finished, ..run }, t0, ActionView::Finish)
}

pub open spec fn failed(run: SwitchRun, t0: Option<u64>, f: SwitchFailure) -> Step {
    quiet(SwitchRun { stage: SwitchStage::Failed(f), ..run }, t0, ActionView::Fail(f))
}

/// A message was sent, or could not be. Where the old track cannot be stopped or the new one not
/// be raised, the switch is over; any other message is needed.
pub open spec fn sent_step(run: SwitchRun, t0: Option<u64>, ok: bool, now: u64) -> Step {
    let counted = with_message_counted(run);
    match run.stage {
        SwitchStage::Sending(m) => match m {
            Sending::StopA { ev, fetched } => if !ok {
                finished(run, t0)
            } else {
                b_step(SwitchRun { a_stopped: true, ..counted }, t0, ev, fetched)
            },
            Sending::RaiseB => if !ok {
                finished(run, t0)
            } else {
                quiet(
                    SwitchRun { b_raised: true, stage: SwitchStage::Draining, ..counted },
                    t0,
                    ActionView::DrainTail(TAIL_MS),
                )
            },
            _ => if !ok {
                failed(run, t0, SwitchFailure::SendFailed)
            } else {
                match m {
                    Sending::SubscribeAhead => quiet(
                        SwitchRun {
                            stage: SwitchStage::Awaiting(Reply::SubscribedAhead),
                            ..counted
                        },
                        t0,
                        ActionView::Wait,
                    ),
                    Sending::Probe => quiet(
                        SwitchRun { stage: SwitchStage::Awaiting(Reply::Probe), ..counted },
                        t0,
                        ActionView::Wait,
                    ),
                    Sending::SubscribeFuture => quiet(
                        SwitchRun { stage: SwitchStage::Awaiting(Reply::Future), ..counted },
                        t0,
                        ActionView::Wait,
                    ),
                    Sending::Fetch => quiet(
                        SwitchRun { stage: SwitchStage::Awaiting(Reply::FetchOk), ..counted },
                        t0,
                        ActionView::Wait,
                    ),
                    Sending::CancelProbe => Step {
                        run: SwitchRun {
                            b_req_id: Some(run.state.next_req_id),
                            stage: SwitchStage::Sending(Sending::SubscribeFuture),
                            ..with_id_taken(counted)
                        },
                        lines: seq![(now, "subscribe_b_future"@)],
                        labels: Seq::empty(),
                        t0,
                        action: ActionView::Send(
                            subscribe_to(
                                run.state.next_req_id,
                                run.to@,
                                128,
                                true,
                                control::absolute_start(
                                    Location { group: decision_group(run), object: 0 },
                                ),
                            ),
                        ),
                    },
                    _ => draining(counted, t0),
                }
            },
        },
        _ => quiet(run, t0, ActionView::Wait),
    }
}

/// The group of the old track at the decision.
pub open spec fn decision_group(run: SwitchRun) -> u64 {
    match run.record.decision_a_group {
        Some(g) => g,
        None => 0,
    }
}

/// The probe was answered: the new track is subscribed to anew from the old one's group if it is
/// behind, its running group is fetched if it is inside one, and nothing more is asked for if it
/// is at the start of one or its position is not known.
pub open spec fn probed(run: SwitchRun, t0: Option<u64>, ok: control::SubscribeOkView, now: u64) -> Step {
    let known = SwitchRun { b_alias: Some(ok.track_alias), ..run };
    let heard = Step {
        lines: seq![(now, "subscribe_ok_b"@)],
        labels: seq![(ok.track_alias, "B"@)],
        ..draining(SwitchRun { route: JoinRoute::AsItComes, ..known }, t0)
    };
    match reported(ok.parameters) {
        Some(l) => if l.group < decision_group(run) {
            Step {
                run: SwitchRun {
                    route: JoinRoute::Anew,
                    stage: SwitchStage::Sending(Sending::CancelProbe),
                    ..known
                },
                action: ActionView::Send(control::ControlView::Unsubscribe(run.b_req_id->Some_0)),
                ..heard
            }
        } else if l.object > 0 {
            Step {
                run: SwitchRun {
                    route: JoinRoute::Fetched,
                    stage: SwitchStage::Sending(Sending::Fetch),
                    ..with_id_taken(known)
                },
                lines: heard.lines.push((now, "fetch_sent"@)),
                labels: heard.labels.push((FETCH_ALIAS, "F"@)),
                action: ActionView::Send(
                    control::ControlView::Fetch(
                        control::FetchView {
                            request_id: run.state.next_req_id,
                            fetch_type: FetchType::RelativeFetch,
                            standalone: None,
                            joining: Some(
                                control::JoiningFetchProps {
                                    joining_request_id: run.b_req_id->Some_0,
                                    joining_start: 0,
                                },
                            ),
                            parameters: seq![MessageParameter::SubscriberPriority { priority: 50 }],
                        },
                    ),
                ),
                ..heard
            }
        } else {
            heard
        },
        None => heard,
    }
}

/// A message comes on the control stream, or none will come.
pub open spec fn reply_step(
    run: SwitchRun,
    t0: Option<u64>,
    reply: Result<ControlMessage, ()>,
    now: u64,
) -> Step {
    match run.stage {
        SwitchStage::Draining => match reply {
            Ok(ControlMessage::SubscribeOk(m)) if run.method is Switch => Step {
                run: SwitchRun { b_alias: Some(m.track_alias), ..run },
                lines: seq![(now, "subscribe_ok_b"@)],
                labels: seq![(m.track_alias, "B"@)],
                t0,
                action: ActionView::Wait,
            },
            Ok(_) => quiet(run, t0, ActionView::Wait),
            Err(_) => finished(run, t0),
        },
        SwitchStage::Awaiting(Reply::SubscribedAhead) => match subscribed_alias(reply) {
            Ok(alias) => Step {
                run: SwitchRun {
                    b_alias: Some(alias),
                    stage: SwitchStage::Collecting,
                    ..run
                },
                lines: seq![(now, "subscribe_ok_b"@)],
                labels: seq![(alias, "B"@)],
                t0,
                action: ActionView::Collect(run.switch_after_ms),
            },
            Err(f) => failed(run, t0, f),
        },
        SwitchStage::Awaiting(Reply::Probe) => match reply {
            Ok(ControlMessage::SubscribeOk(m)) => probed(run, t0, m@, now),
            Ok(_) => failed(run, t0, SwitchFailure::UnexpectedMessage),
            Err(_) => failed(run, t0, SwitchFailure::StreamEnded),
        },
        SwitchStage::Awaiting(Reply::Future) => match subscribed_alias(reply) {
            Ok(alias) => Step {
                labels: seq![(alias, "B"@)],
                ..draining(SwitchRun { b_alias: Some(alias), ..run }, t0)
            },
            Err(f) => failed(run, t0, f),
        },
        SwitchStage::Awaiting(Reply::FetchOk) => match reply {
            Ok(ControlMessage::FetchOk(_)) => draining(run, t0),
            Ok(ControlMessage::RequestError(_)) => failed(run, t0, SwitchFailure::RequestRefused),
            Ok(_) => quiet(run, t0, ActionView::Wait),
            Err(_) => failed(run, t0, SwitchFailure::StreamEnded),
        },
        _ => quiet(run, t0, ActionView::Wait),
    }
}

/// How many control messages Joining Fetch takes until it has asked for the new track.
pub open spec fn messages_on(route: JoinRoute) -> int {
    match route {
        JoinRoute::Unasked => 0,
        JoinRoute::AsItComes => 1,
        JoinRoute::Fetched => 2,
        JoinRoute::Anew => 3,
    }
}

/// How many control messages have been counted while the new track is being asked for.
pub open spec fn messages_until(stage: SwitchStage) -> int {
    match stage {
        SwitchStage::Sending(Sending::CancelProbe) => 1,
        SwitchStage::Sending(Sending::Fetch) => 1,
        SwitchStage::Sending(Sending::SubscribeFuture) => 2,
        SwitchStage::Awaiting(Reply::Probe) => 1,
        SwitchStage::Awaiting(Reply::FetchOk) => 2,
        SwitchStage::Awaiting(Reply::Future) => 3,
        _ => 0,
    }
}

pub open spec fn one_if(b: bool) -> int {
    if b {
        1
    } else {
        0
    }
}

impl SwitchRun {
    /// Whether the new track has been asked for, so that objects of both are received.
    pub open spec fn asked(&self) -> bool {
        match self.stage {
            SwitchStage::Draining | SwitchStage::Finished => true,
            SwitchStage::Sending(Sending::StopA { .. }) => true,
            SwitchStage::Sending(Sending::RaiseB) => true,
            _ => false,
        }
    }

    /// The control messages counted are those of the method so far.
    pub open spec fn counted(&self) -> bool {
        let n = self.record.control_messages;
        match self.method {
            SwitchMethod::Switch => if self.asked() {
                n == 1
            } else {
                n == 0
            },
            SwitchMethod::SubUpdateForward => match self.stage {
                SwitchStage::Ready | SwitchStage::Sending(Sending::SubscribeAhead) => n == 0,
                SwitchStage::Failed(_) => n <= 1,
                _ => if self.asked() {
                    n == 2 + one_if(self.a_stopped)
                } else {
                    n == 1
                },
            },
            SwitchMethod::JoiningFetch => match self.stage {
                SwitchStage::Failed(_) => n <= 3,
                _ => if self.asked() {
                    n == messages_on(self.route) + one_if(self.a_stopped) + one_if(self.b_raised)
                } else {
                    n == messages_until(self.stage)
                },
            },
        }
    }

    /// How many control messages a switch has taken that is over. Switch takes one. Sub Update
    /// Forward takes two, and a third with the acceptance of the new track. Joining Fetch takes
    /// those of its way, one more with the acceptance, and one more if the priority was raised.
    pub open spec fn messages(&self) -> int {
        match self.method {
            SwitchMethod::Switch => 1,
            SwitchMethod::SubUpdateForward => 2 + one_if(self.first_b_seen),
            SwitchMethod::JoiningFetch => messages_on(self.route) + one_if(self.first_b_seen)
                + one_if(self.b_raised),
        }
    }

    /// The stage is one of the method's.
    pub open spec fn stage_ok(&self) -> bool {
        match self.stage {
            SwitchStage::Sending(Sending::Switch) => self.method is Switch,
            SwitchStage::Sending(Sending::SubscribeAhead)
            | SwitchStage::Sending(Sending::EnableB)
            | SwitchStage::Awaiting(Reply::SubscribedAhead) => self.method is SubUpdateForward,
            SwitchStage::Sending(Sending::StopA { ev, fetched }) => !(self.method is Switch)
                && ev.wf() && !self.a_stopped && accepts(*self, ev, fetched),
            SwitchStage::Sending(Sending::RaiseB) => self.method is JoiningFetch
                && self.first_b_seen,
            SwitchStage::Sending(_) | SwitchStage::Awaiting(_) => self.method is JoiningFetch,
            _ => true,
        }
    }

    /// The way that Joining Fetch takes is settled when the probe is answered, and the priority
    /// is raised once the new track was accepted.
    pub open spec fn route_ok(&self) -> bool {
        &&& self.b_raised ==> self.method is JoiningFetch && self.first_b_seen
            && !(self.stage is Sending)
        &&& self.method is JoiningFetch && self.stage is Draining && self.first_b_seen
            ==> self.b_raised
        &&& self.method is JoiningFetch && self.first_b_seen ==> !(self.route is Unasked)
        &&& match self.stage {
            SwitchStage::Sending(Sending::Fetch) | SwitchStage::Awaiting(Reply::FetchOk) =>
                self.route is Fetched,
            SwitchStage::Sending(Sending::CancelProbe)
            | SwitchStage::Sending(Sending::SubscribeFuture)
            | SwitchStage::Awaiting(Reply::Future) => self.route is Anew,
            SwitchStage::Finished => true,
            SwitchStage::Failed(_) => true,
            _ => self.method is JoiningFetch && self.asked() <==> !(self.route is Unasked),
        }
    }

    pub open spec fn wf(&self) -> bool {
        &&& self.player.wf()
        &&& self.record.wf()
        &&& self.stage_ok()
        &&& self.counted()
        &&& self.route_ok()
        &&& !self.asked() ==> !self.a_stopped && !self.first_b_seen
        &&& self.method is Switch ==> !self.a_stopped
        &&& !(self.method is Switch) ==> self.a_stopped == self.first_b_seen
        &&& match self.method {
            SwitchMethod::Switch => true,
            SwitchMethod::SubUpdateForward => self.stage is Ready || self.b_req_id is Some,
            SwitchMethod::JoiningFetch => self.stage is Ready || self.stage is Collecting
                || self.stage is Finished || self.b_req_id is Some,
        }
    }
}

proof fn lemma_no_labels(log: EventLog)
    ensures
        forall|a: u64| #[trigger] log.label(a) == label_after(log, Seq::empty(), a),
{
}

proof fn lemma_one_label(log: EventLog, alias: u64, label: Seq<char>, a: u64)
    ensures
        label_after(log, seq![(alias, label)], a) == if a == alias {
            label
        } else {
            log.label(a)
        },
{
    let labels = seq![(alias, label)];
    assert(labels.drop_last() =~= Seq::<(u64, Seq<char>)>::empty());
    assert(label_after(log, labels.drop_last(), a) == log.label(a));
}

impl SwitchRun {
    /// A switch that is about to start.
    pub fn new(
        config: &SwitchTestConfig,
        state: SwitchState,
        from_track: &str,
        to_track: &str,
    ) -> (run: Self)
        requires
            config.playout.wf(),
            names::path_fits(config.namespace@),
        ensures
            run.wf(),
            run.to@ == names::track_at(config.namespace@, to_track@),
            run.record.track_from@ == from_track@,
            run.record.track_to@ == to_track@,
            run == (SwitchRun {
                method: config.method,
                switch_after_ms: config.switch_after_ms,
                to: run.to,
                state,
                stage: SwitchStage::Ready,
                b_alias: None,
                b_req_id: None,
                record: SwitchRecord::blank(run.record.track_from, run.record.track_to),
                player: PlayerSimulator::idle(config.playout),
                first_b_seen: false,
                a_stopped: false,
                overdue_target: None,
                route: JoinRoute::Unasked,
                b_raised: false,
            }),
    {
        SwitchRun {
            method: config.method,
            switch_after_ms: config.switch_after_ms,
            to: FullTrackName::from_path(config.namespace.as_str(), to_track),
            state,
            stage: SwitchStage::Ready,
            b_alias: None,
            b_req_id: None,
            record: SwitchRecord::new(from_track, to_track),
            player: PlayerSimulator::new(&config.playout),
            first_b_seen: false,
            a_stopped: false,
            overdue_target: None,
            route: JoinRoute::Unasked,
            b_raised: false,
        }
    }

    /// Starts the switch.
    pub fn start(&mut self, log: &mut EventLog, now: u64) -> (action: SwitchAction)
        requires
            old(self).wf(),
            old(self).stage is Ready,
            old(self).state.next_req_id < u64::MAX,
            old(log).wf(),
        ensures
            final(self).wf(),
            ({
                let step = started(*old(self), old(log).t0, now);
                &&& *final(self) == step.run
                &&& action@ == step.action
                &&& log_stepped(*old(log), *final(log), step)
            }),
    {
        let ghost before = *log;
        proof {
            lemma_no_labels(before);
        }
        match self.method {
            SwitchMethod::SubUpdateForward => {
                let id: u64 = self.state.take_req_id();
                self.b_req_id = Some(id);
                self.stage = SwitchStage::Sending(Sending::SubscribeAhead);
                log.record(now, "subscribe_b");
                assert(log.noted() =~= before.noted() + seq![(now, "subscribe_b"@)]);
                SwitchAction::Send(subscribe_message(id, &self.to, 128, false))
            },
            _ => {
                self.stage = SwitchStage::Collecting;
                assert(log.noted() =~= before.noted() + Seq::<(u64, Seq<char>)>::empty());
                SwitchAction::Collect { ms: self.switch_after_ms }
            },
        }
    }

    fn ask_for_b(&mut self, log: &mut EventLog, now: u64, at: Option<u64>) -> (action: SwitchAction)
        requires
            old(self).wf(),
            old(self).stage is Collecting,
            old(self).state.next_req_id < u64::MAX,
            old(log).wf(),
        ensures
            final(self).wf(),
            ({
                let step = decided(*old(self), old(log).t0, now, at);
                &&& *final(self) == step.run
                &&& action@ == step.action
                &&& log_stepped(*old(log), *final(log), step)
            }),
    {
        let ghost before = *log;
        let ghost step = decided(*self, log.t0, now, at);
        proof {
            lemma_no_labels(before);
        }
        if let Some(t) = at {
            self.record.switch_decision_time = Some(t);
            log.record(t, "switch_decision");
        }
        self.record.decision_a_group = self.record.last_a_group;
        let id: u64 = self.state.take_req_id();
        match self.method {
            SwitchMethod::Switch => {
                self.record.decision_a_object = self.record.last_a_object;
                self.b_req_id = Some(id);
                self.stage = SwitchStage::Sending(Sending::Switch);
                assert(log.noted() =~= before.noted() + step.lines);
                let m = ControlMessage::Switch(
                    Switch {
                        request_id: id,
                        track: self.to.copy(),
                        subscription_request_id: self.state.current_req_id,
                        subscribe_parameters: Vec::new(),
                    },
                );
                assert(ActionView::Send(m@) =~= step.action);
                SwitchAction::Send(m)
            },
            SwitchMethod::SubUpdateForward => {
                self.record.decision_a_object = self.record.last_a_object;
                self.stage = SwitchStage::Sending(Sending::EnableB);
                log.record(now, "enable_b");
                assert(log.noted() =~= before.noted() + step.lines);
                SwitchAction::Send(
                    update_message(
                        id,
                        self.b_req_id.unwrap(),
                        MessageParameter::Forward { forward: true },
                    ),
                )
            },
            SwitchMethod::JoiningFetch => {
                self.b_req_id = Some(id);
                self.stage = SwitchStage::Sending(Sending::Probe);
                log.record(now, "subscribe_b");
                assert(log.noted() =~= before.noted() + step.lines);
                SwitchAction::Send(subscribe_message(id, &self.to, 200, true))
            },
        }
    }

    /// The time of the decision has come.
    pub fn decide(&mut self, log: &mut EventLog, now: u64) -> (action: SwitchAction)
        requires
            old(self).wf(),
            old(self).stage is Collecting,
            old(self).state.next_req_id < u64::MAX,
            old(log).wf(),
        ensures
            final(self).wf(),
            ({
                let step = decided(*old(self), old(log).t0, now, Some(now));
                &&& *final(self) == step.run
                &&& action@ == step.action
                &&& log_stepped(*old(log), *final(log), step)
            }),
    {
        self.ask_for_b(log, now, Some(now))
    }

    /// No more objects will come. Before the decision, Joining Fetch gives the switch up, and the
    /// other methods ask for the new track at once; behind it, the switch is over.
    pub fn objects_ended(&mut self, log: &mut EventLog, now: u64) -> (action: SwitchAction)
        requires
            old(self).wf(),
            old(self).stage is Collecting || old(self).stage is Draining,
            old(self).state.next_req_id < u64::MAX,
            old(log).wf(),
        ensures
            final(self).wf(),
            ({
                let step = if old(self).stage is Collecting && !(old(self).method is JoiningFetch) {
                    decided(*old(self), old(log).t0, now, None)
                } else {
                    finished(*old(self), old(log).t0)
                };
                &&& *final(self) == step.run
                &&& action@ == step.action
                &&& log_stepped(*old(log), *final(log), step)
            }),
    {
        let collecting = match self.stage {
            SwitchStage::Collecting => true,
            _ => false,
        };
        if collecting && self.method != SwitchMethod::JoiningFetch {
            return self.ask_for_b(log, now, None);
        }
        self.stage = SwitchStage::Finished;
        proof {
            lemma_no_labels(*log);
            assert(log.noted() =~= log.noted() + Seq::<(u64, Seq<char>)>::empty());
        }
        SwitchAction::Finish
    }

    /// Whether an object of the new track may be taken in: the switch is draining and the object
    /// changes nothing about the old track, or the old track was stopped for it just now.
    spec fn takes(&self, ev: ObjectEvent, fetched: bool) -> bool {
        let taken = accepts(*self, ev, fetched);
        match self.stage {
            SwitchStage::Draining => self.wf() && (taken ==> self.method is Switch),
            SwitchStage::Sending(Sending::StopA { .. }) => {
                &&& taken
                &&& self.a_stopped
                &&& !(self.method is Switch)
                &&& self.player.wf()
                &&& self.record.wf()
                &&& !self.first_b_seen
                &&& !self.b_raised
                &&& self.counted()
                &&& self.method is JoiningFetch <==> !(self.route is Unasked)
                &&& self.b_req_id is Some
            },
            _ => false,
        }
    }

    fn take_b(&mut self, log: &mut EventLog, ev: &ObjectEvent, fetched: bool) -> (action:
        SwitchAction)
        requires
            ev.wf(),
            old(self).takes(*ev, fetched),
            old(self).record.room(ev.payload_size),
            old(self).state.next_req_id < u64::MAX,
            old(log).wf(),
        ensures
            final(self).wf(),
            ({
                let step = b_step(*old(self), old(log).t0, *ev, fetched);
                &&& *final(self) == step.run
                &&& action@ == step.action
                &&& log_stepped(*old(log), *final(log), step)
            }),
    {
        let ghost before = *log;
        proof {
            lemma_no_labels(before);
            law_new_track_is_accepted_once(
                *ev,
                self.player,
                self.record,
                self.overdue_target,
                self.first_b_seen,
                if fetched {
                    "F"@
                } else {
                    "B"@
                },
                !fetched,
            );
        }
        let label: &str = if fetched {
            "F"
        } else {
            "B"
        };
        let accepted = process_b_object(
            ev,
            &mut self.player,
            &mut self.record,
            log,
            &mut self.overdue_target,
            &mut self.first_b_seen,
            label,
            !fetched,
        );
        self.stage = SwitchStage::Draining;
        proof {
            assert(forall|a: u64| #[trigger] log.label(a) == before.label(a));
        }
        if !accepted {
            return SwitchAction::Wait;
        }
        match self.method {
            SwitchMethod::Switch => SwitchAction::Wait,
            SwitchMethod::SubUpdateForward => SwitchAction::DrainTail { ms: TAIL_MS },
            SwitchMethod::JoiningFetch => {
                let id: u64 = self.state.take_req_id();
                self.stage = SwitchStage::Sending(Sending::RaiseB);
                SwitchAction::Send(
                    update_message(
                        id,
                        self.b_req_id.unwrap(),
                        MessageParameter::SubscriberPriority { priority: 128 },
                    ),
                )
            },
        }
    }

    fn would_accept(&self, ev: &ObjectEvent, fetched: bool) -> (b: bool)
        requires
            ev.wf(),
            self.player.wf(),
        ensures
            b == accepts(*self, *ev, fetched),
    {
        if self.first_b_seen || ev.object != 0 {
            return false;
        }
        match classify(ev, &self.player, &self.record, self.overdue_target) {
            BAcceptance::Fresh(_) => true,
            BAcceptance::Overdue => true,
            _ => false,
        }
    }

    fn stop_a_or_take_b(&mut self, log: &mut EventLog, ev: &ObjectEvent, fetched: bool, now: u64) -> (
    action: SwitchAction)
        requires
            ev.wf(),
            old(self).wf(),
            old(self).stage is Draining,
            old(self).record.room(ev.payload_size),
            old(self).state.next_req_id < u64::MAX,
            old(log).wf(),
        ensures
            final(self).wf(),
            ({
                let step = b_arrived(*old(self), old(log).t0, *ev, fetched, now);
                &&& *final(self) == step.run
                &&& action@ == step.action
                &&& log_stepped(*old(log), *final(log), step)
            }),
    {
        let ghost before = *log;
        proof {
            lemma_no_labels(before);
        }
        if !self.a_stopped && self.method != SwitchMethod::Switch && self.would_accept(ev, fetched) {
            let id: u64 = self.state.take_req_id();
            log.record(now, "stop_a");
            assert(log.noted() =~= before.noted() + seq![(now, "stop_a"@)]);
            self.stage = SwitchStage::Sending(Sending::StopA { ev: *ev, fetched });
            return SwitchAction::Send(
                update_message(
                    id,
                    self.state.current_req_id,
                    MessageParameter::Forward { forward: false },
                ),
            );
        }
        self.take_b(log, ev, fetched)
    }

    /// An object arrives, before or behind the decision.
    pub fn object(&mut self, log: &mut EventLog, ev: &ObjectEvent, now: u64) -> (action:
        SwitchAction)
        requires
            ev.wf(),
            old(self).wf(),
            old(self).stage is Collecting || old(self).stage is Draining,
            old(self).record.room(ev.payload_size),
            old(self).state.next_req_id < u64::MAX,
            old(log).wf(),
        ensures
            final(self).wf(),
            ({
                let step = object_step(*old(self), old(log).t0, *ev, now);
                &&& *final(self) == step.run
                &&& action@ == step.action
                &&& log_stepped(*old(log), *final(log), step)
            }),
    {
        let ghost before = *log;
        proof {
            lemma_no_labels(before);
        }
        let collecting = match self.stage {
            SwitchStage::Collecting => true,
            _ => false,
        };
        if ev.track_alias == self.state.current_alias {
            if collecting {
                note_a_object(ev, &mut self.record, &mut self.player, log);
            } else {
                handle_a_object(
                    ev,
                    &mut self.record,
                    &mut self.player,
                    log,
                    self.first_b_seen,
                );
            }
            proof {
                assert(forall|a: u64| #[trigger] log.label(a) == before.label(a));
            }
            return SwitchAction::Wait;
        }
        if !collecting {
            if self.method == SwitchMethod::JoiningFetch && ev.track_alias == FETCH_ALIAS {
                return self.stop_a_or_take_b(log, ev, true, now);
            }
            if let Some(alias) = self.b_alias {
                if alias == ev.track_alias {
                    return self.stop_a_or_take_b(log, ev, false, now);
                }
            }
        }
        assert(log.noted() =~= before.noted() + Seq::<(u64, Seq<char>)>::empty());
        SwitchAction::Wait
    }

    /// The time for draining is over.
    pub fn drained(&mut self) -> (action: SwitchAction)
        requires
            old(self).wf(),
            old(self).stage is Draining,
        ensures
            final(self).wf(),
            action is Finish,
            *final(self) == (SwitchRun { stage: SwitchStage::Finished, ..*old(self) }),
    {
        self.stage = SwitchStage::Finished;
        SwitchAction::Finish
    }

    /// A message was sent, or could not be.
    pub fn sent(&mut self, log: &mut EventLog, ok: bool, now: u64) -> (action: SwitchAction)
        requires
            old(self).wf(),
            old(self).stage is Sending,
            old(self).stage matches SwitchStage::Sending(Sending::StopA { ev, .. }) ==> old(self).record.room(ev.payload_size),
            old(self).state.next_req_id < u64::MAX,
            old(log).wf(),
        ensures
            final(self).wf(),
            ({
                let step = sent_step(*old(self), old(log).t0, ok, now);
                &&& *final(self) == step.run
                &&& action@ == step.action
                &&& log_stepped(*old(log), *final(log), step)
            }),
    {
        let ghost before = *log;
        let ghost step = sent_step(*self, log.t0, ok, now);
        proof {
            lemma_no_labels(before);
            assert(log.noted() =~= before.noted() + Seq::<(u64, Seq<char>)>::empty());
        }
        let sending = match self.stage {
            SwitchStage::Sending(m) => m,
            _ => Sending::Switch,
        };
        if !ok {
            return match sending {
                Sending::StopA { .. } | Sending::RaiseB => {
                    self.stage = SwitchStage::Finished;
                    SwitchAction::Finish
                },
                _ => {
                    self.stage = SwitchStage::Failed(SwitchFailure::SendFailed);
                    SwitchAction::Fail(SwitchFailure::SendFailed)
                },
            };
        }
        self.record.control_messages = self.record.control_messages + 1;
        match sending {
            Sending::StopA { ev, fetched } => {
                self.a_stopped = true;
                self.take_b(log, &ev, fetched)
            },
            Sending::RaiseB => {
                self.b_raised = true;
                self.stage = SwitchStage::Draining;
                SwitchAction::DrainTail { ms: TAIL_MS }
            },
            Sending::SubscribeAhead => {
                self.stage = SwitchStage::Awaiting(Reply::SubscribedAhead);
                SwitchAction::Wait
            },
            Sending::Probe => {
                self.stage = SwitchStage::Awaiting(Reply::Probe);
                SwitchAction::Wait
            },
            Sending::SubscribeFuture => {
                self.stage = SwitchStage::Awaiting(Reply::Future);
                SwitchAction::Wait
            },
            Sending::Fetch => {
                self.stage = SwitchStage::Awaiting(Reply::FetchOk);
                SwitchAction::Wait
            },
            Sending::CancelProbe => {
                let id: u64 = self.state.take_req_id();
                self.b_req_id = Some(id);
                self.stage = SwitchStage::Sending(Sending::SubscribeFuture);
                log.record(now, "subscribe_b_future");
                assert(log.noted() =~= before.noted() + seq![(now, "subscribe_b_future"@)]);
                let group: u64 = match self.record.decision_a_group {
                    Some(g) => g,
                    None => 0,
                };
                SwitchAction::Send(
                    subscribe_from_message(id, &self.to, 128, true, Location::new(group, 0)),
                )
            },
            _ => self.start_draining(),
        }
    }

    fn start_draining(&mut self) -> (action: SwitchAction)
        ensures
            *final(self) == (SwitchRun { stage: SwitchStage::Draining, ..*old(self) }),
            action@ == ActionView::Drain(drain_ms(*old(self))),
    {
        self.stage = SwitchStage::Draining;
        if self.switch_after_ms >= MIN_DRAIN_MS {
            SwitchAction::Drain { ms: self.switch_after_ms }
        } else {
            SwitchAction::Drain { ms: MIN_DRAIN_MS }
        }
    }
}

fn name_b(log: &mut EventLog, alias: u64, now: u64)
    requires
        old(log).wf(),
    ensures
        final(log).wf(),
        final(log).noted() == old(log).noted() + seq![(now, "subscribe_ok_b"@)],
        final(log).t0 == old(log).t0,
        forall|a: u64| #[trigger]
            final(log).label(a) == label_after(*old(log), seq![(alias, "B"@)], a),
{
    log.record(now, "subscribe_ok_b");
    assert(log.noted() =~= old(log).noted() + seq![(now, "subscribe_ok_b"@)]);
    log.register_alias(alias, "B");
    proof {
        assert forall|a: u64| #[trigger] log.label(a) == label_after(
            *old(log),
            seq![(alias, "B"@)],
            a,
        ) by {
            lemma_one_label(*old(log), alias, "B"@, a);
        }
    }
}

impl SwitchRun {
    fn follow_probe(&mut self, log: &mut EventLog, ok: &SubscribeOk, now: u64) -> (action:
        SwitchAction)
        requires
            old(self).wf(),
            old(self).stage == SwitchStage::Awaiting(Reply::Probe),
            old(self).state.next_req_id < u64::MAX,
            old(log).wf(),
        ensures
            final(self).wf(),
            ({
                let step = probed(*old(self), old(log).t0, ok@, now);
                &&& *final(self) == step.run
                &&& action@ == step.action
                &&& log_stepped(*old(log), *final(log), step)
            }),
    {
        let ghost before = *log;
        let ghost step = probed(*self, log.t0, ok@, now);
        let alias: u64 = ok.track_alias;
        name_b(log, alias, now);
        self.b_alias = Some(alias);
        let decision: u64 = match self.record.decision_a_group {
            Some(g) => g,
            None => 0,
        };
        let probe: u64 = self.b_req_id.unwrap();
        match largest_reported(ok) {
            Some(l) => {
                if l.group < decision {
                    self.route = JoinRoute::Anew;
                    self.stage = SwitchStage::Sending(Sending::CancelProbe);
                    return SwitchAction::Send(ControlMessage::Unsubscribe { request_id: probe });
                }
                if l.object > 0 {
                    let id: u64 = self.state.take_req_id();
                    let ghost named = *log;
                    log.register_alias(FETCH_ALIAS, "F");
                    let ghost marked = *log;
                    log.record(now, "fetch_sent");
                    proof {
                        assert(log.noted() =~= before.noted() + step.lines);
                        let labels = seq![(alias, "B"@)].push((FETCH_ALIAS, "F"@));
                        assert(labels.drop_last() =~= seq![(alias, "B"@)]);
                        assert forall|a: u64| #[trigger] log.label(a) == label_after(
                            before,
                            labels,
                            a,
                        ) by {
                            assert(named.label(a) == label_after(before, seq![(alias, "B"@)], a));
                            assert(log.label(a) == marked.label(a));
                        }
                    }
                    self.route = JoinRoute::Fetched;
                    self.stage = SwitchStage::Sending(Sending::Fetch);
                    let mut ps: Vec<MessageParameter> = Vec::new();
                    ps.push(MessageParameter::SubscriberPriority { priority: 50 });
                    let fetch = Fetch::new_joining(id, FetchType::RelativeFetch, probe, 0, ps);
                    let m = ControlMessage::Fetch(fetch.unwrap());
                    assert(ActionView::Send(m@) =~= step.action);
                    return SwitchAction::Send(m);
                }
            },
            None => {},
        }
        self.route = JoinRoute::AsItComes;
        self.start_draining()
    }

    fn fail(&mut self, f: SwitchFailure) -> (action: SwitchAction)
        ensures
            *final(self) == (SwitchRun { stage: SwitchStage::Failed(f), ..*old(self) }),
            action@ == ActionView::Fail(f),
    {
        self.stage = SwitchStage::Failed(f);
        SwitchAction::Fail(f)
    }

    /// A message comes on the control stream, or none will come.
    pub fn reply(&mut self, log: &mut EventLog, reply: &Result<ControlMessage, ()>, now: u64) -> (
    action: SwitchAction)
        requires
            old(self).wf(),
            old(self).stage is Awaiting || old(self).stage is Draining,
            old(self).state.next_req_id < u64::MAX,
            old(log).wf(),
        ensures
            final(self).wf(),
            ({
                let step = reply_step(*old(self), old(log).t0, *reply, now);
                &&& *final(self) == step.run
                &&& action@ == step.action
                &&& log_stepped(*old(log), *final(log), step)
            }),
    {
        let ghost before = *log;
        proof {
            lemma_no_labels(before);
            assert(log.noted() =~= before.noted() + Seq::<(u64, Seq<char>)>::empty());
        }
        match self.stage {
            SwitchStage::Draining => match reply {
                Ok(ControlMessage::SubscribeOk(m)) => {
                    if self.method == SwitchMethod::Switch {
                        name_b(log, m.track_alias, now);
                        self.b_alias = Some(m.track_alias);
                    }
                    SwitchAction::Wait
                },
                Ok(_) => SwitchAction::Wait,
                Err(_) => {
                    self.stage = SwitchStage::Finished;
                    SwitchAction::Finish
                },
            },
            SwitchStage::Awaiting(Reply::SubscribedAhead) => match expect_subscribe_ok(reply) {
                Ok(alias) => {
                    name_b(log, alias, now);
                    self.b_alias = Some(alias);
                    self.stage = SwitchStage::Collecting;
                    SwitchAction::Collect { ms: self.switch_after_ms }
                },
                Err(f) => self.fail(f),
            },
            SwitchStage::Awaiting(Reply::Probe) => match reply {
                Ok(ControlMessage::SubscribeOk(m)) => self.follow_probe(log, m, now),
                Ok(_) => self.fail(SwitchFailure::UnexpectedMessage),
                Err(_) => self.fail(SwitchFailure::StreamEnded),
            },
            SwitchStage::Awaiting(Reply::Future) => match expect_subscribe_ok(reply) {
                Ok(alias) => {
                    log.register_alias(alias, "B");
                    proof {
                        assert forall|a: u64| #[trigger] log.label(a) == label_after(
                            before,
                            seq![(alias, "B"@)],
                            a,
                        ) by {
                            lemma_one_label(before, alias, "B"@, a);
                        }
                    }
                    self.b_alias = Some(alias);
                    self.start_draining()
                },
                Err(f) => self.fail(f),
            },
            SwitchStage::Awaiting(Reply::FetchOk) => match reply {
                Ok(ControlMessage::FetchOk(_)) => self.start_draining(),
                Ok(ControlMessage::RequestError(_)) => self.fail(SwitchFailure::RequestRefused),
                Ok(_) => SwitchAction::Wait,
                Err(_) => self.fail(SwitchFailure::StreamEnded),
            },
            _ => SwitchAction::Wait,
        }
    }

    /// Ends a switch that is over: gives its record and what the next switch starts from. Where
    /// nothing is known of the new track, the old one goes on.
    pub fn finish(self, log: &mut EventLog) -> (r: (SwitchRecord, SwitchState))
        requires
            self.wf(),
            self.stage is Finished,
            old(log).wf(),
        ensures
            r.0 == self.record,
            r.0.wf(),
            r.0.control_messages == self.messages(),
            r.1 == (SwitchState {
                current_alias: match self.b_alias {
                    Some(a) => a,
                    None => self.state.current_alias,
                },
                current_req_id: match self.b_req_id {
                    Some(id) => id,
                    None => self.state.current_req_id,
                },
                next_req_id: self.state.next_req_id,
            }),
            final(log).wf(),
            final(log).noted() == old(log).noted(),
            final(log).t0 == old(log).t0,
            forall|a: u64| #[trigger]
                final(log).label(a) == if a == r.1.current_alias {
                    "A"@
                } else {
                    old(log).label(a)
                },
    {
        let current_alias: u64 = match self.b_alias {
            Some(a) => a,
            None => self.state.current_alias,
        };
        let current_req_id: u64 = match self.b_req_id {
            Some(id) => id,
            None => self.state.current_req_id,
        };
        log.register_alias(current_alias, "A");
        let state = SwitchState {
            current_alias,
            current_req_id,
            next_req_id: self.state.next_req_id,
        };
        (self.record, state)
    }
}

/// The switches of an experiment: from each track to the next. `None` for fewer than two tracks.
pub open spec fn switches_of(tracks: Seq<Seq<char>>) -> Option<Seq<(Seq<char>, Seq<char>)>> {
    if tracks.len() < 2 {
        None
    } else {
        Some(Seq::new((tracks.len() - 1) as nat, |i: int| (tracks[i], tracks[i + 1])))
    }
}

/// Lists the switches of an experiment, each by its two tracks.
pub fn plan(config: &SwitchTestConfig) -> (r: Option<Vec<(String, String)>>)
    ensures
        match r {
            Some(v) => switches_of(config.tracks()) == Some(
                v@.map_values(|p: (String, String)| (p.0@, p.1@)),
            ),
            None => switches_of(config.tracks()) is None,
        },
{
    let tracks = config.sequence();
    let ghost names = text::texts(tracks@);
    if tracks.len() < 2 {
        return None;
    }
    let mut v: Vec<(String, String)> = Vec::new();
    let mut i: usize = 0;
    while i < tracks.len() - 1
        invariant
            names == text::texts(tracks@),
            i < tracks@.len(),
            v@.len() == i,
            forall|j: int|
                0 <= j < i ==> (#[trigger] v@[j]).0@ == names[j] && v@[j].1@ == names[j + 1],
        decreases tracks@.len() - i,
    {
        assert(names[i as int] == tracks@[i as int]@);
        assert(names[i + 1] == tracks@[i + 1]@);
        v.push((tracks[i].clone(), tracks[i + 1].clone()));
        i = i + 1;
    }
    proof {
        let shown = v@.map_values(|p: (String, String)| (p.0@, p.1@));
        assert(shown =~= switches_of(names)->Some_0);
    }
    Some(v)
}

/// No two requests of a test share an id: ids are taken in order, and none is given back.
pub proof fn law_request_ids_grow(
    run: SwitchRun,
    t0: Option<u64>,
    now: u64,
    ok: bool,
    reply: Result<ControlMessage, ()>,
    ev: ObjectEvent,
    at: Option<u64>,
)
    requires
        run.state.next_req_id < u64::MAX,
    ensures
        run.state.next_req_id <= started(run, t0, now).run.state.next_req_id,
        run.state.next_req_id <= decided(run, t0, now, at).run.state.next_req_id,
        run.state.next_req_id <= object_step(run, t0, ev, now).run.state.next_req_id,
        run.state.next_req_id <= sent_step(run, t0, ok, now).run.state.next_req_id,
        run.state.next_req_id <= reply_step(run, t0, reply, now).run.state.next_req_id,
        sent_request(started(run, t0, now).action) matches Some(id) ==> id == run.state.next_req_id
            && id < started(run, t0, now).run.state.next_req_id,
        sent_request(decided(run, t0, now, at).action) matches Some(id) ==> id
            == run.state.next_req_id && id < decided(run, t0, now, at).run.state.next_req_id,
        sent_request(object_step(run, t0, ev, now).action) matches Some(id) ==> id
            == run.state.next_req_id && id < object_step(run, t0, ev, now).run.state.next_req_id,
        sent_request(sent_step(run, t0, ok, now).action) matches Some(id) ==> id
            == run.state.next_req_id && id < sent_step(run, t0, ok, now).run.state.next_req_id,
        sent_request(reply_step(run, t0, reply, now).action) matches Some(id) ==> id
            == run.state.next_req_id && id < reply_step(run, t0, reply, now).run.state.next_req_id,
{
}

/// The id of the request that a message makes.
pub open spec fn sent_request(action: ActionView) -> Option<u64> {
    match action {
        ActionView::Send(m) => match m {
            control::ControlView::Subscribe(s) => Some(s.request_id),
            control::ControlView::RequestUpdate { request_id, .. } => Some(request_id),
            control::ControlView::Switch { request_id, .. } => Some(request_id),
            control::ControlView::Fetch(f) => Some(f.request_id),
            _ => None,
        },
        _ => None,
    }
}

/// The old track is stopped only for the I-frame that the new track is accepted with, and once;
/// the new track is accepted only after that. With Switch the relay stops the old track, and the
/// subscriber never asks for it.
pub proof fn law_old_track_is_stopped_for_the_accepted_iframe(
    run: SwitchRun,
    t0: Option<u64>,
    ev: ObjectEvent,
    fetched: bool,
    ok: bool,
    now: u64,
)
    requires
        run.wf(),
        ev.wf(),
        run.record.room(ev.payload_size),
    ensures
        run.stage is Draining ==> {
            let step = b_arrived(run, t0, ev, fetched, now);
            &&& step.action == ActionView::Send(
                update_of(
                    run.state.next_req_id,
                    run.state.current_req_id,
                    MessageParameter::Forward { forward: false },
                ),
            ) <==> !run.a_stopped && !(run.method is Switch) && accepts(run, ev, fetched)
            &&& !accepts(run, ev, fetched) ==> step.run.a_stopped == run.a_stopped
                && step.run.record.control_messages == run.record.control_messages
            &&& step.run.first_b_seen && !run.first_b_seen ==> run.method is Switch
        },
        run.stage == SwitchStage::Sending(Sending::StopA { ev, fetched }) ==> {
            let step = sent_step(run, t0, ok, now);
            &&& ok ==> step.run.a_stopped && step.run.first_b_seen
            &&& !ok ==> !step.run.a_stopped && !step.run.first_b_seen && step.run.stage is Finished
        },
{
    law_new_track_is_accepted_once(
        ev,
        run.player,
        run.record,
        run.overdue_target,
        run.first_b_seen,
        if fetched {
            "F"@
        } else {
            "B"@
        },
        !fetched,
    );
}

/// A switch by Joining Fetch that has raised the new track's priority took five control messages
/// where the new track was behind, four where its group was fetched, and three where it was taken
/// as it came. A switch by Sub Update Forward took three if the new track was accepted, else two;
/// one by Switch took one.
pub proof fn law_message_counts(run: SwitchRun)
    requires
        run.wf(),
        run.stage is Finished,
    ensures
        run.record.control_messages == run.messages(),
        run.method is Switch ==> run.record.control_messages == 1,
        run.method is SubUpdateForward ==> run.record.control_messages == if run.first_b_seen {
            3int
        } else {
            2
        },
        run.method is JoiningFetch && run.b_raised ==> run.record.control_messages
            == match run.route {
            JoinRoute::Anew => 5int,
            JoinRoute::Fetched => 4,
            _ => 3,
        },
{
}

/// An object of the old track becomes the last one known of it, and sets the clock exactly where a
/// player is offered it as an I-frame; before the decision nothing is counted, behind it one object
/// more.
pub proof fn law_objects_of_the_old_track_are_noted(
    record: SwitchRecord,
    player: PlayerSimulator,
    t0: Option<u64>,
    ev: ObjectEvent,
    first_b_seen: bool,
)
    requires
        record.a_objects_post_decision < u64::MAX,
    ensures
        a_noted(record, ev).last_a_group == Some(ev.group),
        a_noted(record, ev).last_a_object == Some(ev.object),
        a_noted(record, ev).last_a_object_time == Some(ev.received_at),
        a_noted(record, ev).byte_count() == record.byte_count(),
        a_noted(record, ev).a_objects_post_decision == record.a_objects_post_decision,
        ({
            let r = a_counted(record, ev, first_b_seen);
            &&& r.last_a_group == Some(ev.group) && r.last_a_object == Some(ev.object)
            &&& r.last_a_object_time == Some(ev.received_at)
            &&& r.a_objects_post_decision == record.a_objects_post_decision + 1
            &&& r.redundant_bytes == record.redundant_bytes
            &&& r.useful_b_bytes == record.useful_b_bytes
            &&& r.decision_a_group == record.decision_a_group
            &&& r.control_messages == record.control_messages
        }),
        ev.object == 0 ==> a_clocked(player, ev) == player.based(ev.group, ev.received_at),
        ev.object != 0 ==> a_clocked(player, ev) == player,
        a_timed(t0, player, ev) == t0 || (t0 is None && a_timed(t0, player, ev) == Some(
            ev.received_at,
        )),
        a_timed(t0, player, ev) != t0 ==> ev.object == 0 && player.t_base is None,
        ev.object == 0 && player.t_base is None ==> a_timed(t0, player, ev) is Some,
{
}

/// What is waited for decides: once a group is waited for, exactly the I-frames from it on are
/// taken. Where the clock is not set, exactly those behind the group at the decision are, for the
/// frame at the decision; with neither, the player decides. An I-frame of a later group is never
/// refused where one of an earlier group is taken at the same instant.
pub proof fn law_iframes_are_taken_from_a_group_on(
    ev: ObjectEvent,
    later: ObjectEvent,
    player: PlayerSimulator,
    record: SwitchRecord,
    target: u64,
)
    requires
        later.group >= ev.group,
    ensures
        b_verdict(ev, player, record, Some(target)) is Overdue <==> ev.group >= target,
        b_verdict(ev, player, record, Some(target)) is Stale <==> ev.group < target,
        b_verdict(ev, player, record, Some(target)) is Overdue ==> b_verdict(
            later,
            player,
            record,
            Some(target),
        ) is Overdue,
        player.t_base is None ==> (record.decision_a_group matches Some(d) ==> {
            let v = b_verdict(ev, player, record, None);
            &&& v is Fresh <==> ev.group > d
            &&& v is Stale <==> ev.group <= d
            &&& v matches BAcceptance::Fresh(f) ==> f.0 == d && (record.decision_a_object matches Some(
                o,
            ) ==> f.1 == o)
        }),
        player.t_base is Some ==> b_verdict(ev, player, record, None) == player.verdict(
            ev.group,
            ev.received_at,
        ),
        player.t_base is None && record.decision_a_group is None ==> b_verdict(
            ev,
            player,
            record,
            None,
        ) == BAcceptance::Fresh((0, 0)),
{
}

/// The acceptance of the new track is recorded as it was: which frame of the old track was played
/// last, when it came and with which group, and, where the clock is set, when the old track stopped
/// and the new one started, and how much was skipped. From then on the player has the new track's
/// timeline, which starts with that group.
pub proof fn law_acceptance_is_recorded(
    ev: ObjectEvent,
    player: PlayerSimulator,
    record: SwitchRecord,
    overdue_target: Option<u64>,
    label: Seq<char>,
    for_b: bool,
)
    requires
        player.wf(),
        record.wf(),
        record.room(ev.payload_size),
        ev.wf(),
        ev.object == 0,
        player.t_base matches Some(t) ==> t <= ev.received_at,
    ensures
        ({
            let out = b_object(ev, player, record, overdue_target, false, label, for_b);
            let r = out.record;
            let v = b_verdict(ev, player, b_first(record, ev), overdue_target);
            let g = r.latest_played_a_group->Some_0;
            &&& out.accepted <==> v is Fresh || v is Overdue
            &&& out.accepted ==> {
                &&& r.latest_played_a_group is Some && r.latest_played_a_object is Some
                &&& v matches BAcceptance::Fresh(f) ==> f == (g, r.latest_played_a_object->Some_0)
                &&& v is Overdue && record.last_a_group is Some ==> r.latest_played_a_group
                    == record.last_a_group
                &&& v is Overdue && record.last_a_group is None && record.decision_a_group is Some
                    ==> r.latest_played_a_group == record.decision_a_group
                &&& r.b_cur_gop_bytes == ev.payload_size
                &&& r.useful_b_bytes == record.useful_b_bytes + ev.payload_size
                &&& r.redundant_bytes == record.redundant_bytes
                &&& player.t_base is Some && g <= MAX_ID ==> {
                    &&& r.a_stopped_at_ms matches Some(a) && a == player.a_stops_at(g)
                    &&& r.b_started_at_ms matches Some(b) && b == player.b_starts_at(
                        ev.group,
                        ev.received_at,
                    )
                    &&& r.skipped_gops == PlayerSimulator::skipped(g, ev.group)
                    &&& r.skipped_duration_ms == r.skipped_gops * player.gop()
                }
                &&& player.t_base is None ==> r.a_stopped_at_ms == record.a_stopped_at_ms
                    && r.b_started_at_ms == record.b_started_at_ms && r.skipped_gops
                    == record.skipped_gops
                &&& out.player.first_group_b == Some(ev.group)
                &&& out.player.t_base == player.t_base
                &&& out.player.first_group_a == player.first_group_a
                &&& out.lines.len() > 0 && out.lines.last() == (
                    ev.received_at,
                    "fresh_b_iframe,"@ + text::dec(ev.group as nat),
                )
            }
            &&& !out.accepted ==> {
                &&& out.player == player
                &&& r.redundant_bytes == record.redundant_bytes + ev.payload_size
                &&& r.b_objects_pre_active == record.b_objects_pre_active + 1
                &&& r.useful_b_bytes == record.useful_b_bytes
                &&& v matches BAcceptance::OverduePending(t) ==> out.overdue_target == Some(t)
                &&& v is Stale ==> out.overdue_target == overdue_target
            }
        }),
{
    let r = b_first(record, ev);
    let out = b_object(ev, player, record, overdue_target, false, label, for_b);
    if out.accepted {
        let g = out.record.latest_played_a_group->Some_0;
        if player.t_base is Some && g <= MAX_ID {
            stats::lemma_metrics_fit(player, g, ev.group, ev.received_at);
        }
        let lines = acceptance_lines(player, ev, label);
        assert((out.lines).last() == lines.last());
    }
}

/// The first object of the new track is noted once, and objects of it other than an I-frame are of
/// no use before its acceptance.
pub proof fn law_the_first_object_is_noted_once(
    ev: ObjectEvent,
    player: PlayerSimulator,
    record: SwitchRecord,
    overdue_target: Option<u64>,
    first_b_seen: bool,
    label: Seq<char>,
    for_b: bool,
)
    requires
        record.wf(),
        record.room(ev.payload_size),
    ensures
        ({
            let out = b_object(ev, player, record, overdue_target, first_b_seen, label, for_b);
            let r = out.record;
            &&& record.first_b_object_time is None ==> r.first_b_object_time == Some(ev.received_at)
                && r.first_b_group == Some(ev.group)
            &&& record.first_b_object_time is Some ==> r.first_b_object_time
                == record.first_b_object_time && r.first_b_group == record.first_b_group
            &&& r.last_a_group == record.last_a_group && r.last_a_object == record.last_a_object
            &&& r.trailing_a_bytes == record.trailing_a_bytes && r.pre_switch_a_bytes
                == record.pre_switch_a_bytes
            &&& r.control_messages == record.control_messages
            &&& !first_b_seen && ev.object != 0 ==> {
                &&& r.redundant_bytes == record.redundant_bytes + ev.payload_size
                &&& r.b_objects_pre_active == record.b_objects_pre_active + 1
                &&& out.player == player && out.overdue_target == overdue_target
            }
            &&& first_b_seen ==> {
                &&& r.useful_b_bytes == record.useful_b_bytes + ev.payload_size
                &&& r.b_objects_pre_active == record.b_objects_pre_active
                &&& out.player == player && out.overdue_target == overdue_target
            }
        }),
{
}

/// The record after some objects of the new track behind its acceptance.
pub open spec fn useful_after(record: SwitchRecord, evs: Seq<ObjectEvent>) -> SwitchRecord
    decreases evs.len(),
{
    if evs.len() == 0 {
        record
    } else {
        b_useful(useful_after(record, evs.drop_last()), evs.last())
    }
}

/// The bytes of some objects.
pub open spec fn size_of(evs: Seq<ObjectEvent>) -> int
    decreases evs.len(),
{
    if evs.len() == 0 {
        0
    } else {
        size_of(evs.drop_last()) + evs.last().payload_size
    }
}

/// A group of the new track is measured once: from the I-frame that it was accepted with to the
/// next I-frame, all bytes between them and none of the second. What comes later does not change
/// it, and all of it is useful.
pub proof fn law_one_group_is_measured(
    record: SwitchRecord,
    evs: Seq<ObjectEvent>,
    next: ObjectEvent,
    more: Seq<ObjectEvent>,
)
    requires
        record.b_gop_payload_bytes is None,
        forall|i: int| 0 <= i < evs.len() ==> (#[trigger] evs[i]).object != 0,
        next.object == 0,
        record.b_cur_gop_bytes <= record.useful_b_bytes,
        record.useful_b_bytes + size_of(evs) + next.payload_size <= u64::MAX,
    ensures
        useful_after(record, evs).b_gop_payload_bytes is None,
        useful_after(record, evs).useful_b_bytes == record.useful_b_bytes + size_of(evs),
        useful_after(useful_after(record, evs.push(next)), more).b_gop_payload_bytes matches Some(n)
            && n == record.b_cur_gop_bytes + size_of(evs),
        size_of(evs) >= 0,
{
    lemma_useful_after(record, evs, evs.len() as int);
    lemma_size_is_no_less(evs);
    assert(evs.push(next).drop_last() =~= evs);
    let r = useful_after(record, evs.push(next));
    lemma_measured_stays(r, more);
}

proof fn lemma_size_is_no_less(evs: Seq<ObjectEvent>)
    ensures
        size_of(evs) >= 0,
    decreases evs.len(),
{
    if evs.len() > 0 {
        lemma_size_is_no_less(evs.drop_last());
    }
}

proof fn lemma_useful_after(record: SwitchRecord, evs: Seq<ObjectEvent>, n: int)
    requires
        n == evs.len(),
        record.b_gop_payload_bytes is None,
        forall|i: int| 0 <= i < evs.len() ==> (#[trigger] evs[i]).object != 0,
        record.b_cur_gop_bytes <= record.useful_b_bytes,
        record.useful_b_bytes + size_of(evs) <= u64::MAX,
    ensures
        ({
            let r = useful_after(record, evs);
            &&& r.b_gop_payload_bytes is None
            &&& r.useful_b_bytes == record.useful_b_bytes + size_of(evs)
            &&& r.b_cur_gop_bytes == record.b_cur_gop_bytes + size_of(evs)
        }),
    decreases n,
{
    if n > 0 {
        let init = evs.drop_last();
        assert forall|i: int| 0 <= i < init.len() implies (#[trigger] init[i]).object != 0 by {
            assert(init[i] == evs[i]);
        }
        lemma_useful_after(record, init, n - 1);
        assert(evs.last() == evs[n - 1]);
    }
}

proof fn lemma_measured_stays(record: SwitchRecord, more: Seq<ObjectEvent>)
    requires
        record.b_gop_payload_bytes is Some,
    ensures
        useful_after(record, more).b_gop_payload_bytes == record.b_gop_payload_bytes,
    decreases more.len(),
{
    if more.len() > 0 {
        lemma_measured_stays(record, more.drop_last());
    }
}

/// At the decision the record keeps where the old track was last seen and when it was decided; the
/// new track is asked for in the way of the method: by a switch that names the running request, by
/// turning on the forwarding of the subscription made ahead, or by a subscription of its own.
pub proof fn law_the_decision_asks_for_the_new_track(
    run: SwitchRun,
    t0: Option<u64>,
    now: u64,
    at: Option<u64>,
)
    requires
        run.state.next_req_id < u64::MAX,
    ensures
        ({
            let step = decided(run, t0, now, at);
            let r = step.run.record;
            &&& r.decision_a_group == run.record.last_a_group
            &&& !(run.method is JoiningFetch) ==> r.decision_a_object == run.record.last_a_object
            &&& at is Some ==> r.switch_decision_time == at && step.lines[0] == (
                at->Some_0,
                "switch_decision"@,
            )
            &&& r.byte_count() == run.record.byte_count()
            &&& step.run.player == run.player && step.run.to == run.to
            &&& step.run.state.current_alias == run.state.current_alias
            &&& step.run.state.current_req_id == run.state.current_req_id
            &&& run.method is Switch ==> (step.action matches ActionView::Send(
                control::ControlView::Switch { request_id, track, subscription_request_id, pairs },
            ) && request_id == run.state.next_req_id && track == run.to@ && subscription_request_id
                == run.state.current_req_id && pairs.len() == 0 && step.run.b_req_id == Some(
                request_id,
            ))
            &&& run.method is SubUpdateForward && run.b_req_id is Some ==> (
            step.action matches ActionView::Send(
                control::ControlView::RequestUpdate { request_id, existing_request_id, parameters },
            ) && request_id == run.state.next_req_id && Some(existing_request_id) == run.b_req_id
                && parameters == seq![MessageParameter::Forward { forward: true }]
                && step.run.b_req_id == run.b_req_id)
            &&& run.method is JoiningFetch ==> (step.action matches ActionView::Send(
                control::ControlView::Subscribe(s),
            ) && s.request_id == run.state.next_req_id && s.track == run.to@
                && step.run.b_req_id == Some(s.request_id) && s.parameters.contains(
                MessageParameter::Forward { forward: true },
            ) && s.parameters.contains(MessageParameter::SubscriberPriority { priority: 200 }))
        }),
{
    let step = decided(run, t0, now, at);
    if run.method is JoiningFetch {
        let ps = seq![
            MessageParameter::SubscriberPriority { priority: 200 },
            MessageParameter::Forward { forward: true },
            control::latest_object(),
        ];
        assert(ps[0] == (MessageParameter::SubscriberPriority { priority: 200 }));
        assert(ps[1] == (MessageParameter::Forward { forward: true }));
    }
}

/// A subscription made ahead of the decision asks for the new track without having it forwarded;
/// the other methods ask for nothing before the decision.
pub proof fn law_only_sub_update_asks_ahead(run: SwitchRun, t0: Option<u64>, now: u64)
    ensures
        ({
            let step = started(run, t0, now);
            &&& run.method is SubUpdateForward ==> (step.action matches ActionView::Send(
                control::ControlView::Subscribe(s),
            ) && s.track == run.to@ && s.request_id == run.state.next_req_id
                && step.run.b_req_id == Some(s.request_id) && s.parameters.contains(
                MessageParameter::Forward { forward: false },
            ) && !s.parameters.contains(MessageParameter::Forward { forward: true }))
            &&& !(run.method is SubUpdateForward) ==> step.action == ActionView::Collect(
                run.switch_after_ms,
            ) && step.run.stage is Collecting && step.run.state == run.state
            &&& step.run.record == run.record && step.run.player == run.player
        }),
{
    let ps = seq![
        MessageParameter::SubscriberPriority { priority: 128 },
        MessageParameter::Forward { forward: false },
        control::latest_object(),
    ];
    assert(ps[1] == (MessageParameter::Forward { forward: false }));
}

/// Objects go by their alias: those of the track that plays to the old track's books, those of the
/// new track, and with Joining Fetch the fetched ones, to the new track's; any other changes
/// nothing, and before the decision neither does the new track.
pub proof fn law_objects_go_by_their_alias(
    run: SwitchRun,
    t0: Option<u64>,
    ev: ObjectEvent,
    now: u64,
)
    ensures
        ({
            let step = object_step(run, t0, ev, now);
            let of_a = ev.track_alias == run.state.current_alias;
            let of_b = !of_a && run.b_alias == Some(ev.track_alias);
            let fetched = !of_a && run.method is JoiningFetch && ev.track_alias == FETCH_ALIAS;
            &&& of_a ==> step.action is Wait && step.run.record.last_a_group == Some(ev.group)
                && step.run.record.useful_b_bytes == run.record.useful_b_bytes
                && step.run.record.redundant_bytes == run.record.redundant_bytes
                && step.run.stage == run.stage
            &&& of_a && run.stage is Collecting ==> step.run.record.byte_count()
                == run.record.byte_count()
            &&& !of_a && (run.stage is Collecting || (!of_b && !fetched)) ==> step.run == run
                && step.action is Wait && step.lines.len() == 0 && step.t0 == t0
            &&& !of_a ==> step.run.record.last_a_group == run.record.last_a_group
                && step.run.record.trailing_a_bytes == run.record.trailing_a_bytes
                && step.run.record.pre_switch_a_bytes == run.record.pre_switch_a_bytes
        }),
{
}

/// What the probe is answered decides how Joining Fetch comes by the new track: one that is behind
/// the old one is given up and asked for anew, from the first object of the old one's group; one
/// inside a group has that group fetched, through the probe's own subscription; and of any other
/// nothing more is asked. In all of these its alias is known from then on.
pub proof fn law_joining_fetch_takes_the_way_that_is_needed(
    run: SwitchRun,
    t0: Option<u64>,
    ok: control::SubscribeOkView,
    now: u64,
    k: int,
)
    requires
        run.b_req_id is Some,
        0 <= k < ok.parameters.len(),
        ok.parameters[k] is LargestObject,
        forall|j: int| 0 <= j < k ==> !((#[trigger] ok.parameters[j]) is LargestObject),
    ensures
        ok.parameters[k] matches MessageParameter::LargestObject { location } && {
            let step = probed(run, t0, ok, now);
            let g = match run.record.decision_a_group {
                Some(g) => g,
                None => 0,
            };
            &&& step.run.b_alias == Some(ok.track_alias)
            &&& step.run.record == run.record && step.run.player == run.player
            &&& location.group < g ==> step.run.route is Anew && step.action == ActionView::Send(
                control::ControlView::Unsubscribe(run.b_req_id->Some_0),
            )
            &&& location.group >= g && location.object > 0 ==> step.run.route is Fetched && (
            step.action matches ActionView::Send(control::ControlView::Fetch(f)) && f.request_id
                == run.state.next_req_id && f.fetch_type is RelativeFetch && f.standalone is None
                && (f.joining matches Some(j) && Some(j.joining_request_id) == run.b_req_id
                && j.joining_start == 0))
            &&& location.group >= g && location.object == 0 ==> step.run.route is AsItComes
                && step.action is Drain && step.run.state == run.state
        },
{
    let t = message::MessageParameterType::LargestObject;
    assert forall|j: int| 0 <= j < k implies (#[trigger] ok.parameters[j]).kind() != t by {
        assert(!(ok.parameters[j] is LargestObject));
    }
    message::lemma_first_of(ok.parameters, t, k);
}

/// The subscription that is made anew starts with the first object of the group in which the old
/// track was at the decision, and takes the place of the probe.
pub proof fn law_the_new_subscription_starts_at_the_old_group(
    run: SwitchRun,
    t0: Option<u64>,
    now: u64,
)
    requires
        run.stage == SwitchStage::Sending(Sending::CancelProbe),
        run.record.control_messages < u64::MAX,
    ensures
        ({
            let step = sent_step(run, t0, true, now);
            &&& step.action matches ActionView::Send(control::ControlView::Subscribe(s)) && {
                &&& s.track == run.to@
                &&& s.request_id == run.state.next_req_id
                &&& step.run.b_req_id == Some(s.request_id)
                &&& s.parameters.last() matches MessageParameter::SubscriptionFilter {
                    start_location,
                    ..
                } && (start_location matches Some(l) && l.object == 0 && l.group
                    == match run.record.decision_a_group {
                    Some(g) => g,
                    None => 0,
                })
                &&& s.parameters.contains(MessageParameter::Forward { forward: true })
            }
            &&& step.run.record.control_messages == run.record.control_messages + 1
        }),
{
    let ps = seq![
        MessageParameter::SubscriberPriority { priority: 128 },
        MessageParameter::Forward { forward: true },
        control::absolute_start(Location { group: decision_group(run), object: 0 }),
    ];
    assert(ps[1] == (MessageParameter::Forward { forward: true }));
}

/// Every message that is sent is counted, and none that is not; a message that cannot be sent ends
/// the switch, as a failure unless the new track has come through already.
pub proof fn law_sent_messages_are_counted(run: SwitchRun, t0: Option<u64>, ok: bool, now: u64)
    requires
        run.stage is Sending,
        run.record.control_messages < u64::MAX,
        run.record.room(0),
    ensures
        ({
            let step = sent_step(run, t0, ok, now);
            &&& ok ==> step.run.record.control_messages == run.record.control_messages + 1
            &&& !ok ==> step.run.record == run.record && step.action is Finish
                || step.action == ActionView::Fail(SwitchFailure::SendFailed)
            &&& !ok ==> step.run.record.control_messages == run.record.control_messages
            &&& !ok && (run.stage matches SwitchStage::Sending(m) && (m is StopA || m is RaiseB))
                ==> step.run.stage is Finished
            &&& !ok && (run.stage matches SwitchStage::Sending(m) && !(m is StopA) && !(m
                is RaiseB)) ==> step.run.stage is Failed
        }),
{
}

/// Draining lasts as long as the decision was waited for, and never shorter than its least.
pub proof fn law_draining_lasts_long_enough(run: SwitchRun)
    ensures
        drain_ms(run) >= run.switch_after_ms,
        drain_ms(run) >= MIN_DRAIN_MS,
        drain_ms(run) == run.switch_after_ms || drain_ms(run) == MIN_DRAIN_MS,
{
}

/// The reply to the subscription made ahead gives the new track's alias and starts the wait for the
/// decision; a reply of another kind, or none, fails the switch.
pub proof fn law_replies_give_the_alias(
    run: SwitchRun,
    t0: Option<u64>,
    reply: Result<ControlMessage, ()>,
    now: u64,
)
    ensures
        ({
            let step = reply_step(run, t0, reply, now);
            let awaited = run.stage == SwitchStage::Awaiting(Reply::SubscribedAhead) || run.stage
                == SwitchStage::Awaiting(Reply::Future);
            &&& awaited ==> match reply {
                Ok(ControlMessage::SubscribeOk(m)) => step.run.b_alias == Some(m.track_alias)
                    && step.labels == seq![(m.track_alias, "B"@)],
                Ok(_) => step.action == ActionView::Fail(SwitchFailure::UnexpectedMessage)
                    && step.run.b_alias == run.b_alias,
                Err(_) => step.action == ActionView::Fail(SwitchFailure::StreamEnded)
                    && step.run.b_alias == run.b_alias,
            }
            &&& run.stage == SwitchStage::Awaiting(Reply::SubscribedAhead) && reply is Ok
                && reply->Ok_0 is SubscribeOk ==> step.action == ActionView::Collect(
                run.switch_after_ms,
            )
            &&& step.run.record == run.record && step.run.player == run.player
            &&& run.stage is Draining && reply is Err ==> step.action is Finish
            &&& run.stage is Draining && run.method is Switch && reply is Ok
                && reply->Ok_0 is SubscribeOk ==> step.run.b_alias == Some(
                reply->Ok_0->SubscribeOk_0.track_alias,
            ) && step.run.stage is Draining
            &&& run.stage is Draining && !(run.method is Switch) && reply is Ok ==> step.run == run
        }),
{
}

/// The label that was given to an alias last is the one that it has.
pub proof fn law_the_last_label_counts(
    log: EventLog,
    labels: Seq<(u64, Seq<char>)>,
    alias: u64,
    label: Seq<char>,
    other: u64,
)
    requires
        other != alias,
    ensures
        label_after(log, labels.push((alias, label)), alias) == label,
        label_after(log, labels.push((alias, label)), other) == label_after(log, labels, other),
        label_after(log, Seq::empty(), other) == log.label(other),
{
    assert(labels.push((alias, label)).drop_last() =~= labels);
}

/// The switches of an experiment form a chain from its first track to its last: each starts at the
/// track at which the one before it ended.
pub proof fn law_switches_form_a_chain(tracks: Seq<Seq<char>>, i: int)
    ensures
        switches_of(tracks) is None <==> tracks.len() < 2,
        switches_of(tracks) matches Some(s) ==> {
            &&& s.len() == tracks.len() - 1
            &&& s[0].0 == tracks[0]
            &&& s.last().1 == tracks.last()
            &&& 0 <= i < s.len() - 1 ==> s[i].1 == s[i + 1].0
            &&& 0 <= i < s.len() ==> s[i].0 == tracks[i] && s[i].1 == tracks[i + 1]
        },
{
}

/// Every object is logged with its presentation time, where it has one, at the instant of its
/// arrival: one of the old track by the old timeline under `A`, one of the new track by the new
/// timeline under `B`, a fetched one by the old timeline under `F`.
pub proof fn law_presentation_times_are_logged(
    run: SwitchRun,
    t0: Option<u64>,
    ev: ObjectEvent,
    fetched: bool,
    now: u64,
    label: Seq<char>,
    t: int,
)
    requires
        run.record.room(ev.payload_size),
    ensures
        pt_lines(ev, label, None).len() == 0,
        pt_lines(ev, label, Some(t)) == seq![
            (ev.received_at, event_log::pt_line(label, ev.group, ev.object, t)),
        ],
        ev.track_alias == run.state.current_alias ==> object_step(run, t0, ev, now).lines
            == pt_lines(
            ev,
            "A"@,
            object_step(run, t0, ev, now).run.player.pt(ev.group, ev.object, false),
        ),
        !accepts(run, ev, fetched) ==> b_step(run, t0, ev, fetched).lines == pt_lines(
            ev,
            if fetched {
                "F"@
            } else {
                "B"@
            },
            run.player.pt(ev.group, ev.object, !fetched),
        ),
        b_step(run, t0, ev, fetched).t0 == t0,
        run.first_b_seen && ev.track_alias != run.state.current_alias && !(run.stage is Collecting)
            ==> {
            let lines = object_step(run, t0, ev, now).lines;
            let of_fetch = run.method is JoiningFetch && ev.track_alias == FETCH_ALIAS;
            &&& of_fetch ==> lines == pt_lines(
                ev,
                "F"@,
                run.player.pt(ev.group, ev.object, false),
            )
            &&& !of_fetch && run.b_alias == Some(ev.track_alias) ==> lines == pt_lines(
                ev,
                "B"@,
                run.player.pt(ev.group, ev.object, true),
            )
        },
{
}

/// A log only grows, by what is added to it, and keeps its labels and its time where a step says
/// nothing of them.
pub proof fn law_logs_only_grow(
    before: EventLog,
    log: EventLog,
    lines: Seq<(u64, Seq<char>)>,
    t0: Option<u64>,
    step: Step,
    alias: u64,
)
    ensures
        logged(before, log, lines, t0) ==> {
            &&& log.noted().len() == before.noted().len() + lines.len()
            &&& before.noted().is_prefix_of(log.noted())
            &&& log.noted().skip(before.noted().len() as int) == lines
            &&& log.t0 == t0
            &&& log.label(alias) == before.label(alias)
        },
        log_stepped(before, log, step) ==> {
            &&& before.noted().is_prefix_of(log.noted())
            &&& log.noted().skip(before.noted().len() as int) == step.lines
            &&& log.t0 == step.t0
            &&& step.labels.len() == 0 ==> log.label(alias) == before.label(alias)
            &&& step.labels.len() == 1 && step.labels[0].0 == alias ==> log.label(alias)
                == step.labels[0].1
        },
{
    if logged(before, log, lines, t0) {
        assert(log.noted().skip(before.noted().len() as int) =~= lines);
    }
    if log_stepped(before, log, step) {
        assert(log.noted().skip(before.noted().len() as int) =~= step.lines);
    }
}

/// The tracks of an experiment are those of its sequence, and where that is empty its two tracks.
pub proof fn law_a_sequence_takes_the_place_of_the_two_tracks(config: SwitchTestConfig, i: int)
    ensures
        config.track_sequence@.len() == 0 ==> config.tracks().len() == 2 && config.tracks()[0]
            == config.track_a@ && config.tracks()[1] == config.track_b@,
        config.track_sequence@.len() > 0 ==> config.tracks().len() == config.track_sequence@.len(),
        0 <= i < config.track_sequence@.len() ==> config.tracks()[i] == config.track_sequence@[i]@,
{
}

} // verus!
