//! What a subscriber measures: when frames are presented, what a switch costs, and whether objects
//! come in sequence.
use crate::json;
use crate::text::decimal;
use crate::text;
use vstd::prelude::*;

verus! {

/// Nanoseconds in a millisecond. Instants are counted in nanoseconds.
pub const NANOS_PER_MS: u64 = 1_000_000;

/// Group and object ids are written in 62 bits at most.
pub const MAX_ID: u64 = 0x3fff_ffff_ffff_ffff;

#[derive(Debug, Clone, Copy, PartialEq, Eq, Structural)]
pub struct PlayoutConfig {
    pub frame_interval_ms: u64,
    pub objects_per_group: u64,
    pub jitter_buffer_ms: u64,
}

impl PlayoutConfig {
    /// How long a group plays.
    pub open spec fn gop(self) -> int {
        self.objects_per_group * self.frame_interval_ms
    }

    /// A group plays for a time, and the time can be counted.
    pub open spec fn wf(self) -> bool {
        0 < self.gop() <= u64::MAX
    }
}

/// What becomes of an I-frame of the track that is switched to.
#[derive(Debug, Clone, Copy, PartialEq, Eq)]
pub enum BAcceptance {
    /// It came before its presentation time, and is ahead of what has been played. Carries the
    /// frame that was being played.
    Fresh((u64, u64)),
    /// It came too late, but its group is the one that was waited for.
    Overdue,
    /// It came too late and behind what has been played: this group is waited for.
    OverduePending(u64),
    /// It is behind what has been played: it is dropped.
    Stale,
}

/// Models a player's timing. The frame (group, object) is presented at
///
/// ```text
/// PT(group, object) = t_base + (group - first_group) * gop_ms
///                   + object * frame_interval_ms + jitter_buffer_ms
/// ```
///
/// where `t_base` is the instant at which the first I-frame was received, and `first_group` its
/// group.
#[derive(Debug, Clone, Copy, PartialEq, Eq, Structural)]
pub struct PlayerSimulator {
    pub frame_interval_ms: u64,
    pub objects_per_group: u64,
    pub jitter_buffer_ms: u64,
    pub t_base: Option<u64>,
    /// When the first frame of the new track came, in milliseconds from `t_base`.
    pub first_group_time_b: Option<u64>,
    pub first_group_a: Option<u64>,
    pub first_group_b: Option<u64>,
}

/// The milliseconds from one instant to another; none if the other is earlier.
pub open spec fn ms_between(from: u64, to: u64) -> int {
    if to >= from {
        (to - from) / (NANOS_PER_MS as int)
    } else {
        0
    }
}

fn millis(from: u64, to: u64) -> (ms: u64)
    ensures
        ms == ms_between(from, to),
{
    if to >= from {
        (to - from) / NANOS_PER_MS
    } else {
        0
    }
}

/// The signed milliseconds from one instant to another, cut towards zero.
pub open spec fn signed_ms_between(from: u64, to: u64) -> int {
    if to >= from {
        ms_between(from, to)
    } else {
        -ms_between(to, from)
    }
}

/// The signed milliseconds from one instant to another.
pub fn signed_millis(from: u64, to: u64) -> (ms: i128)
    ensures
        ms == signed_ms_between(from, to),
{
    if to >= from {
        millis(from, to) as i128
    } else {
        -(millis(to, from) as i128)
    }
}

impl PlayerSimulator {
    pub open spec fn gop(self) -> int {
        self.objects_per_group * self.frame_interval_ms
    }

    pub open spec fn wf(self) -> bool {
        &&& 0 < self.gop() <= u64::MAX
        &&& self.t_base is Some <==> self.first_group_a is Some
        &&& self.first_group_a matches Some(g) ==> g <= MAX_ID
        &&& self.first_group_b matches Some(g) ==> g <= MAX_ID
    }

    /// A player whose clock is not set yet.
    pub open spec fn idle(cfg: PlayoutConfig) -> PlayerSimulator {
        PlayerSimulator {
            frame_interval_ms: cfg.frame_interval_ms,
            objects_per_group: cfg.objects_per_group,
            jitter_buffer_ms: cfg.jitter_buffer_ms,
            t_base: None,
            first_group_time_b: None,
            first_group_a: None,
            first_group_b: None,
        }
    }

    pub fn new(cfg: &PlayoutConfig) -> (p: Self)
        requires
            cfg.wf(),
        ensures
            p.wf(),
            p == PlayerSimulator::idle(*cfg),
    {
        PlayerSimulator {
            frame_interval_ms: cfg.frame_interval_ms,
            objects_per_group: cfg.objects_per_group,
            jitter_buffer_ms: cfg.jitter_buffer_ms,
            t_base: None,
            first_group_time_b: None,
            first_group_a: None,
            first_group_b: None,
        }
    }

    pub fn objects_per_group(&self) -> (n: u64)
        ensures
            n == self.objects_per_group,
    {
        self.objects_per_group
    }

    /// Sets the clock to the first I-frame, if it is not set yet. Says whether it was set.
    pub fn set_base_if_unset(&mut self, group: u64, received_at: u64) -> (set: bool)
        requires
            old(self).wf(),
            group <= MAX_ID,
        ensures
            final(self).wf(),
            set == (old(self).t_base is None),
            *final(self) == old(self).based(group, received_at),
    {
        if self.t_base.is_none() {
            self.t_base = Some(received_at);
            self.first_group_a = Some(group);
            true
        } else {
            false
        }
    }

    /// A player whose clock is set to an I-frame, if it was not set before.
    pub open spec fn based(self, group: u64, received_at: u64) -> PlayerSimulator {
        if self.t_base is None {
            PlayerSimulator { t_base: Some(received_at), first_group_a: Some(group), ..self }
        } else {
            self
        }
    }

    fn gop_ms(&self) -> (n: u64)
        requires
            self.wf(),
        ensures
            n == self.gop(),
    {
        self.objects_per_group * self.frame_interval_ms
    }

    /// When a frame is presented, in milliseconds from `t_base`: on the timeline of the old track,
    /// or on that of the new one.
    pub open spec fn pt(self, group: u64, object: u64, for_b: bool) -> Option<int> {
        let first = if for_b {
            self.first_group_b
        } else {
            self.first_group_a
        };
        let offset: int = match self.first_group_time_b {
            Some(t) if for_b => t as int,
            _ => 0,
        };
        match first {
            Some(fg) => Some(
                (group - fg) * self.gop() + object * self.frame_interval_ms + self.jitter_buffer_ms
                    + offset,
            ),
            None => None,
        }
    }

    /// When a frame is presented, in milliseconds from the receipt of the first I-frame. `None`
    /// until an I-frame of the track was received.
    pub fn pt_ms(&self, group: u64, object: u64, for_b: bool) -> (r: Option<i128>)
        requires
            self.wf(),
            group <= MAX_ID,
            object <= MAX_ID,
        ensures
            match r {
                Some(t) => self.pt(group, object, for_b) == Some(t as int),
                None => self.pt(group, object, for_b) is None,
            },
    {
        self.pt_offset_ms(group, object, for_b)
    }

    fn pt_offset_ms(&self, group: u64, object: u64, for_b: bool) -> (r: Option<i128>)
        requires
            self.wf(),
            group <= MAX_ID || (group == MAX_ID + 1 && object == 0),
            object <= MAX_ID,
        ensures
            match r {
                Some(t) => self.pt(group, object, for_b) == Some(t as int),
                None => self.pt(group, object, for_b) is None,
            },
    {
        let fg: u64 = match if for_b {
            self.first_group_b
        } else {
            self.first_group_a
        } {
            Some(g) => g,
            None => {
                return None;
            },
        };
        let offset: u64 = match self.first_group_time_b {
            Some(t) if for_b => t,
            _ => 0,
        };
        let gop: u64 = self.gop_ms();
        let frame: u64 = self.frame_interval_ms;
        let rel: i128 = group as i128 - fg as i128;
        proof {
            lemma_products_fit(rel as int, gop as int, object as int, frame as int);
            assert(frame <= gop) by {
                assert(self.objects_per_group * frame >= frame) by (nonlinear_arith)
                    requires
                        self.objects_per_group * frame > 0,
                        self.objects_per_group >= 0,
                        frame >= 0,
                ;
            }
        }
        Some(
            rel * (gop as i128) + (object as i128) * (frame as i128) + self.jitter_buffer_ms as i128
                + offset as i128,
        )
    }

    /// The frame that is being played at an instant: the last one of the old track whose
    /// presentation time has come. `None` before playback has started.
    pub open spec fn played_at(self, now: u64) -> Option<(u64, u64)> {
        match (self.t_base, self.first_group_a) {
            (Some(t), Some(fg)) if now >= t && now - t >= self.jitter_buffer_ms * NANOS_PER_MS => {
                let playing = now - t - self.jitter_buffer_ms * NANOS_PER_MS;
                let gop = self.gop() * NANOS_PER_MS;
                Some(
                    (
                        (fg + playing / gop) as u64,
                        ((playing % gop) / (self.frame_interval_ms * NANOS_PER_MS)) as u64,
                    ),
                )
            },
            _ => None,
        }
    }

    /// The frame of the old track that is being played at an instant.
    pub fn last_a_object_at(&self, now: u64) -> (r: Option<(u64, u64)>)
        requires
            self.wf(),
        ensures
            r == self.played_at(now),
            r matches Some((g, o)) ==> self.first_group_a->Some_0 <= g <= MAX_ID + now,
    {
        let t: u64 = match self.t_base {
            Some(t) => t,
            None => {
                return None;
            },
        };
        let fg: u64 = match self.first_group_a {
            Some(g) => g,
            None => {
                return None;
            },
        };
        if now < t {
            return None;
        }
        let buffered: u128 = self.jitter_buffer_ms as u128 * NANOS_PER_MS as u128;
        let elapsed: u128 = (now - t) as u128;
        if elapsed < buffered {
            return None;
        }
        let playing: u128 = elapsed - buffered;
        let gop: u128 = self.gop_ms() as u128 * NANOS_PER_MS as u128;
        let frame: u128 = self.frame_interval_ms as u128 * NANOS_PER_MS as u128;
        proof {
            assert(self.frame_interval_ms > 0) by {
                assert(self.objects_per_group * 0 == 0);
            }
            assert(playing / gop <= playing / 1_000_000) by (nonlinear_arith)
                requires
                    gop >= 1_000_000,
                    playing >= 0,
            ;
            assert(playing % gop / frame <= playing % gop) by (nonlinear_arith)
                requires
                    frame >= 1,
                    playing % gop >= 0,
            ;
            assert(playing % gop <= playing) by (nonlinear_arith)
                requires
                    gop >= 1,
                    playing >= 0,
            ;
        }
        let rel: u64 = (playing / gop) as u64;
        let object: u64 = ((playing % gop) / frame) as u64;
        Some((fg + rel, object))
    }

    /// The group that an overdue I-frame must reach.
    pub open spec fn overdue_target(self, now: u64) -> int {
        match self.played_at(now) {
            Some((g, _)) => g + 1,
            None => self.first_group_a->Some_0 + 1,
        }
    }

    /// What becomes of an I-frame of the new track.
    pub open spec fn verdict(self, b_group: u64, b_recv: u64) -> BAcceptance {
        match self.t_base {
            None => BAcceptance::Fresh((0, 0)),
            Some(t) => {
                if ms_between(t, b_recv) >= self.pt(b_group, 0, false)->Some_0 {
                    if b_group >= self.overdue_target(b_recv) {
                        BAcceptance::Overdue
                    } else {
                        BAcceptance::OverduePending(self.overdue_target(b_recv) as u64)
                    }
                } else {
                    match self.played_at(b_recv) {
                        Some((g, o)) => if b_group > g {
                            BAcceptance::Fresh((g, o))
                        } else {
                            BAcceptance::Stale
                        },
                        None => if b_group > 0 {
                            BAcceptance::Fresh((self.first_group_a->Some_0, 0))
                        } else {
                            BAcceptance::Stale
                        },
                    }
                }
            },
        }
    }

    /// Classifies an I-frame of the new track. One whose presentation time has passed is overdue,
    /// and waits for the group after the one that is being played; one in time is fresh if it is
    /// ahead of what is being played. Before the clock is set, every I-frame is accepted.
    pub fn check_b_iframe(&self, b_group: u64, b_recv: u64) -> (r: BAcceptance)
        requires
            self.wf(),
            b_group <= MAX_ID,
        ensures
            r == self.verdict(b_group, b_recv),
    {
        let t: u64 = match self.t_base {
            Some(t) => t,
            None => {
                return BAcceptance::Fresh((0, 0));
            },
        };
        let recv_offset: i128 = millis(t, b_recv) as i128;
        let first: u64 = self.first_group_a.unwrap();
        let playing = self.last_a_object_at(b_recv);
        proof {
            lemma_played_group(*self, b_recv);
        }
        match self.pt_ms(b_group, 0, false) {
            Some(pt) => {
                if recv_offset >= pt {
                    let target: u64 = match playing {
                        Some((g, _)) => g + 1,
                        None => first + 1,
                    };
                    return if b_group >= target {
                        BAcceptance::Overdue
                    } else {
                        BAcceptance::OverduePending(target)
                    };
                }
            },
            None => {},
        }
        match playing {
            Some((g, o)) => if b_group > g {
                BAcceptance::Fresh((g, o))
            } else {
                BAcceptance::Stale
            },
            None => if b_group > 0 {
                BAcceptance::Fresh((first, 0))
            } else {
                BAcceptance::Stale
            },
        }
    }

    /// Starts the timeline of the new track at an accepted I-frame. The clock keeps its base. The
    /// metrics of the switch are computed before.
    pub fn reset_base(&mut self, b_group: u64, received_at: u64)
        requires
            old(self).wf(),
            b_group <= MAX_ID,
        ensures
            final(self).wf(),
            *final(self) == old(self).rebased(b_group, received_at),
    {
        self.first_group_b = Some(b_group);
        if let Some(t) = self.t_base {
            self.first_group_time_b = Some(millis(t, received_at));
        }
    }

    pub open spec fn rebased(self, b_group: u64, received_at: u64) -> PlayerSimulator {
        PlayerSimulator {
            first_group_b: Some(b_group),
            first_group_time_b: match self.t_base {
                Some(t) => Some(ms_between(t, received_at) as u64),
                None => self.first_group_time_b,
            },
            ..self
        }
    }

    /// When the old track runs out: where the group after the last one played would start.
    pub open spec fn a_stops_at(self, last_a_group: u64) -> int {
        self.pt((last_a_group + 1) as u64, 0, false)->Some_0
    }

    /// When the new track starts: at the presentation time of its I-frame, but not before the
    /// I-frame was received and buffered.
    pub open spec fn b_starts_at(self, b_group: u64, b_recv: u64) -> int {
        let pt = self.pt(b_group, 0, false)->Some_0;
        let ready = ms_between(self.t_base->Some_0, b_recv) + self.jitter_buffer_ms;
        if pt >= ready {
            pt
        } else {
            ready
        }
    }

    /// The groups that are played from neither track.
    pub open spec fn skipped(last_a_group: u64, b_group: u64) -> int {
        if b_group > last_a_group + 1 {
            b_group - last_a_group - 1
        } else {
            0
        }
    }

    /// What a switch costs, when an I-frame of the new track is accepted and `last_a_group` is
    /// the last group played of the old one: when the old track stops, when the new one starts,
    /// how long the player freezes, how many groups it skips and how long they would have played.
    /// `None` if the clock is not set.
    pub fn compute_switch_metrics(&self, last_a_group: u64, b_group: u64, b_recv: u64) -> (r:
        Option<(i128, i128, u64, u64, u128)>)
        requires
            self.wf(),
            last_a_group <= MAX_ID,
            b_group <= MAX_ID,
        ensures
            r is Some <==> self.t_base is Some,
            r matches Some((a_stopped, b_started, stall, skipped_gops, skipped_ms)) ==> {
                &&& a_stopped == self.a_stops_at(last_a_group)
                &&& b_started == self.b_starts_at(b_group, b_recv)
                &&& stall == stall_between(a_stopped as int, b_started as int)
                &&& skipped_gops == Self::skipped(last_a_group, b_group)
                &&& skipped_ms == Self::skipped(last_a_group, b_group) * self.gop()
            },
    {
        let t: u64 = match self.t_base {
            Some(t) => t,
            None => {
                return None;
            },
        };
        let a_stopped: i128 = self.pt_offset_ms(last_a_group + 1, 0, false).unwrap();
        let pt: i128 = self.pt_ms(b_group, 0, false).unwrap();
        let ready: i128 = millis(t, b_recv) as i128 + self.jitter_buffer_ms as i128;
        let b_started: i128 = if pt >= ready {
            pt
        } else {
            ready
        };
        let skipped_gops: u64 = if b_group > last_a_group + 1 {
            b_group - last_a_group - 1
        } else {
            0
        };
        let gop: u64 = self.gop_ms();
        proof {
            assert(skipped_gops * gop <= 0x3fff_ffff_ffff_ffff * 0xffff_ffff_ffff_ffff)
                by (nonlinear_arith)
                requires
                    skipped_gops <= 0x3fff_ffff_ffff_ffff,
                    gop <= 0xffff_ffff_ffff_ffff,
            ;
        }
        let skipped_ms: u128 = skipped_gops as u128 * gop as u128;
        Some((a_stopped, b_started, stall(a_stopped, b_started), skipped_gops, skipped_ms))
    }
}

/// How long a player freezes that has played the old track up to one time and starts the new one
/// at another.
pub open spec fn stall_between(a_stopped: int, b_started: int) -> int {
    if b_started <= a_stopped {
        0
    } else if b_started - a_stopped <= u64::MAX {
        b_started - a_stopped
    } else {
        u64::MAX as int
    }
}

fn stall(a_stopped: i128, b_started: i128) -> (ms: u64)
    ensures
        ms == stall_between(a_stopped as int, b_started as int),
{
    if b_started <= a_stopped {
        return 0;
    }
    match b_started.checked_sub(a_stopped) {
        Some(d) => if d <= u64::MAX as i128 {
            d as u64
        } else {
            u64::MAX
        },
        None => u64::MAX,
    }
}

proof fn lemma_products_fit(rel: int, gop: int, object: int, frame: int)
    requires
        -0x4000_0000_0000_0000 < rel <= 0x4000_0000_0000_0000,
        0 <= gop <= 0xffff_ffff_ffff_ffff,
        0 <= object < 0x4000_0000_0000_0000,
        0 <= frame <= 0xffff_ffff_ffff_ffff,
    ensures
        -0x3fff_ffff_ffff_ffff * 0xffff_ffff_ffff_ffff <= rel * gop <= 0x4000_0000_0000_0000
            * 0xffff_ffff_ffff_ffff,
        rel <= 0x3fff_ffff_ffff_ffff ==> rel * gop <= 0x3fff_ffff_ffff_ffff * 0xffff_ffff_ffff_ffff,
        0 <= object * frame <= 0x3fff_ffff_ffff_ffff * 0xffff_ffff_ffff_ffff,
{
    assert(-0x3fff_ffff_ffff_ffff * 0xffff_ffff_ffff_ffff <= rel * gop <= 0x4000_0000_0000_0000
        * 0xffff_ffff_ffff_ffff) by (nonlinear_arith)
        requires
            -0x4000_0000_0000_0000 < rel <= 0x4000_0000_0000_0000,
            0 <= gop <= 0xffff_ffff_ffff_ffff,
    ;
    if rel <= 0x3fff_ffff_ffff_ffff {
        assert(rel * gop <= 0x3fff_ffff_ffff_ffff * 0xffff_ffff_ffff_ffff) by (nonlinear_arith)
            requires
                rel <= 0x3fff_ffff_ffff_ffff,
                0 <= gop <= 0xffff_ffff_ffff_ffff,
        ;
    }
    assert(0 <= object * frame <= 0x3fff_ffff_ffff_ffff * 0xffff_ffff_ffff_ffff)
        by (nonlinear_arith)
        requires
            0 <= object < 0x4000_0000_0000_0000,
            0 <= frame <= 0xffff_ffff_ffff_ffff,
    ;
}

proof fn lemma_played_group(p: PlayerSimulator, now: u64)
    requires
        p.wf(),
    ensures
        p.played_at(now) matches Some((g, _)) ==> g < u64::MAX,
{
    if let (Some(t), Some(fg)) = (p.t_base, p.first_group_a) {
        if now >= t && now - t >= p.jitter_buffer_ms * NANOS_PER_MS {
            let playing = now - t - p.jitter_buffer_ms * NANOS_PER_MS;
            let gop = p.gop() * NANOS_PER_MS;
            assert(0 <= playing / gop <= playing / 1_000_000) by (nonlinear_arith)
                requires
                    gop >= 1_000_000,
                    playing >= 0,
            ;
        }
    }
}

/// Presentation times fit their type.
#[verifier::spinoff_prover]
pub proof fn lemma_pt_fits(p: PlayerSimulator, group: u64, object: u64, for_b: bool)
    requires
        p.wf(),
        group <= MAX_ID || (group == MAX_ID + 1 && object == 0),
        object <= MAX_ID,
    ensures
        p.pt(group, object, for_b) matches Some(t) ==> i128::MIN < t <= i128::MAX,
{
    let first = if for_b {
        p.first_group_b
    } else {
        p.first_group_a
    };
    if let Some(fg) = first {
        let rel = group - fg;
        let frame = p.frame_interval_ms as int;
        lemma_products_fit(rel, p.gop(), object as int, frame);
        let offset: int = match p.first_group_time_b {
            Some(t) if for_b => t as int,
            _ => 0,
        };
        let groups = rel * p.gop();
        let objects = object * frame;
        assert(object == 0 ==> objects == 0) by {
            assert(0 * frame == 0);
        }
        assert(p.pt(group, object, for_b) == Some(groups + objects + p.jitter_buffer_ms + offset));
    }
}

/// The costs of a switch fit their types.
pub proof fn lemma_metrics_fit(p: PlayerSimulator, last_a_group: u64, b_group: u64, b_recv: u64)
    requires
        p.wf(),
        p.t_base is Some,
        last_a_group <= MAX_ID,
        b_group <= MAX_ID,
    ensures
        i128::MIN < p.a_stops_at(last_a_group) <= i128::MAX,
        i128::MIN < p.b_starts_at(b_group, b_recv) <= i128::MAX,
        0 <= PlayerSimulator::skipped(last_a_group, b_group) * p.gop() <= u128::MAX,
{
    lemma_pt_fits(p, (last_a_group + 1) as u64, 0, false);
    lemma_pt_fits(p, b_group, 0, false);
    let skipped = PlayerSimulator::skipped(last_a_group, b_group);
    let gop = p.gop();
    assert(0 <= skipped * gop <= 0x3fff_ffff_ffff_ffff * 0xffff_ffff_ffff_ffff) by (nonlinear_arith)
        requires
            0 <= skipped <= 0x3fff_ffff_ffff_ffff,
            0 <= gop <= 0xffff_ffff_ffff_ffff,
    ;
}

/// The first I-frame is presented when the jitter buffer has filled; from there on frames follow
/// each other by the frame interval, and groups by the time that a group plays.
pub proof fn law_presentation_times_are_regular(p: PlayerSimulator, group: u64, object: u64)
    requires
        p.wf(),
        p.first_group_a is Some,
        group < MAX_ID,
        object < MAX_ID,
    ensures
        p.pt(p.first_group_a->Some_0, 0, false) == Some(p.jitter_buffer_ms as int),
        p.pt((group + 1) as u64, object, false)->Some_0 == p.pt(group, object, false)->Some_0
            + p.gop(),
        p.pt(group, (object + 1) as u64, false)->Some_0 == p.pt(group, object, false)->Some_0
            + p.frame_interval_ms,
        p.pt((group + 1) as u64, object, false)->Some_0 == p.pt(
            group,
            (object + 1) as u64,
            false,
        )->Some_0 + (p.objects_per_group - 1) * p.frame_interval_ms,
{
    let fg = p.first_group_a->Some_0;
    let gop = p.gop();
    let frame = p.frame_interval_ms as int;
    assert((group + 1 - fg) * gop == (group - fg) * gop + gop) by (nonlinear_arith);
    assert((object + 1) * frame == object * frame + frame) by (nonlinear_arith);
    assert((p.objects_per_group - 1) * frame == p.objects_per_group * frame - frame)
        by (nonlinear_arith);
    assert((fg - fg) * gop == 0) by (nonlinear_arith);
}

/// A player after I-frames, each given by its group and when it was received, were offered to its
/// clock.
pub open spec fn after_bases(p: PlayerSimulator, calls: Seq<(u64, u64)>) -> PlayerSimulator
    decreases calls.len(),
{
    if calls.len() == 0 {
        p
    } else {
        after_bases(p, calls.drop_last()).based(calls.last().0, calls.last().1)
    }
}

/// The clock is set once: the first I-frame sets it, and no later one changes an answer. Before it
/// is set there is no presentation time and nothing is played.
pub proof fn law_clock_is_set_once(
    cfg: PlayoutConfig,
    calls: Seq<(u64, u64)>,
    group: u64,
    object: u64,
    now: u64,
)
    requires
        cfg.wf(),
    ensures
        PlayerSimulator::idle(cfg).pt(group, object, false) is None,
        PlayerSimulator::idle(cfg).played_at(now) is None,
        after_bases(PlayerSimulator::idle(cfg), calls).t_base is None <==> calls.len() == 0,
        calls.len() > 0 ==> {
            let p = PlayerSimulator::idle(cfg);
            let q = after_bases(p, calls);
            &&& q == p.based(calls[0].0, calls[0].1)
            &&& q.t_base == Some(calls[0].1)
            &&& q.pt(group, object, false) == Some(
                (group - calls[0].0) * p.gop() + object * p.frame_interval_ms + p.jitter_buffer_ms,
            )
        },
    decreases calls.len(),
{
    if calls.len() > 0 {
        law_clock_is_set_once(cfg, calls.drop_last(), group, object, now);
        if calls.len() > 1 {
            assert(calls.drop_last()[0] == calls[0]);
        }
    }
}

/// The timeline of the new track leaves that of the old one as it was. It starts where its I-frame
/// was received, and its frames and groups follow each other as those of the old one do.
pub proof fn law_new_timeline_leaves_the_old_one(
    p: PlayerSimulator,
    b_group: u64,
    received_at: u64,
    group: u64,
    object: u64,
    now: u64,
)
    ensures
        ({
            let q = p.rebased(b_group, received_at);
            &&& q.t_base == p.t_base
            &&& forall|g: u64, o: u64| #[trigger] q.pt(g, o, false) == p.pt(g, o, false)
            &&& q.played_at(now) == p.played_at(now)
            &&& p.t_base matches Some(t) ==> {
                let start = p.jitter_buffer_ms + ms_between(t, received_at);
                &&& q.pt(b_group, 0, true) == Some(start)
                &&& q.pt(group, object, true) == Some(
                    start + (group - b_group) * p.objects_per_group * p.frame_interval_ms + object
                        * p.frame_interval_ms,
                )
            }
        }),
{
    let q = p.rebased(b_group, received_at);
    let k = group - b_group;
    assert((b_group - b_group) * p.gop() == 0) by (nonlinear_arith);
    assert(0 * p.frame_interval_ms == 0);
    vstd::arithmetic::mul::lemma_mul_is_associative(
        k,
        p.objects_per_group as int,
        p.frame_interval_ms as int,
    );
}

/// The frame that is being played is the one whose presentation time has come while that of the
/// next frame has not. Nothing is played before the jitter buffer has filled.
pub proof fn law_played_frame_is_the_one_due(p: PlayerSimulator, now: u64)
    requires
        p.wf(),
        p.t_base matches Some(t) && t <= now,
    ensures
        p.played_at(now) is Some <==> now - p.t_base->Some_0 >= p.jitter_buffer_ms * NANOS_PER_MS,
        p.played_at(now) matches Some((g, o)) ==> {
            let elapsed = now - p.t_base->Some_0;
            let due = p.pt(g, o, false)->Some_0;
            &&& due * NANOS_PER_MS <= elapsed < (due + p.frame_interval_ms) * NANOS_PER_MS
            &&& o < p.objects_per_group
        },
{
    let t = p.t_base->Some_0;
    let fg = p.first_group_a->Some_0;
    let m = NANOS_PER_MS as int;
    if now - t >= p.jitter_buffer_ms * NANOS_PER_MS {
        let playing = now - t - p.jitter_buffer_ms * m;
        let gop = p.gop() * m;
        let frame = p.frame_interval_ms * m;
        assert(p.frame_interval_ms > 0) by {
            assert(p.objects_per_group * 0 == 0);
        }
        let rel = playing / gop;
        let rest = playing % gop;
        let o = rest / frame;
        vstd::arithmetic::div_mod::lemma_fundamental_div_mod(playing, gop);
        vstd::arithmetic::div_mod::lemma_fundamental_div_mod(rest, frame);
        assert(0 <= rel <= playing / 1_000_000) by (nonlinear_arith)
            requires
                gop >= 1_000_000,
                playing >= 0,
                rel == playing / gop,
        ;
        assert(0 <= o <= rest) by (nonlinear_arith)
            requires
                frame >= 1,
                rest >= 0,
                o == rest / frame,
        ;
        assert(rest <= playing) by (nonlinear_arith)
            requires
                playing == gop * rel + rest,
                gop >= 1,
                rel >= 0,
        ;
        assert(o < p.objects_per_group) by (nonlinear_arith)
            requires
                rest == frame * o + rest % frame,
                rest % frame >= 0,
                rest < gop,
                gop == p.objects_per_group * p.frame_interval_ms * m,
                frame == p.frame_interval_ms * m,
                frame > 0,
        ;
        let due = rel * p.gop() + o * p.frame_interval_ms + p.jitter_buffer_ms;
        assert(due * m == gop * rel + frame * o + p.jitter_buffer_ms * m) by (nonlinear_arith)
            requires
                due == rel * p.gop() + o * p.frame_interval_ms + p.jitter_buffer_ms,
                gop == p.gop() * m,
                frame == p.frame_interval_ms * m,
        ;
        assert((due + p.frame_interval_ms) * m == due * m + frame) by (nonlinear_arith)
            requires
                frame == p.frame_interval_ms * m,
        ;
    }
}

/// Whether an I-frame of the new track came no earlier than its presentation time.
pub open spec fn came_too_late(p: PlayerSimulator, b_group: u64, b_recv: u64) -> bool {
    ms_between(p.t_base->Some_0, b_recv) >= p.pt(b_group, 0, false)->Some_0
}

/// An I-frame that came too late is never accepted by itself: its group has been played, and a
/// later group is waited for. One that came in time is ahead of what is being played, and is
/// accepted; only group 0 is not, before playback has started.
pub proof fn law_iframe_is_accepted_when_in_time(p: PlayerSimulator, b_group: u64, b_recv: u64)
    requires
        p.wf(),
        p.t_base is Some,
        b_group <= MAX_ID,
    ensures
        came_too_late(p, b_group, b_recv) ==> (p.verdict(b_group, b_recv)
            matches BAcceptance::OverduePending(target) && target > b_group),
        !came_too_late(p, b_group, b_recv) && b_group > 0 ==> p.verdict(b_group, b_recv) is Fresh,
        !came_too_late(p, b_group, b_recv) && b_group == 0 && p.verdict(b_group, b_recv) is Stale
            ==> p.played_at(b_recv) is None,
{
    let t = p.t_base->Some_0;
    let fg = p.first_group_a->Some_0;
    let gop = p.gop();
    let m = NANOS_PER_MS as int;
    let offset = ms_between(t, b_recv);
    lemma_played_group(p, b_recv);
    if b_recv >= t {
        law_played_frame_is_the_one_due(p, b_recv);
        let elapsed = b_recv - t;
        vstd::arithmetic::div_mod::lemma_fundamental_div_mod(elapsed, m);
        let pt = (b_group - fg) * gop + p.jitter_buffer_ms;
        match p.played_at(b_recv) {
            Some((g, o)) => {
                let due = p.pt(g, o, false)->Some_0;
                assert(o * p.frame_interval_ms + p.frame_interval_ms <= gop) by (nonlinear_arith)
                    requires
                        o < p.objects_per_group,
                        gop == p.objects_per_group * p.frame_interval_ms,
                        p.frame_interval_ms >= 0,
                ;
                assert(0 <= o * p.frame_interval_ms) by (nonlinear_arith);
                // The group g starts no later than now, and the next one later.
                let start = (g - fg) * gop + p.jitter_buffer_ms;
                assert(start * m <= elapsed < (start + gop) * m) by (nonlinear_arith)
                    requires
                        due == start + o * p.frame_interval_ms,
                        0 <= o * p.frame_interval_ms,
                        o * p.frame_interval_ms + p.frame_interval_ms <= gop,
                        due * m <= elapsed < (due + p.frame_interval_ms) * m,
                        m == 1_000_000,
                ;
                if b_group <= g {
                    assert((b_group - fg) * gop <= (g - fg) * gop) by (nonlinear_arith)
                        requires
                            b_group <= g,
                            gop > 0,
                    ;
                    assert(pt <= start);
                    assert(offset >= pt);
                } else {
                    assert((b_group - fg) * gop >= (g - fg) * gop + gop) by (nonlinear_arith)
                        requires
                            b_group >= g + 1,
                            gop > 0,
                    ;
                    assert(pt >= start + gop);
                    assert(offset < pt);
                }
            },
            None => {
                assert(elapsed < p.jitter_buffer_ms * m);
                assert(offset < p.jitter_buffer_ms);
                if offset >= pt {
                    assert(b_group < fg) by (nonlinear_arith)
                        requires
                            offset >= (b_group - fg) * gop + p.jitter_buffer_ms,
                            offset < p.jitter_buffer_ms,
                            gop > 0,
                    ;
                }
            },
        }
    } else {
        let pt = (b_group - fg) * gop + p.jitter_buffer_ms;
        if offset >= pt && b_group >= fg {
            assert((b_group - fg) * gop >= 0) by (nonlinear_arith)
                requires
                    b_group >= fg,
                    gop > 0,
            ;
            // Only an empty jitter buffer lets a frame be due at once.
            assert((b_group - fg) * gop == 0);
            assert(b_group == fg) by (nonlinear_arith)
                requires
                    (b_group - fg) * gop == 0,
                    gop > 0,
            ;
        }
    }
}

/// There is no freeze exactly if the new track can start before the old one runs out, and a
/// switch to the next group that is received early enough to fill the jitter buffer neither
/// freezes nor skips.
pub proof fn law_no_stall_when_ready_in_time(
    p: PlayerSimulator,
    last_a_group: u64,
    b_group: u64,
    b_recv: u64,
)
    requires
        p.wf(),
        p.t_base is Some,
        last_a_group < MAX_ID,
        b_group <= MAX_ID,
    ensures
        stall_between(p.a_stops_at(last_a_group), p.b_starts_at(b_group, b_recv)) == 0
            <==> p.b_starts_at(b_group, b_recv) <= p.a_stops_at(last_a_group),
        b_group == last_a_group + 1 && ms_between(p.t_base->Some_0, b_recv) + p.jitter_buffer_ms
            <= p.pt(b_group, 0, false)->Some_0 ==> {
            &&& stall_between(p.a_stops_at(last_a_group), p.b_starts_at(b_group, b_recv)) == 0
            &&& PlayerSimulator::skipped(last_a_group, b_group) == 0
        },
{
}

/// Each group skipped is a whole group's playing time, and the player freezes at least as long as
/// the groups that it skips would have played.
pub proof fn law_skipped_groups_are_waited_for(
    p: PlayerSimulator,
    last_a_group: u64,
    b_group: u64,
    b_recv: u64,
)
    requires
        p.wf(),
        p.t_base is Some,
        last_a_group < MAX_ID,
        b_group <= MAX_ID,
        b_group > last_a_group,
    ensures
        p.b_starts_at(b_group, b_recv) - p.a_stops_at(last_a_group) >= PlayerSimulator::skipped(
            last_a_group,
            b_group,
        ) * p.gop(),
{
    let fg = p.first_group_a->Some_0;
    let gop = p.gop();
    assert((b_group - fg) * gop - (last_a_group + 1 - fg) * gop == (b_group - last_a_group - 1) * gop)
        by (nonlinear_arith);
}

/// What one switch cost. Instants are in nanoseconds, presentation times in milliseconds from the
/// clock's base.
#[derive(Debug)]
pub struct SwitchRecord {
    pub track_from: String,
    pub track_to: String,
    pub switch_decision_time: Option<u64>,
    pub last_a_object_time: Option<u64>,
    pub first_b_object_time: Option<u64>,
    pub actual_switch_time: Option<u64>,
    pub redundant_bytes: u64,
    /// Bytes of the old track between the decision and the acceptance of the new one. They fill
    /// the jitter buffer during the switch and are not excess.
    pub pre_switch_a_bytes: u64,
    /// Bytes of the old track after the new one was accepted.
    pub trailing_a_bytes: u64,
    pub useful_b_bytes: u64,
    /// Payload bytes of one complete group of the new track.
    pub b_gop_payload_bytes: Option<u64>,
    /// Bytes of the first accepted group until it is complete.
    pub b_cur_gop_bytes: u64,
    pub a_objects_post_decision: u64,
    pub b_objects_pre_active: u64,
    pub control_messages: u64,
    pub group_boundary_aligned: Option<bool>,
    pub decision_a_group: Option<u64>,
    pub decision_a_object: Option<u64>,
    /// The frame of the old track that was being played when the new one was accepted.
    pub latest_played_a_group: Option<u64>,
    pub latest_played_a_object: Option<u64>,
    pub last_a_group: Option<u64>,
    pub last_a_object: Option<u64>,
    pub first_b_group: Option<u64>,
    pub switched_b_group: Option<u64>,
    pub a_stopped_at_ms: Option<i128>,
    pub b_started_at_ms: Option<i128>,
    pub skipped_gops: u64,
    pub skipped_duration_ms: u128,
}

impl SwitchRecord {
    /// All bytes counted.
    pub open spec fn byte_count(self) -> int {
        self.redundant_bytes + self.pre_switch_a_bytes + self.trailing_a_bytes + self.useful_b_bytes
    }

    pub open spec fn wf(self) -> bool {
        &&& self.byte_count() <= u64::MAX
        &&& self.b_cur_gop_bytes <= self.useful_b_bytes
        &&& self.a_stopped_at_ms matches Some(t) ==> t > i128::MIN
        &&& self.b_started_at_ms matches Some(t) ==> t > i128::MIN
        &&& self.last_a_group matches Some(g) ==> g <= MAX_ID
        &&& self.decision_a_group matches Some(g) ==> g <= MAX_ID
    }

    /// Whether an object of a size can still be counted in.
    pub open spec fn room(self, payload_size: usize) -> bool {
        &&& self.byte_count() + payload_size <= u64::MAX
        &&& self.a_objects_post_decision < u64::MAX
        &&& self.b_objects_pre_active < u64::MAX
    }

    /// A record in which nothing is noted yet.
    pub open spec fn blank(track_from: String, track_to: String) -> SwitchRecord {
        SwitchRecord {
            track_from,
            track_to,
            switch_decision_time: None,
            last_a_object_time: None,
            first_b_object_time: None,
            actual_switch_time: None,
            redundant_bytes: 0,
            pre_switch_a_bytes: 0,
            trailing_a_bytes: 0,
            useful_b_bytes: 0,
            b_gop_payload_bytes: None,
            b_cur_gop_bytes: 0,
            a_objects_post_decision: 0,
            b_objects_pre_active: 0,
            control_messages: 0,
            group_boundary_aligned: None,
            decision_a_group: None,
            decision_a_object: None,
            latest_played_a_group: None,
            latest_played_a_object: None,
            last_a_group: None,
            last_a_object: None,
            first_b_group: None,
            switched_b_group: None,
            a_stopped_at_ms: None,
            b_started_at_ms: None,
            skipped_gops: 0,
            skipped_duration_ms: 0,
        }
    }

    pub fn new(track_from: &str, track_to: &str) -> (r: Self)
        ensures
            r.wf(),
            r.byte_count() == 0,
            r.track_from@ == track_from@,
            r.track_to@ == track_to@,
            r == SwitchRecord::blank(r.track_from, r.track_to),
    {
        SwitchRecord {
            track_from: track_from.to_owned(),
            track_to: track_to.to_owned(),
            switch_decision_time: None,
            last_a_object_time: None,
            first_b_object_time: None,
            actual_switch_time: None,
            redundant_bytes: 0,
            pre_switch_a_bytes: 0,
            trailing_a_bytes: 0,
            useful_b_bytes: 0,
            b_gop_payload_bytes: None,
            b_cur_gop_bytes: 0,
            a_objects_post_decision: 0,
            b_objects_pre_active: 0,
            control_messages: 0,
            group_boundary_aligned: None,
            decision_a_group: None,
            decision_a_object: None,
            latest_played_a_group: None,
            latest_played_a_object: None,
            last_a_group: None,
            last_a_object: None,
            first_b_group: None,
            switched_b_group: None,
            a_stopped_at_ms: None,
            b_started_at_ms: None,
            skipped_gops: 0,
            skipped_duration_ms: 0,
        }
    }

    /// The milliseconds from the decision to an instant.
    pub open spec fn since_decision(self, t: Option<u64>) -> Option<int> {
        match (self.switch_decision_time, t) {
            (Some(d), Some(t)) => Some(signed_ms_between(d, t)),
            _ => None,
        }
    }

    fn ms_since_decision(&self, t: Option<u64>) -> (r: Option<i128>)
        ensures
            json::optional_signed(r) == self.since_decision(t),
            r matches Some(n) ==> n > i128::MIN,
    {
        match (self.switch_decision_time, t) {
            (Some(d), Some(t)) => Some(signed_millis(d, t)),
            _ => None,
        }
    }

    /// Milliseconds from the decision to the first I-frame of the new track that was accepted.
    pub fn switch_delay_ms(&self) -> (r: Option<i128>)
        ensures
            json::optional_signed(r) == self.since_decision(self.actual_switch_time),
            r matches Some(n) ==> n > i128::MIN,
    {
        self.ms_since_decision(self.actual_switch_time)
    }

    /// Milliseconds from the decision to the last object of the old track.
    pub fn last_a_object_time_ms(&self) -> (r: Option<i128>)
        ensures
            json::optional_signed(r) == self.since_decision(self.last_a_object_time),
            r matches Some(n) ==> n > i128::MIN,
    {
        self.ms_since_decision(self.last_a_object_time)
    }

    /// Milliseconds from the decision to the first object of the new track.
    pub fn first_b_object_time_ms(&self) -> (r: Option<i128>)
        ensures
            json::optional_signed(r) == self.since_decision(self.first_b_object_time),
            r matches Some(n) ==> n > i128::MIN,
    {
        self.ms_since_decision(self.first_b_object_time)
    }

    pub open spec fn stall(self) -> Option<int> {
        match (self.a_stopped_at_ms, self.b_started_at_ms) {
            (Some(a), Some(b)) => Some(stall_between(a as int, b as int)),
            _ => None,
        }
    }

    /// How long the player froze while it waited for the new track.
    pub fn stall_ms(&self) -> (r: Option<u64>)
        ensures
            json::optional_int(r) == self.stall(),
    {
        match (self.a_stopped_at_ms, self.b_started_at_ms) {
            (Some(a), Some(b)) => Some(stall(a, b)),
            _ => None,
        }
    }

    pub open spec fn excess(self) -> int {
        self.redundant_bytes + self.trailing_a_bytes
    }

    /// Bytes that were not needed: the new track before it was accepted, and the old one after.
    pub fn excess_bytes(&self) -> (n: u64)
        requires
            self.wf(),
        ensures
            n == self.excess(),
    {
        self.redundant_bytes + self.trailing_a_bytes
    }

    /// The bytes of the new track and all excess bytes.
    pub fn total_bytes(&self) -> (n: u64)
        requires
            self.wf(),
        ensures
            n == self.useful_b_bytes + self.excess(),
    {
        self.useful_b_bytes + self.excess_bytes()
    }

    pub open spec fn ratio(self) -> Option<(int, int)> {
        match self.b_gop_payload_bytes {
            Some(gop) if gop > 0 => Some((self.excess(), gop as int)),
            _ => None,
        }
    }

    /// The excess traffic ratio: the excess bytes, and the bytes of a group that they are divided
    /// by.
    pub fn aetr(&self) -> (r: Option<(u64, u64)>)
        requires
            self.wf(),
        ensures
            match r {
                Some((a, b)) => self.ratio() == Some((a as int, b as int)),
                None => self.ratio() is None,
            },
    {
        match self.b_gop_payload_bytes {
            Some(gop) => if gop > 0 {
                Some((self.excess_bytes(), gop))
            } else {
                None
            },
            None => None,
        }
    }

    /// A number that says something only if the switch took place.
    pub open spec fn if_switched(self, n: int) -> Option<int> {
        match self.switched_b_group {
            Some(_) => Some(n),
            None => None,
        }
    }

    /// The fields of the record, with the text of its excess traffic ratio, if it has one.
    pub open spec fn fields(self, aetr: Seq<char>) -> Seq<(Seq<char>, Seq<char>)> {
        seq![
            ("track_from"@, json::string(self.track_from@)),
            ("track_to"@, json::string(self.track_to@)),
            ("switch_delay_ms"@, json::optional_number(self.since_decision(self.actual_switch_time))),
            ("stall_ms"@, json::optional_number(self.stall())),
            ("skipped_gops"@, json::optional_number(self.if_switched(self.skipped_gops as int))),
            ("skipped_duration_ms"@, json::optional_number(self.if_switched(self.skipped_duration_ms as int))),
            ("group_boundary_aligned"@, json::optional_bool(self.group_boundary_aligned)),
            ("control_messages"@, text::dec_signed(self.control_messages as int)),
            ("redundant_bytes"@, text::dec_signed(self.redundant_bytes as int)),
            ("pre_switch_a_bytes"@, text::dec_signed(self.pre_switch_a_bytes as int)),
            ("trailing_a_bytes"@, text::dec_signed(self.trailing_a_bytes as int)),
            ("useful_b_bytes"@, text::dec_signed(self.useful_b_bytes as int)),
            ("b_gop_payload_bytes"@, json::optional_number(json::optional_int(self.b_gop_payload_bytes))),
            ("excess_bytes"@, text::dec_signed(self.excess())),
            ("total_bytes"@, text::dec_signed(self.useful_b_bytes + self.excess())),
            (
                "aetr"@,
                if self.ratio() is Some {
                    aetr
                } else {
                    "null"@
                },
            ),
            ("a_objects_post_decision"@, text::dec_signed(self.a_objects_post_decision as int)),
            ("decision_a_group"@, json::optional_number(json::optional_int(self.decision_a_group))),
            ("decision_a_object"@, json::optional_number(json::optional_int(self.decision_a_object))),
            ("latest_played_a_group"@, json::optional_number(json::optional_int(self.latest_played_a_group))),
            ("latest_played_a_object"@, json::optional_number(json::optional_int(self.latest_played_a_object))),
            ("last_a_group"@, json::optional_number(json::optional_int(self.last_a_group))),
            ("last_a_object"@, json::optional_number(json::optional_int(self.last_a_object))),
            ("first_b_group"@, json::optional_number(json::optional_int(self.first_b_group))),
            ("switched_b_group"@, json::optional_number(json::optional_int(self.switched_b_group))),
            ("a_stopped_at_ms"@, json::optional_millis(json::optional_signed(self.a_stopped_at_ms))),
            ("b_started_at_ms"@, json::optional_millis(json::optional_signed(self.b_started_at_ms))),
            ("last_a_object_time_ms"@, json::optional_number(self.since_decision(self.last_a_object_time))),
            ("first_b_object_time_ms"@, json::optional_number(self.since_decision(self.first_b_object_time))),
        ]
    }

    /// Writes the record, with the text of its excess traffic ratio; a record that has none gets
    /// `null`, whatever the text is.
    pub fn to_json(&self, aetr: &str) -> (r: String)
        requires
            self.wf(),
        ensures
            r@ == json::object("    "@, "  "@, self.fields(aetr@)),
    {
        let skipped_gops = match self.switched_b_group {
            Some(_) => json::write_number(self.skipped_gops as u128),
            None => "null".to_owned(),
        };
        let skipped_duration_ms = match self.switched_b_group {
            Some(_) => json::write_number(self.skipped_duration_ms),
            None => "null".to_owned(),
        };
        let ratio = if self.aetr().is_some() {
            aetr.to_owned()
        } else {
            "null".to_owned()
        };
        let mut f: Vec<(String, String)> = Vec::new();
        assert(json::pairs(f@) =~= Seq::<(Seq<char>, Seq<char>)>::empty());
        json::add_field(&mut f, "track_from", json::write_string(self.track_from.as_str()));
        json::add_field(&mut f, "track_to", json::write_string(self.track_to.as_str()));
        json::add_field(&mut f, "switch_delay_ms", json::write_optional_i128(self.switch_delay_ms()));
        json::add_field(&mut f, "stall_ms", json::write_optional_u64(self.stall_ms()));
        json::add_field(&mut f, "skipped_gops", skipped_gops);
        json::add_field(&mut f, "skipped_duration_ms", skipped_duration_ms);
        json::add_field(&mut f, "group_boundary_aligned", json::write_optional_bool(self.group_boundary_aligned));
        json::add_field(&mut f, "control_messages", json::write_number(self.control_messages as u128));
        json::add_field(&mut f, "redundant_bytes", json::write_number(self.redundant_bytes as u128));
        json::add_field(&mut f, "pre_switch_a_bytes", json::write_number(self.pre_switch_a_bytes as u128));
        json::add_field(&mut f, "trailing_a_bytes", json::write_number(self.trailing_a_bytes as u128));
        json::add_field(&mut f, "useful_b_bytes", json::write_number(self.useful_b_bytes as u128));
        json::add_field(&mut f, "b_gop_payload_bytes", json::write_optional_u64(self.b_gop_payload_bytes));
        json::add_field(&mut f, "excess_bytes", json::write_number(self.excess_bytes() as u128));
        json::add_field(&mut f, "total_bytes", json::write_number(self.total_bytes() as u128));
        json::add_field(&mut f, "aetr", ratio);
        json::add_field(&mut f, "a_objects_post_decision", json::write_number(self.a_objects_post_decision as u128));
        json::add_field(&mut f, "decision_a_group", json::write_optional_u64(self.decision_a_group));
        json::add_field(&mut f, "decision_a_object", json::write_optional_u64(self.decision_a_object));
        json::add_field(&mut f, "latest_played_a_group", json::write_optional_u64(self.latest_played_a_group));
        json::add_field(&mut f, "latest_played_a_object", json::write_optional_u64(self.latest_played_a_object));
        json::add_field(&mut f, "last_a_group", json::write_optional_u64(self.last_a_group));
        json::add_field(&mut f, "last_a_object", json::write_optional_u64(self.last_a_object));
        json::add_field(&mut f, "first_b_group", json::write_optional_u64(self.first_b_group));
        json::add_field(&mut f, "switched_b_group", json::write_optional_u64(self.switched_b_group));
        json::add_field(&mut f, "a_stopped_at_ms", json::write_optional_millis(self.a_stopped_at_ms));
        json::add_field(&mut f, "b_started_at_ms", json::write_optional_millis(self.b_started_at_ms));
        json::add_field(&mut f, "last_a_object_time_ms", json::write_optional_i128(self.last_a_object_time_ms()));
        json::add_field(&mut f, "first_b_object_time_ms", json::write_optional_i128(self.first_b_object_time_ms()));
        assert(json::pairs(f@) =~= self.fields(aetr@));
        json::write_object(&f, "    ", "  ")
    }
}

/// What a run of switches cost.
#[derive(Debug)]
pub struct SwitchStats {
    pub method: String,
    pub bandwidth_cap_bps: u64,
    pub playout: PlayoutConfig,
    pub switches: Vec<SwitchRecord>,
    /// The mean excess traffic ratio, as text.
    pub aetr: Option<String>,
}

/// The records that have an excess traffic ratio give theirs.
pub open spec fn ratios(rs: Seq<SwitchRecord>) -> Seq<(int, int)>
    decreases rs.len(),
{
    if rs.len() == 0 {
        Seq::empty()
    } else {
        match rs.last().ratio() {
            Some(r) => ratios(rs.drop_last()).push(r),
            None => ratios(rs.drop_last()),
        }
    }
}

impl SwitchStats {
    pub open spec fn wf(&self) -> bool {
        forall|i: int| 0 <= i < self.switches@.len() ==> (#[trigger] self.switches@[i]).wf()
    }

    pub fn new(method: &str, bandwidth_cap_bps: u64, playout: PlayoutConfig) -> (s: Self)
        ensures
            s.wf(),
            s.method@ == method@,
            s.bandwidth_cap_bps == bandwidth_cap_bps,
            s.playout == playout,
            s.switches@.len() == 0,
            s.aetr is None,
    {
        SwitchStats {
            method: method.to_owned(),
            bandwidth_cap_bps,
            playout,
            switches: Vec::new(),
            aetr: None,
        }
    }

    /// The excess traffic ratios of the switches that have one.
    pub fn ratios(&self) -> (r: Vec<(u64, u64)>)
        requires
            self.wf(),
        ensures
            r@.map_values(|p: (u64, u64)| (p.0 as int, p.1 as int)) == ratios(self.switches@),
    {
        let mut r: Vec<(u64, u64)> = Vec::new();
        let ghost as_int = |p: (u64, u64)| (p.0 as int, p.1 as int);
        let ghost all = self.switches@;
        let mut i: usize = 0;
        assert(all.take(0) =~= Seq::<SwitchRecord>::empty());
        assert(r@.map_values(as_int) =~= ratios(all.take(0)));
        while i < self.switches.len()
            invariant
                self.wf(),
                all == self.switches@,
                as_int == (|p: (u64, u64)| (p.0 as int, p.1 as int)),
                i <= all.len(),
                r@.map_values(as_int) == ratios(all.take(i as int)),
            decreases all.len() - i,
        {
            let ghost had = r@;
            proof {
                assert(all.take(i + 1).drop_last() =~= all.take(i as int));
                assert(all.take(i + 1).last() == all[i as int]);
            }
            if let Some(p) = self.switches[i].aetr() {
                r.push(p);
                assert(r@.map_values(as_int) =~= had.map_values(as_int).push(as_int(p)));
            }
            i = i + 1;
        }
        assert(all.take(i as int) =~= all);
        r
    }

    /// Notes the mean of the excess traffic ratios, if there is any to take it of.
    pub fn finalize(&mut self, mean: &str)
        requires
            old(self).wf(),
        ensures
            final(self).wf(),
            *final(self) == (SwitchStats { aetr: final(self).aetr, ..*old(self) }),
            ratios(old(self).switches@).len() == 0 ==> final(self).aetr == old(self).aetr,
            ratios(old(self).switches@).len() > 0 ==> (final(self).aetr matches Some(t) && t@
                == mean@),
    {
        let r = self.ratios();
        proof {
            assert(r@.map_values(|p: (u64, u64)| (p.0 as int, p.1 as int)).len() == r@.len());
        }
        if r.len() > 0 {
            self.aetr = Some(mean.to_owned());
        }
    }

    /// The fields of the statistics, with the text of the excess traffic ratio of each switch that
    /// has one.
    pub open spec fn fields(&self, ratios: Seq<Seq<char>>) -> Seq<(Seq<char>, Seq<char>)> {
        seq![
            ("method"@, json::string(self.method@)),
            ("bandwidth_cap_bps"@, text::dec_signed(self.bandwidth_cap_bps as int)),
            ("frame_interval_ms"@, text::dec_signed(self.playout.frame_interval_ms as int)),
            ("objects_per_group"@, text::dec_signed(self.playout.objects_per_group as int)),
            ("jitter_buffer_ms"@, text::dec_signed(self.playout.jitter_buffer_ms as int)),
            (
                "aetr"@,
                match self.aetr {
                    Some(t) => t@,
                    None => "null"@,
                },
            ),
            (
                "switches"@,
                json::list(
                    Seq::new(
                        self.switches@.len(),
                        |i: int|
                            json::object(
                                "    "@,
                                "  "@,
                                self.switches@[i].fields(ratios[i]),
                            ),
                    ),
                ),
            ),
        ]
    }

    /// Writes the statistics, with the text of the excess traffic ratio of each switch; one that
    /// has none gets `null`, whatever its text is.
    pub fn to_json(&self, ratios: &Vec<String>) -> (r: String)
        requires
            self.wf(),
            ratios@.len() == self.switches@.len(),
        ensures
            r@ == json::object("  "@, ""@, self.fields(text::texts(ratios@))),
    {
        let mut items: Vec<String> = Vec::new();
        let ghost shown = Seq::new(
            self.switches@.len(),
            |i: int|
                json::object(
                    "    "@,
                    "  "@,
                    self.switches@[i].fields(text::texts(ratios@)[i]),
                ),
        );
        let mut i: usize = 0;
        while i < self.switches.len()
            invariant
                self.wf(),
                ratios@.len() == self.switches@.len(),
                shown == Seq::new(
                    self.switches@.len(),
                    |i: int|
                        json::object(
                            "    "@,
                            "  "@,
                            self.switches@[i].fields(text::texts(ratios@)[i]),
                        ),
                ),
                i <= self.switches@.len(),
                items@.len() == i,
                forall|j: int| 0 <= j < i ==> (#[trigger] items@[j])@ == shown[j],
            decreases self.switches@.len() - i,
        {
            items.push(self.switches[i].to_json(ratios[i].as_str()));
            i = i + 1;
        }
        assert(text::texts(items@) =~= shown);
        let aetr = match &self.aetr {
            Some(t) => t.clone(),
            None => "null".to_owned(),
        };
        let mut f: Vec<(String, String)> = Vec::new();
        assert(json::pairs(f@) =~= Seq::<(Seq<char>, Seq<char>)>::empty());
        json::add_field(&mut f, "method", json::write_string(self.method.as_str()));
        json::add_field(
            &mut f,
            "bandwidth_cap_bps",
            json::write_number(self.bandwidth_cap_bps as u128),
        );
        json::add_field(
            &mut f,
            "frame_interval_ms",
            json::write_number(self.playout.frame_interval_ms as u128),
        );
        json::add_field(
            &mut f,
            "objects_per_group",
            json::write_number(self.playout.objects_per_group as u128),
        );
        json::add_field(
            &mut f,
            "jitter_buffer_ms",
            json::write_number(self.playout.jitter_buffer_ms as u128),
        );
        json::add_field(&mut f, "aetr", aetr);
        json::add_field(&mut f, "switches", json::write_list(&items));
        assert(json::pairs(f@) =~= self.fields(text::texts(ratios@)));
        json::write_object(&f, "  ", "")
    }
}

/// What a subscriber has received.
#[derive(Debug)]
pub struct ReceptionStats {
    pub total_received: u64,
    pub parse_errors: u64,
    pub sequence_gaps: u64,
    pub last_group: u64,
    pub last_object: u64,
    /// The instant of the start, in nanoseconds.
    pub start_time: u64,
}

/// Whether an object follows another: the next of its group, or the first of the next group.
pub open spec fn follows(group: u64, object: u64, last_group: u64, last_object: u64) -> bool {
    ||| group == last_group && object == last_object + 1
    ||| group == last_group + 1 && object == 0
}

impl ReceptionStats {
    /// The gaps are among the objects received.
    pub open spec fn wf(&self) -> bool {
        self.sequence_gaps <= self.total_received
    }

    pub fn new(now: u64) -> (s: Self)
        ensures
            s.wf(),
            s == (ReceptionStats {
                total_received: 0,
                parse_errors: 0,
                sequence_gaps: 0,
                last_group: 0,
                last_object: 0,
                start_time: now,
            }),
    {
        ReceptionStats {
            total_received: 0,
            parse_errors: 0,
            sequence_gaps: 0,
            last_group: 0,
            last_object: 0,
            start_time: now,
        }
    }

    /// Counts an object in. Says whether it is in sequence: the first object always is.
    pub fn record_object(&mut self, group_id: u64, object_id: u64) -> (sequence_ok: bool)
        requires
            old(self).wf(),
            old(self).total_received < u64::MAX,
        ensures
            final(self).wf(),
            final(self).total_received == old(self).total_received + 1,
            sequence_ok <==> final(self).sequence_gaps == old(self).sequence_gaps,
            !sequence_ok ==> final(self).sequence_gaps == old(self).sequence_gaps + 1,
            sequence_ok && old(self).total_received > 0 ==> group_id > old(self).last_group || (
            group_id == old(self).last_group && object_id > old(self).last_object),
            sequence_ok == (old(self).total_received == 0 || follows(
                group_id,
                object_id,
                old(self).last_group,
                old(self).last_object,
            )),
            *final(self) == (ReceptionStats {
                total_received: (old(self).total_received + 1) as u64,
                sequence_gaps: if sequence_ok {
                    old(self).sequence_gaps
                } else {
                    (old(self).sequence_gaps + 1) as u64
                },
                last_group: group_id,
                last_object: object_id,
                ..*old(self)
            }),
    {
        self.total_received = self.total_received + 1;
        if self.total_received == 1 {
            self.last_group = group_id;
            self.last_object = object_id;
            return true;
        }
        let sequence_ok = (group_id == self.last_group && object_id > 0 && object_id - 1
            == self.last_object) || (group_id > 0 && group_id - 1 == self.last_group && object_id
            == 0);
        if !sequence_ok {
            self.sequence_gaps = self.sequence_gaps + 1;
        }
        self.last_group = group_id;
        self.last_object = object_id;
        sequence_ok
    }

    pub fn record_parse_error(&mut self)
        requires
            old(self).parse_errors < u64::MAX,
        ensures
            *final(self) == (ReceptionStats {
                parse_errors: (old(self).parse_errors + 1) as u64,
                ..*old(self)
            }),
    {
        self.parse_errors = self.parse_errors + 1;
    }

    /// The milliseconds since the start.
    pub fn elapsed_ms(&self, now: u64) -> (ms: u128)
        ensures
            ms == ms_between(self.start_time, now),
    {
        millis(self.start_time, now) as u128
    }

    /// The report in two lines: the counts, and whether all is well.
    pub fn report(&self, now: u64) -> (r: (String, String))
        ensures
            r.0@ == "Reception stats: total="@ + text::dec(self.total_received as nat)
                + ", last=group:"@ + text::dec(self.last_group as nat) + "/object:"@ + text::dec(
                self.last_object as nat,
            ) + ", errors="@ + text::dec(self.parse_errors as nat) + ", gaps="@ + text::dec(
                self.sequence_gaps as nat,
            ) + ", elapsed="@ + text::dec(ms_between(self.start_time, now) as nat) + "ms"@,
            r.1@ == if self.parse_errors == 0 && self.sequence_gaps == 0 {
                "All objects received with correct sequence"@
            } else {
                "Found "@ + text::dec(self.parse_errors as nat) + " parse errors and "@ + text::dec(
                    self.sequence_gaps as nat,
                ) + " sequence gaps"@
            },
    {
        let mut counts = "Reception stats: total=".to_owned();
        counts.append(decimal(self.total_received as u128).as_str());
        counts.append(", last=group:");
        counts.append(decimal(self.last_group as u128).as_str());
        counts.append("/object:");
        counts.append(decimal(self.last_object as u128).as_str());
        counts.append(", errors=");
        counts.append(decimal(self.parse_errors as u128).as_str());
        counts.append(", gaps=");
        counts.append(decimal(self.sequence_gaps as u128).as_str());
        counts.append(", elapsed=");
        counts.append(decimal(self.elapsed_ms(now)).as_str());
        counts.append("ms");
        let state = if self.parse_errors == 0 && self.sequence_gaps == 0 {
            "All objects received with correct sequence".to_owned()
        } else {
            let mut t = "Found ".to_owned();
            t.append(decimal(self.parse_errors as u128).as_str());
            t.append(" parse errors and ");
            t.append(decimal(self.sequence_gaps as u128).as_str());
            t.append(" sequence gaps");
            t
        };
        (counts, state)
    }
}

/// An object that follows another is later than it, and at most one object id follows in a group.
pub proof fn law_sequence_goes_forward(g: u64, o: u64, lg: u64, lo: u64)
    requires
        follows(g, o, lg, lo),
    ensures
        g > lg || (g == lg && o > lo),
{
}

/// Milliseconds are counted whole and never ahead of the clock; an instant that is not later is
/// none away, and seen from the other end the signed distance is the opposite one.
pub proof fn law_milliseconds_are_whole(from: u64, to: u64)
    ensures
        from <= to ==> ms_between(from, to) * NANOS_PER_MS <= to - from < (ms_between(from, to) + 1)
            * NANOS_PER_MS,
        to <= from ==> ms_between(from, to) == 0,
        signed_ms_between(from, to) == -signed_ms_between(to, from),
        from <= to ==> signed_ms_between(from, to) == ms_between(from, to),
{
}

/// A fresh I-frame is accepted for the frame that is being played when it comes, or for the first
/// one of the old track where none is yet; one that is overdue waits for the group right behind the
/// one that is being played. Before the clock is set every I-frame is accepted.
pub proof fn law_iframe_is_held_against_what_is_played(
    p: PlayerSimulator,
    b_group: u64,
    b_recv: u64,
)
    requires
        p.wf(),
    ensures
        p.t_base is None ==> p.verdict(b_group, b_recv) == BAcceptance::Fresh((0, 0)),
        p.t_base is Some ==> (p.verdict(b_group, b_recv) matches BAcceptance::Fresh(f)
            ==> match p.played_at(b_recv) {
            Some(q) => f == q && b_group > q.0,
            None => f == (p.first_group_a->Some_0, 0u64),
        }),
        p.verdict(b_group, b_recv) matches BAcceptance::OverduePending(target)
            ==> match p.played_at(b_recv) {
            Some((g, _)) => target == g + 1,
            None => target == p.first_group_a->Some_0 + 1,
        },
        p.t_base is Some && (p.verdict(b_group, b_recv) is Fresh || p.verdict(b_group, b_recv)
            is Stale) ==> !came_too_late(p, b_group, b_recv),
        p.verdict(b_group, b_recv) is Stale ==> match p.played_at(b_recv) {
            Some((g, _)) => b_group <= g,
            None => b_group == 0,
        },
{
    lemma_played_group(p, b_recv);
}

/// The old track runs out when its last group has played in full; the new one starts at its own
/// time or when it is ready, whichever is later; the freeze is what lies between, and with it the
/// new track starts exactly where the old one stopped. The groups skipped are those between the
/// last of the one and the first of the other.
pub proof fn law_costs_of_a_switch_add_up(
    p: PlayerSimulator,
    last_a_group: u64,
    b_group: u64,
    b_recv: u64,
)
    requires
        p.wf(),
        p.t_base is Some,
        last_a_group < MAX_ID,
        b_group <= MAX_ID,
    ensures
        p.a_stops_at(last_a_group) == p.pt(last_a_group, 0, false)->Some_0 + p.gop(),
        ({
            let due = p.pt(b_group, 0, false)->Some_0;
            let ready = ms_between(p.t_base->Some_0, b_recv) + p.jitter_buffer_ms;
            let starts = p.b_starts_at(b_group, b_recv);
            starts >= due && starts >= ready && (starts == due || starts == ready)
        }),
        ({
            let a = p.a_stops_at(last_a_group);
            let b = p.b_starts_at(b_group, b_recv);
            let freeze = stall_between(a, b);
            &&& 0 <= freeze <= u64::MAX
            &&& a < b && b - a <= u64::MAX ==> a + freeze == b
            &&& b - a > u64::MAX ==> freeze == u64::MAX
            &&& b <= a ==> freeze == 0
        }),
        b_group > last_a_group ==> last_a_group + PlayerSimulator::skipped(last_a_group, b_group)
            + 1 == b_group,
        b_group <= last_a_group ==> PlayerSimulator::skipped(last_a_group, b_group) == 0,
{
    let fg = p.first_group_a->Some_0;
    let gop = p.gop();
    assert((last_a_group + 1 - fg) * gop == (last_a_group - fg) * gop + gop) by (nonlinear_arith);
    assert(0 * p.frame_interval_ms == 0);
}

/// Every byte that was counted is needed, buffered or excess, and the excess traffic ratio is the
/// excess over one group of the new track, where that is known and not empty.
pub proof fn law_excess_is_what_was_not_needed(r: SwitchRecord)
    ensures
        r.excess() + r.useful_b_bytes + r.pre_switch_a_bytes == r.byte_count(),
        r.ratio() is Some <==> r.b_gop_payload_bytes is Some && r.b_gop_payload_bytes->Some_0 > 0,
        r.ratio() matches Some((excess, gop)) ==> excess + r.useful_b_bytes + r.pre_switch_a_bytes
            == r.byte_count() && r.b_gop_payload_bytes == Some(gop as u64),
{
}

/// Each switch that has a ratio gives it, in the order of the switches, and no other does.
pub proof fn law_ratios_keep_the_order_of_switches(
    before: Seq<SwitchRecord>,
    r: SwitchRecord,
    behind: Seq<SwitchRecord>,
)
    ensures
        r.ratio() is None ==> ratios(before.push(r) + behind) == ratios(before) + ratios(behind),
        r.ratio() matches Some(x) ==> ratios(before.push(r) + behind) == ratios(before).push(x)
            + ratios(behind),
    decreases behind.len(),
{
    let all = before.push(r) + behind;
    if behind.len() == 0 {
        assert(all =~= before.push(r));
        assert(all.drop_last() =~= before);
        assert(ratios(before) + ratios(behind) =~= ratios(before));
        assert(ratios(all) + ratios(behind) =~= ratios(all));
    } else {
        let init = behind.drop_last();
        law_ratios_keep_the_order_of_switches(before, r, init);
        assert(all.drop_last() =~= before.push(r) + init);
        assert(all.last() == behind.last());
        if let Some(y) = behind.last().ratio() {
            assert((ratios(before) + ratios(init)).push(y) =~= ratios(before) + ratios(init).push(
                y,
            ));
            if let Some(x) = r.ratio() {
                let p = ratios(before).push(x);
                assert((p + ratios(init)).push(y) =~= p + ratios(init).push(y));
            }
        }
    }
}

/// The times of a record are counted from the decision: an instant after it lies a positive number
/// of milliseconds away, one before it a negative one, the decision itself none; without both there
/// is no such time. The freeze is there exactly where both ends of it are.
pub proof fn law_times_of_a_record_count_from_the_decision(r: SwitchRecord, t: u64)
    ensures
        r.switch_decision_time is None ==> r.since_decision(Some(t)) is None,
        r.since_decision(None) is None,
        r.switch_decision_time matches Some(d) ==> (r.since_decision(Some(t)) matches Some(n) && {
            &&& t >= d ==> n * NANOS_PER_MS <= t - d < (n + 1) * NANOS_PER_MS
            &&& t < d ==> (n - 1) * NANOS_PER_MS < t - d <= n * NANOS_PER_MS
        }),
        r.stall() is Some <==> r.a_stopped_at_ms is Some && r.b_started_at_ms is Some,
        r.stall() matches Some(n) ==> {
            let a = r.a_stopped_at_ms->Some_0;
            let b = r.b_started_at_ms->Some_0;
            &&& b <= a ==> n == 0
            &&& a < b && b - a <= u64::MAX ==> a + n == b
        },
        r.if_switched(5) is Some <==> r.switched_b_group is Some,
{
}

/// What a record shows of itself stands under its own name: of any two names the values are told
/// apart, the totals add up from their parts, and what is not known is shown as such.
pub proof fn law_a_record_shows_each_count_under_its_name(r: SwitchRecord, aetr: Seq<char>)
    ensures
        ({
            let f = r.fields(aetr);
            &&& f.len() == 29
            &&& f.contains(("track_from"@, json::string(r.track_from@)))
            &&& f.contains(("track_to"@, json::string(r.track_to@)))
            &&& f.contains(("redundant_bytes"@, text::dec_signed(r.redundant_bytes as int)))
            &&& f.contains(("pre_switch_a_bytes"@, text::dec_signed(r.pre_switch_a_bytes as int)))
            &&& f.contains(("trailing_a_bytes"@, text::dec_signed(r.trailing_a_bytes as int)))
            &&& f.contains(("useful_b_bytes"@, text::dec_signed(r.useful_b_bytes as int)))
            &&& f.contains(
                (
                    "excess_bytes"@,
                    text::dec_signed(r.redundant_bytes + r.trailing_a_bytes),
                ),
            )
            &&& f.contains(
                (
                    "total_bytes"@,
                    text::dec_signed(r.byte_count() - r.pre_switch_a_bytes),
                ),
            )
            &&& f.contains(("control_messages"@, text::dec_signed(r.control_messages as int)))
            &&& f.contains(
                ("a_objects_post_decision"@, text::dec_signed(r.a_objects_post_decision as int)),
            )
            &&& r.ratio() is None ==> f.contains(("aetr"@, "null"@))
            &&& r.ratio() is Some ==> f.contains(("aetr"@, aetr))
            &&& r.switched_b_group is None ==> f.contains(
                ("skipped_gops"@, json::optional_number(None)),
            ) && f.contains(("skipped_duration_ms"@, json::optional_number(None)))
            &&& r.switched_b_group is Some ==> f.contains(
                ("skipped_gops"@, json::optional_number(Some(r.skipped_gops as int))),
            ) && f.contains(
                ("skipped_duration_ms"@, json::optional_number(Some(r.skipped_duration_ms as int))),
            )
            &&& f.contains(
                (
                    "switch_delay_ms"@,
                    json::optional_number(r.since_decision(r.actual_switch_time)),
                ),
            )
            &&& f.contains(("stall_ms"@, json::optional_number(r.stall())))
        }),
{
    let f = r.fields(aetr);
    assert(f[0].0 == "track_from"@ && f[1].0 == "track_to"@ && f[2].0 == "switch_delay_ms"@);
    assert(f[3].0 == "stall_ms"@ && f[4].0 == "skipped_gops"@ && f[5].0 == "skipped_duration_ms"@);
    assert(f[7].0 == "control_messages"@ && f[8].0 == "redundant_bytes"@);
    assert(f[9].0 == "pre_switch_a_bytes"@ && f[10].0 == "trailing_a_bytes"@);
    assert(f[11].0 == "useful_b_bytes"@ && f[13].0 == "excess_bytes"@);
    assert(f[14].0 == "total_bytes"@ && f[15].0 == "aetr"@);
    assert(f[16].0 == "a_objects_post_decision"@);
}

/// After an object come exactly two in sequence: the next of its group, and the first of the next
/// group.
pub proof fn law_two_objects_follow(g: u64, o: u64, lg: u64, lo: u64)
    ensures
        follows(g, o, lg, lo) && g == lg ==> o - lo == 1,
        follows(g, o, lg, lo) && g != lg ==> g - lg == 1 && o == 0,
        g == lg && o - lo == 1 ==> follows(g, o, lg, lo),
        g - lg == 1 && o == 0 ==> follows(g, o, lg, lo),
        !follows(lg, lo, lg, lo),
{
}

} // verus!
