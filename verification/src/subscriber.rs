//! The subscriber: what it asks for, and what it makes of what it receives.
use crate::cli::DeliveryMode;
use crate::control::{ControlMessage, Subscribe};
use crate::control;
use crate::message::{GroupOrder, MessageParameter};
use crate::names::{FullTrackName, TrackName};
use crate::names;
use crate::outside;
use crate::stats::ReceptionStats;
use crate::stats;
use crate::text::decimal;
use crate::text;
use vstd::prelude::*;

verus! {

#[derive(Debug)]
pub struct SubscribeConfig {
    pub namespace: String,
    pub track_name: String,
    pub delivery_mode: DeliveryMode,
    /// Seconds to listen; 0 for as long as the connection lasts.
    pub duration: u64,
    pub subscriber_priority: u8,
    pub group_order: GroupOrder,
    /// A second track, with its priority.
    pub extra_track: Option<(String, u8)>,
}

impl SubscribeConfig {
    /// The seconds after which the connection is closed, if it is.
    pub fn closes_after(&self) -> (secs: Option<u64>)
        ensures
            secs == if self.duration > 0 {
                Some(self.duration)
            } else {
                None
            },
    {
        if self.duration > 0 {
            Some(self.duration)
        } else {
            None
        }
    }
}

/// A subscription to what a track publishes from now on.
pub open spec fn subscription_to(
    request_id: u64,
    track: TrackName,
    priority: u8,
    order: GroupOrder,
) -> control::ControlView {
    control::ControlView::Subscribe(
        control::SubscribeView {
            request_id,
            track,
            parameters: seq![
                MessageParameter::SubscriberPriority { priority },
                MessageParameter::GroupOrder { order },
                MessageParameter::Forward { forward: true },
                control::latest_object(),
            ],
        },
    )
}

/// Asks for a track.
pub fn subscribe_track(
    request_id: u64,
    track: &FullTrackName,
    priority: u8,
    order: GroupOrder,
) -> (m: ControlMessage)
    ensures
        m@ == subscription_to(request_id, track@, priority, order),
{
    let mut ps: Vec<MessageParameter> = Vec::new();
    ps.push(MessageParameter::SubscriberPriority { priority });
    ps.push(MessageParameter::GroupOrder { order });
    ps.push(MessageParameter::Forward { forward: true });
    let m = ControlMessage::Subscribe(Subscribe::new_latest_object(request_id, track.copy(), ps));
    assert(m@ =~= subscription_to(request_id, track@, priority, order));
    m
}

/// Why a subscription fails.
#[derive(Debug, Clone, Copy, PartialEq, Eq, Structural)]
pub enum SubscribeFailure {
    /// A message came that is no acceptance.
    UnexpectedMessage,
    /// The control stream has ended.
    StreamEnded,
}

/// Reads the reply to a subscription: the alias of the track.
pub fn subscribed(reply: &Result<ControlMessage, ()>) -> (r: Result<u64, SubscribeFailure>)
    ensures
        r == match *reply {
            Ok(ControlMessage::SubscribeOk(m)) => Ok::<u64, SubscribeFailure>(m.track_alias),
            Ok(_) => Err(SubscribeFailure::UnexpectedMessage),
            Err(_) => Err(SubscribeFailure::StreamEnded),
        },
{
    match reply {
        Ok(ControlMessage::SubscribeOk(m)) => Ok(m.track_alias),
        Ok(_) => Err(SubscribeFailure::UnexpectedMessage),
        Err(_) => Err(SubscribeFailure::StreamEnded),
    }
}

/// The requests of a run: request 0 asks for the track, request 1 for the second one if there is
/// one. Both are in the run's namespace, and asked for in the same order of groups.
pub fn run(config: &SubscribeConfig) -> (ms: Vec<ControlMessage>)
    requires
        names::path_fits(config.namespace@),
    ensures
        ms@.len() == if config.extra_track is Some {
            2int
        } else {
            1
        },
        ms@[0]@ == subscription_to(
            0,
            names::track_at(config.namespace@, config.track_name@),
            config.subscriber_priority,
            config.group_order,
        ),
        config.extra_track matches Some((name, priority)) ==> ms@[1]@ == subscription_to(
            1,
            names::track_at(config.namespace@, name@),
            priority,
            config.group_order,
        ),
{
    let mut ms: Vec<ControlMessage> = Vec::new();
    let namespace = config.namespace.as_str();
    let track = FullTrackName::from_path(namespace, config.track_name.as_str());
    ms.push(subscribe_track(0, &track, config.subscriber_priority, config.group_order));
    match &config.extra_track {
        Some((name, priority)) => {
            let extra = FullTrackName::from_path(namespace, name.as_str());
            ms.push(subscribe_track(1, &extra, *priority, config.group_order));
        },
        None => {},
    }
    ms
}

/// A datagram as it was read.
#[derive(Debug, Clone, Copy, PartialEq, Eq, Structural)]
pub enum DatagramEvent {
    Unreadable,
    Object { track_alias: u64, group_id: u64, object_id: u64 },
}

/// What became of a datagram.
#[derive(Debug, Clone, Copy, PartialEq, Eq, Structural)]
pub enum DatagramVerdict {
    /// It could not be read.
    Unreadable,
    /// It is of another track.
    Ignored,
    /// Its position is not one that is sent.
    Invalid,
    /// It was counted in, in sequence or not.
    Received { sequence_ok: bool },
}

/// Positions from here on are taken for damage.
pub const POSITION_LIMIT: u64 = 10000;

/// What becomes of a datagram.
pub open spec fn datagram_verdict(
    stats: ReceptionStats,
    track_alias: u64,
    event: DatagramEvent,
) -> DatagramVerdict {
    match event {
        DatagramEvent::Unreadable => DatagramVerdict::Unreadable,
        DatagramEvent::Object { track_alias: alias, group_id, object_id } => if alias
            != track_alias {
            DatagramVerdict::Ignored
        } else if group_id >= POSITION_LIMIT || object_id >= POSITION_LIMIT {
            DatagramVerdict::Invalid
        } else {
            DatagramVerdict::Received {
                sequence_ok: stats.total_received == 0 || stats::follows(
                    group_id,
                    object_id,
                    stats.last_group,
                    stats.last_object,
                ),
            }
        },
    }
}

/// The counts after a datagram.
pub open spec fn datagram_counted(
    stats: ReceptionStats,
    track_alias: u64,
    event: DatagramEvent,
) -> ReceptionStats {
    match datagram_verdict(stats, track_alias, event) {
        DatagramVerdict::Unreadable | DatagramVerdict::Invalid => ReceptionStats {
            parse_errors: (stats.parse_errors + 1) as u64,
            ..stats
        },
        DatagramVerdict::Ignored => stats,
        DatagramVerdict::Received { sequence_ok } => ReceptionStats {
            total_received: (stats.total_received + 1) as u64,
            sequence_gaps: if sequence_ok {
                stats.sequence_gaps
            } else {
                (stats.sequence_gaps + 1) as u64
            },
            last_group: event->group_id,
            last_object: event->object_id,
            ..stats
        },
    }
}

/// Takes in a datagram.
pub fn receive_datagrams(stats: &mut ReceptionStats, track_alias: u64, event: DatagramEvent) -> (v:
    DatagramVerdict)
    requires
        old(stats).wf(),
        old(stats).total_received < u64::MAX,
        old(stats).parse_errors < u64::MAX,
    ensures
        final(stats).wf(),
        v == datagram_verdict(*old(stats), track_alias, event),
        *final(stats) == datagram_counted(*old(stats), track_alias, event),
{
    match event {
        DatagramEvent::Unreadable => {
            stats.record_parse_error();
            DatagramVerdict::Unreadable
        },
        DatagramEvent::Object { track_alias: alias, group_id, object_id } => {
            if alias != track_alias {
                return DatagramVerdict::Ignored;
            }
            if group_id >= POSITION_LIMIT || object_id >= POSITION_LIMIT {
                stats.record_parse_error();
                return DatagramVerdict::Invalid;
            }
            let sequence_ok = stats.record_object(group_id, object_id);
            DatagramVerdict::Received { sequence_ok }
        },
    }
}

/// What is read of the bytes of a datagram.
pub open spec fn datagram_event(payload: Seq<u8>) -> DatagramEvent {
    match outside::datagram_fields(payload) {
        Some(f) => DatagramEvent::Object {
            track_alias: f.track_alias,
            group_id: f.group_id,
            object_id: f.object_id,
        },
        None => DatagramEvent::Unreadable,
    }
}

/// Reads the bytes of a datagram and takes it in.
pub fn receive_datagram(stats: &mut ReceptionStats, track_alias: u64, payload: &[u8]) -> (v:
    DatagramVerdict)
    requires
        old(stats).wf(),
        old(stats).total_received < u64::MAX,
        old(stats).parse_errors < u64::MAX,
    ensures
        final(stats).wf(),
        v == datagram_verdict(*old(stats), track_alias, datagram_event(payload@)),
        *final(stats) == datagram_counted(*old(stats), track_alias, datagram_event(payload@)),
{
    let event = match outside::read_datagram(payload) {
        Some(f) => DatagramEvent::Object {
            track_alias: f.track_alias,
            group_id: f.group_id,
            object_id: f.object_id,
        },
        None => DatagramEvent::Unreadable,
    };
    receive_datagrams(stats, track_alias, event)
}

/// How the log names the tracks that are received on streams.
#[derive(Debug)]
pub struct TrackLabels {
    pub primary_alias: u64,
    /// The name and the alias of the second track.
    pub extra: Option<(String, u64)>,
}

impl TrackLabels {
    /// The label of a track. Where both tracks have one alias, it names the second.
    pub open spec fn label_of(&self, alias: u64) -> Seq<char> {
        match self.extra {
            Some((name, a)) if a == alias => "alias="@ + text::dec(alias as nat) + "("@ + name@
                + ")"@,
            _ => if alias == self.primary_alias {
                "alias="@ + text::dec(alias as nat) + "(primary)"@
            } else {
                "unknown"@
            },
        }
    }

    pub fn label(&self, alias: u64) -> (r: String)
        ensures
            r@ == self.label_of(alias),
    {
        match &self.extra {
            Some((name, a)) => {
                if *a == alias {
                    let mut r = "alias=".to_owned();
                    r.append(decimal(alias as u128).as_str());
                    r.append("(");
                    r.append(name.as_str());
                    r.append(")");
                    return r;
                }
            },
            None => {},
        }
        if alias == self.primary_alias {
            let mut r = "alias=".to_owned();
            r.append(decimal(alias as u128).as_str());
            r.append("(primary)");
            return r;
        }
        "unknown".to_owned()
    }

    /// Takes in an object of a stream: it is counted in whatever track it belongs to. Gives the
    /// track's label and whether the object is in sequence.
    pub fn receive_streams(
        &self,
        stats: &mut ReceptionStats,
        track_alias: u64,
        group_id: u64,
        object_id: u64,
    ) -> (r: (String, bool))
        requires
            old(stats).wf(),
            old(stats).total_received < u64::MAX,
        ensures
            final(stats).wf(),
            r.0@ == self.label_of(track_alias),
            r.1 == (old(stats).total_received == 0 || stats::follows(
                group_id,
                object_id,
                old(stats).last_group,
                old(stats).last_object,
            )),
            *final(stats) == (ReceptionStats {
                total_received: (old(stats).total_received + 1) as u64,
                sequence_gaps: if r.1 {
                    old(stats).sequence_gaps
                } else {
                    (old(stats).sequence_gaps + 1) as u64
                },
                last_group: group_id,
                last_object: object_id,
                ..*old(stats)
            }),
    {
        let sequence_ok = stats.record_object(group_id, object_id);
        (self.label(track_alias), sequence_ok)
    }
}

/// A datagram is taken in exactly where it can be read, is of the track and stands at a position
/// that is sent. Of those that are of the track each adds one, to the objects received or to the
/// errors; one of another track adds nothing.
pub proof fn law_datagrams_are_counted_once(
    stats: ReceptionStats,
    track_alias: u64,
    event: DatagramEvent,
)
    requires
        stats.total_received < u64::MAX,
        stats.parse_errors < u64::MAX,
        stats.sequence_gaps < u64::MAX,
    ensures
        ({
            let v = datagram_verdict(stats, track_alias, event);
            let after = datagram_counted(stats, track_alias, event);
            &&& event matches DatagramEvent::Object { track_alias: a, group_id, object_id } ==> {
                &&& v is Ignored <==> a != track_alias
                &&& v is Received <==> a == track_alias && group_id < 10000 && object_id < 10000
                &&& v is Received ==> after.last_group == group_id && after.last_object == object_id
                &&& !(v is Unreadable)
            }
            &&& event is Unreadable ==> v is Unreadable
            &&& v is Ignored ==> after == stats
            &&& !(v is Ignored) ==> after.total_received + after.parse_errors
                == stats.total_received + stats.parse_errors + 1
            &&& v is Received <==> after.total_received == stats.total_received + 1
            &&& v matches DatagramVerdict::Received { sequence_ok } ==> {
                &&& sequence_ok <==> after.sequence_gaps == stats.sequence_gaps
                &&& !sequence_ok ==> after.sequence_gaps == stats.sequence_gaps + 1
                &&& stats.total_received == 0 ==> sequence_ok
            }
            &&& !(v is Received) ==> after.last_group == stats.last_group && after.last_object
                == stats.last_object && after.sequence_gaps == stats.sequence_gaps
            &&& after.start_time == stats.start_time
        }),
{
}

/// A subscription asks for the very track, with its priority and its order of groups, for objects
/// at once and from now on.
pub proof fn law_subscriptions_ask_for_their_track(
    request_id: u64,
    track: TrackName,
    priority: u8,
    order: GroupOrder,
)
    ensures
        subscription_to(request_id, track, priority, order) matches control::ControlView::Subscribe(s)
            && {
            &&& s.request_id == request_id && s.track == track
            &&& s.parameters.contains(MessageParameter::SubscriberPriority { priority })
            &&& s.parameters.contains(MessageParameter::GroupOrder { order })
            &&& s.parameters.contains(MessageParameter::Forward { forward: true })
            &&& s.parameters.last() == control::latest_object()
            &&& s.parameters.len() == 4
        },
{
    let ps = seq![
        MessageParameter::SubscriberPriority { priority },
        MessageParameter::GroupOrder { order },
        MessageParameter::Forward { forward: true },
        control::latest_object(),
    ];
    assert(ps[0] == (MessageParameter::SubscriberPriority { priority }));
    assert(ps[1] == (MessageParameter::GroupOrder { order }));
    assert(ps[2] == (MessageParameter::Forward { forward: true }));
}

/// A track that is received is labelled with its alias: the first as the primary one, the second by
/// its name, and where both have one alias by the name as well. Any other is unknown.
pub proof fn law_labels_name_the_two_tracks(l: TrackLabels, alias: u64)
    ensures
        (l.extra matches Some((_, a)) ==> a != alias) && alias != l.primary_alias ==> l.label_of(
            alias,
        ) == "unknown"@,
        (l.extra matches Some((_, a)) ==> a != alias) && alias == l.primary_alias ==> l.label_of(
            alias,
        ) == "alias="@ + text::dec(alias as nat) + "(primary)"@,
        l.extra matches Some((name, a)) ==> (a == alias ==> l.label_of(alias) == "alias="@
            + text::dec(alias as nat) + "("@ + name@ + ")"@),
{
}

} // verus!
