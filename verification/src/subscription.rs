//! One subscriber's view of one track: what is forwarded, from where, and on which streams.
use crate::control::{ControlMessage, ControlView, Publish, PublishDone, RequestUpdate, Subscribe};
use crate::control;
use crate::location::Location;
use crate::location;
use crate::message::{
    apply_message_parameter_update, find_param, FilterType, GroupOrder, MessageParameter,
    MessageParameterType, PublishDoneStatusCode,
};
use crate::message;
use crate::names::{FullTrackName, TrackName};
use crate::priority::compute_stream_priority;
use crate::priority;
use crate::stream_id::{build_stream_id, HeaderInfo, StreamId, SubgroupHeader};
use crate::stream_id;
use crate::switch_context::{SwitchContext, SwitchStatus};
use crate::switch_context;
use crate::table::{Key, Table};
use crate::table;
use crate::track::{Object, TrackEvent};
use vstd::prelude::*;

verus! {

/// The message that made a subscription.
#[derive(Debug)]
pub enum SubscriptionOrigin {
    Subscribe(Subscribe),
    Publish(Publish),
}

impl SubscriptionOrigin {
    pub open spec fn id(&self) -> u64 {
        match self {
            SubscriptionOrigin::Subscribe(s) => s.request_id,
            SubscriptionOrigin::Publish(p) => p.request_id,
        }
    }

    pub open spec fn parameters(&self) -> Vec<MessageParameter> {
        match self {
            SubscriptionOrigin::Subscribe(s) => s.subscribe_parameters,
            SubscriptionOrigin::Publish(p) => p.parameters,
        }
    }

    pub fn request_id(&self) -> (id: u64)
        ensures
            id == self.id(),
    {
        match self {
            SubscriptionOrigin::Subscribe(s) => s.request_id,
            SubscriptionOrigin::Publish(p) => p.request_id,
        }
    }
}

impl From<Subscribe> for SubscriptionOrigin {
    fn from(msg: Subscribe) -> (r: Self) {
        SubscriptionOrigin::Subscribe(msg)
    }
}

impl vstd::std_specs::convert::FromSpecImpl<Subscribe> for SubscriptionOrigin {
    open spec fn obeys_from_spec() -> bool {
        true
    }

    open spec fn from_spec(msg: Subscribe) -> Self {
        SubscriptionOrigin::Subscribe(msg)
    }
}

impl From<Publish> for SubscriptionOrigin {
    fn from(msg: Publish) -> (r: Self) {
        SubscriptionOrigin::Publish(msg)
    }
}

impl vstd::std_specs::convert::FromSpecImpl<Publish> for SubscriptionOrigin {
    open spec fn obeys_from_spec() -> bool {
        true
    }

    open spec fn from_spec(msg: Publish) -> Self {
        SubscriptionOrigin::Publish(msg)
    }
}

pub struct SubscriptionState {
    pub subscriber_priority: u8,
    pub group_order: GroupOrder,
    pub forward: bool,
    pub filter_type: FilterType,
    pub start_location: Option<Location>,
    /// The last group to forward; 0 for no limit.
    pub end_group: u64,
    pub subscribe_parameters: Vec<MessageParameter>,
    pub last_sent_max_location: Option<Location>,
    pub last_received_object_location: Option<Location>,
    pub is_joining: bool,
}

/// The subscriber priority that a parameter list asks for.
pub open spec fn priority_in(ps: Seq<MessageParameter>) -> u8 {
    match message::first_of(ps, MessageParameterType::SubscriberPriority) {
        Some(MessageParameter::SubscriberPriority { priority }) => priority,
        _ => 128,
    }
}

/// The group order that a parameter list asks for.
pub open spec fn group_order_in(ps: Seq<MessageParameter>) -> GroupOrder {
    match message::first_of(ps, MessageParameterType::GroupOrder) {
        Some(MessageParameter::GroupOrder { order }) => order,
        _ => GroupOrder::Ascending,
    }
}

/// Whether a parameter list asks for objects to be forwarded.
pub open spec fn forward_in(ps: Seq<MessageParameter>) -> bool {
    match message::first_of(ps, MessageParameterType::Forward) {
        Some(MessageParameter::Forward { forward }) => forward,
        _ => true,
    }
}

/// The filter that a parameter list asks for: type, start and last group.
pub open spec fn filter_in(ps: Seq<MessageParameter>) -> (FilterType, Option<Location>, u64) {
    match message::first_of(ps, MessageParameterType::SubscriptionFilter) {
        Some(MessageParameter::SubscriptionFilter { filter_type, start_location, end_group }) => (
            filter_type,
            start_location,
            match end_group {
                Some(g) => g,
                None => 0,
            },
        ),
        _ => (FilterType::LatestObject, None, 0),
    }
}

/// The state in which a subscription with these parameters begins.
pub open spec fn initial_state(parameters: Vec<MessageParameter>) -> SubscriptionState {
    SubscriptionState {
        subscriber_priority: priority_in(parameters@),
        group_order: group_order_in(parameters@),
        forward: forward_in(parameters@),
        filter_type: filter_in(parameters@).0,
        start_location: filter_in(parameters@).1,
        end_group: filter_in(parameters@).2,
        subscribe_parameters: parameters,
        last_sent_max_location: None,
        last_received_object_location: None,
        is_joining: false,
    }
}

fn state_from_parameters(parameters: Vec<MessageParameter>) -> (s: SubscriptionState)
    ensures
        s == initial_state(parameters),
{
    let subscriber_priority: u8 = match find_param(
        &parameters,
        MessageParameterType::SubscriberPriority,
    ) {
        Some(MessageParameter::SubscriberPriority { priority }) => priority,
        _ => 128,
    };
    let group_order = match find_param(&parameters, MessageParameterType::GroupOrder) {
        Some(MessageParameter::GroupOrder { order }) => order,
        _ => GroupOrder::Ascending,
    };
    let forward = match find_param(&parameters, MessageParameterType::Forward) {
        Some(MessageParameter::Forward { forward }) => forward,
        _ => true,
    };
    let (filter_type, start_location, end_group): (FilterType, Option<Location>, u64) =
        match find_param(&parameters, MessageParameterType::SubscriptionFilter) {
        Some(
            MessageParameter::SubscriptionFilter { filter_type, start_location, end_group },
        ) => (
            filter_type,
            start_location,
            match end_group {
                Some(g) => g,
                None => 0,
            },
        ),
        _ => (FilterType::LatestObject, None, 0),
    };
    SubscriptionState {
        subscriber_priority,
        group_order,
        forward,
        filter_type,
        start_location,
        end_group,
        subscribe_parameters: parameters,
        last_sent_max_location: None,
        last_received_object_location: None,
        is_joining: false,
    }
}

impl From<SubscriptionOrigin> for SubscriptionState {
    fn from(origin: SubscriptionOrigin) -> (r: Self) {
        match origin {
            SubscriptionOrigin::Subscribe(subscribe) => state_from_parameters(
                subscribe.subscribe_parameters,
            ),
            SubscriptionOrigin::Publish(publish) => state_from_parameters(publish.parameters),
        }
    }
}

impl vstd::std_specs::convert::FromSpecImpl<SubscriptionOrigin> for SubscriptionState {
    open spec fn obeys_from_spec() -> bool {
        true
    }

    open spec fn from_spec(origin: SubscriptionOrigin) -> Self {
        initial_state(origin.parameters())
    }
}

impl SubscriptionState {
    pub fn update_last_sent_max_location(&mut self, location: Location)
        ensures
            *final(self) == (SubscriptionState {
                last_sent_max_location: location::raise(
                    old(self).last_sent_max_location,
                    location,
                ),
                ..*old(self)
            }),
    {
        match self.last_sent_max_location {
            Some(current_max) => {
                if current_max.is_before(&location) {
                    self.last_sent_max_location = Some(location);
                }
            },
            None => {
                self.last_sent_max_location = Some(location);
            },
        }
    }

    pub fn update_last_received_object_location(&mut self, location: Location)
        ensures
            *final(self) == (SubscriptionState {
                last_received_object_location: location::raise(
                    old(self).last_received_object_location,
                    location,
                ),
                ..*old(self)
            }),
    {
        match self.last_received_object_location {
            Some(current_max) => {
                if current_max.is_before(&location) {
                    self.last_received_object_location = Some(location);
                }
            },
            None => {
                self.last_received_object_location = Some(location);
            },
        }
    }

    /// Whether a position lies inside the range that was asked for.
    pub open spec fn admits(self, l: Location) -> bool {
        &&& self.start_location matches Some(start) ==> !l.before(start)
        &&& self.end_group > 0 ==> l.group <= self.end_group
    }
}

/// The track that plays for a client, as far as a track that waits to take over needs to know.
#[derive(Debug, Clone, Copy, PartialEq, Eq, Structural)]
pub enum CurrentTrack {
    /// No track plays.
    Nothing,
    /// A track plays, but its subscription is gone.
    Gone,
    /// A track plays; the furthest position sent of it.
    Live { last_sent_max_location: Option<Location> },
}

/// What the switch context says of an object.
pub enum SwitchVerdict {
    /// The object goes on as far as the subscription itself lets it.
    Forward,
    /// The track waits for its turn.
    Wait,
    /// The track takes over, from `start` on.
    TakeOver { start: Location },
    /// The track was switched away from.
    WindDown,
}

/// The first object of the group after `group`.
pub open spec fn next_group(group: u64) -> Location {
    Location { group: (group + 1) as u64, object: 0 }
}

/// A track that waits takes over once it has reached the group last sent of the track that
/// plays, and then starts at the group after that one.
pub open spec fn switch_verdict(
    status: Option<SwitchStatus>,
    current: CurrentTrack,
    l: Location,
) -> SwitchVerdict {
    match status {
        None => SwitchVerdict::Forward,
        Some(SwitchStatus::Current) => SwitchVerdict::Forward,
        Some(SwitchStatus::Inactive) => SwitchVerdict::WindDown,
        Some(SwitchStatus::Next) => match current {
            CurrentTrack::Nothing => SwitchVerdict::TakeOver { start: next_group(l.group) },
            CurrentTrack::Gone => SwitchVerdict::Wait,
            CurrentTrack::Live { last_sent_max_location: None } => SwitchVerdict::TakeOver {
                start: next_group(l.group),
            },
            CurrentTrack::Live { last_sent_max_location: Some(m) } => if l.group >= m.group {
                SwitchVerdict::TakeOver { start: next_group(m.group) }
            } else {
                SwitchVerdict::Wait
            },
        },
    }
}

/// What a verdict makes of the state.
pub open spec fn after_verdict(
    s: SubscriptionState,
    v: SwitchVerdict,
    l: Location,
) -> SubscriptionState {
    match v {
        SwitchVerdict::Forward => s,
        SwitchVerdict::Wait => SubscriptionState { forward: false, ..s },
        SwitchVerdict::TakeOver { start } => SubscriptionState {
            forward: true,
            is_joining: true,
            start_location: Some(start),
            end_group: 0,
            ..s
        },
        SwitchVerdict::WindDown => if s.forward {
            SubscriptionState { forward: false, end_group: l.group, ..s }
        } else {
            s
        },
    }
}

/// The status that a switch context gives a track.
pub open spec fn status_in(ctx: Map<TrackName, SwitchStatus>, name: TrackName) -> Option<
    SwitchStatus,
> {
    if ctx.contains_key(name) {
        Some(ctx[name])
    } else {
        None
    }
}

/// What is to be done with an object.
#[derive(Debug, Clone, Copy, PartialEq, Eq, Structural)]
pub enum ObjectAction {
    /// Nothing is sent.
    Withheld,
    /// A stream is opened with this header and priority, and the object sent on it. `first`
    /// where the header came with the object.
    Open { stream_id: StreamId, header: HeaderInfo, priority: i32, first: bool },
    /// The object is sent on the stream that is open.
    Send,
    /// There is no stream for the object and no header to open one with.
    Lost,
}

/// What is to be done about an event.
#[derive(Debug)]
pub enum TrackAction {
    Object(ObjectAction),
    /// The datagram is sent on under this alias.
    Datagram { track_alias: u64 },
    CloseStream { stream_id: StreamId },
    /// The subscription is over: the message goes to the subscriber, where the reason can be
    /// sent, and the streams are closed.
    Done { message: Option<ControlMessage>, streams: Vec<StreamId> },
}

/// What the subscription's task does next.
#[derive(Debug, Clone, Copy, PartialEq, Eq, Structural)]
pub enum SubscriptionStep {
    Stop,
    /// Replay the cached objects between two positions, then end joining.
    Replay { from: Location, to: Location },
    EndJoining,
    /// Wait for the next event.
    Wait,
}

/// What is done with what the event channel gave.
#[derive(Debug, Clone, Copy, PartialEq, Eq, Structural)]
pub enum ReceiveStep {
    Handle,
    DropReceiver,
    FinishAndDropReceiver,
}

/// A reason phrase longer than a message can carry.
#[derive(Debug, Clone, Copy, PartialEq, Eq, Structural)]
pub struct ReasonTooLong;

/// The longest reason phrase, in bytes.
pub const MAX_REASON_PHRASE_LEN: usize = 1024;

pub struct Subscription {
    pub request_id: u64,
    pub relay_track_id: u64,
    pub full_track_name: FullTrackName,
    pub subscription_state: SubscriptionState,
    pub client_connection_id: usize,
    /// The streams opened for this subscription, each with the object last sent on it.
    pub send_stream_last_object_ids: Table<StreamId, Option<u64>>,
    pub finished: bool,
    pub check_switch_context_on_next_object: bool,
    /// The subgroup header that came while nothing was forwarded.
    pub pending_header: Option<(StreamId, HeaderInfo)>,
}

/// The priority of the stream that a header opens.
pub open spec fn header_priority(s: SubscriptionState, header: HeaderInfo) -> int {
    match header {
        HeaderInfo::Subgroup { header } => priority::stream_priority(
            s.subscriber_priority,
            match header.publisher_priority {
                Some(p) => p,
                None => 128,
            },
            s.group_order,
            header.group_id,
        ),
        HeaderInfo::Fetch { .. } => priority::stream_priority(
            s.subscriber_priority,
            128,
            s.group_order,
            0,
        ),
    }
}

/// A subscription that has noted the arrival of an object.
pub open spec fn received(s: Subscription, l: Location) -> Subscription {
    Subscription {
        subscription_state: SubscriptionState {
            last_received_object_location: location::raise(
                s.subscription_state.last_received_object_location,
                l,
            ),
            ..s.subscription_state
        },
        ..s
    }
}

/// An object makes the switch context be asked when it opens a stream, or after a switch was
/// announced.
pub open spec fn asks_switch_context(s: Subscription, header_info: Option<HeaderInfo>) -> bool {
    header_info is Some || s.check_switch_context_on_next_object
}

/// What an object makes of a subscription.
pub open spec fn after_object(
    s: Subscription,
    status: Option<SwitchStatus>,
    current: CurrentTrack,
    stream_id: StreamId,
    l: Location,
    header_info: Option<HeaderInfo>,
) -> Subscription {
    let v = switch_verdict(status, current, l);
    let r = Subscription { check_switch_context_on_next_object: false, ..received(s, l) };
    if asks_switch_context(s, header_info) && !(v is Forward) {
        Subscription { subscription_state: after_verdict(r.subscription_state, v, l), ..r }
    } else if !r.subscription_state.admits(l) {
        r
    } else if r.subscription_state.forward {
        Subscription { pending_header: None, ..r }
    } else {
        match header_info {
            Some(h) => Subscription { pending_header: Some((stream_id, h)), ..r },
            None => r,
        }
    }
}

/// Whether an object is forwarded: the switch context has nothing against it, it lies in the
/// range asked for, and forwarding is on.
pub open spec fn forwards_object(
    s: Subscription,
    status: Option<SwitchStatus>,
    current: CurrentTrack,
    l: Location,
    header_info: Option<HeaderInfo>,
) -> bool {
    &&& asks_switch_context(s, header_info) ==> switch_verdict(status, current, l) is Forward
    &&& s.subscription_state.admits(l)
    &&& s.subscription_state.forward
}

/// How a forwarded object reaches its stream.
pub open spec fn sending(
    s: Subscription,
    header_info: Option<HeaderInfo>,
    has_stream: bool,
    cached_header: Option<HeaderInfo>,
) -> ObjectAction {
    match header_info {
        Some(h) => if h is Subgroup {
            ObjectAction::Open {
                stream_id: stream_id::stream_id_of(s.relay_track_id, h),
                header: h,
                priority: header_priority(s.subscription_state, h) as i32,
                first: true,
            }
        } else {
            ObjectAction::Lost
        },
        None => if has_stream {
            ObjectAction::Send
        } else {
            match cached_header {
                Some(h) => ObjectAction::Open {
                    stream_id: stream_id::stream_id_of(s.relay_track_id, h),
                    header: h,
                    priority: header_priority(s.subscription_state, h) as i32,
                    first: false,
                },
                None => ObjectAction::Lost,
            }
        },
    }
}

/// Whether objects are forwarded after a series of parameters, each taken in turn.
pub open spec fn forward_after(us: Seq<MessageParameter>, forward: bool) -> bool
    decreases us.len(),
{
    if us.len() == 0 {
        forward
    } else {
        match us.last() {
            MessageParameter::Forward { forward: f } => f,
            _ => forward_after(us.drop_last(), forward),
        }
    }
}

/// Whether forwarding is switched on anywhere in a series of parameters.
pub open spec fn forward_rises(us: Seq<MessageParameter>, forward: bool) -> bool
    decreases us.len(),
{
    us.len() > 0 && (forward_rises(us.drop_last(), forward) || (us.last()
        == MessageParameter::Forward { forward: true } && !forward_after(us.drop_last(), forward)))
}

/// The subscriber priority after a series of parameters, each taken in turn.
pub open spec fn priority_after(us: Seq<MessageParameter>, priority: u8) -> u8
    decreases us.len(),
{
    if us.len() == 0 {
        priority
    } else {
        match us.last() {
            MessageParameter::SubscriberPriority { priority: p } => p,
            _ => priority_after(us.drop_last(), priority),
        }
    }
}

/// What an update of parameters makes of the state, apart from the parameter list itself. A part
/// that no parameter names stays as it is.
pub open spec fn updated_state(
    s: SubscriptionState,
    us: Seq<MessageParameter>,
    parameters: Vec<MessageParameter>,
) -> SubscriptionState {
    let filter = match message::first_of(us, MessageParameterType::SubscriptionFilter) {
        Some(MessageParameter::SubscriptionFilter { filter_type, start_location, end_group }) => (
            filter_type,
            if start_location is Some {
                start_location
            } else {
                s.start_location
            },
            match end_group {
                Some(g) => g,
                None => s.end_group,
            },
        ),
        _ => (s.filter_type, s.start_location, s.end_group),
    };
    SubscriptionState {
        subscriber_priority: priority_after(us, s.subscriber_priority),
        forward: forward_after(us, s.forward),
        filter_type: filter.0,
        start_location: filter.1,
        end_group: filter.2,
        subscribe_parameters: parameters,
        ..s
    }
}

impl Subscription {
    pub open spec fn wf(&self) -> bool {
        &&& self.send_stream_last_object_ids.wf()
        &&& self.subscription_state.last_sent_max_location matches Some(l) ==> l.group < u64::MAX
    }

    pub fn new(
        relay_track_id: u64,
        full_track_name: FullTrackName,
        origin_message: SubscriptionOrigin,
        client_connection_id: usize,
    ) -> (s: Self)
        ensures
            s.wf(),
            s.request_id == origin_message.id(),
            s.relay_track_id == relay_track_id,
            s.full_track_name == full_track_name,
            s.subscription_state == initial_state(origin_message.parameters()),
            s.client_connection_id == client_connection_id,
            s.send_stream_last_object_ids@ == Map::<StreamId, Option<u64>>::empty(),
            !s.finished,
            !s.check_switch_context_on_next_object,
            s.pending_header is None,
    {
        let request_id: u64 = origin_message.request_id();
        Subscription {
            request_id,
            relay_track_id,
            full_track_name,
            subscription_state: SubscriptionState::from(origin_message),
            client_connection_id,
            send_stream_last_object_ids: Table::new(),
            finished: false,
            check_switch_context_on_next_object: false,
            pending_header: None,
        }
    }

    pub fn is_finished(&self) -> (b: bool)
        ensures
            b == self.finished,
    {
        self.finished
    }

    pub fn is_forwarding(&self) -> (b: bool)
        ensures
            b == self.subscription_state.forward,
    {
        self.subscription_state.forward
    }

    /// Returns true if the subscription is active (not finished and forwarding objects).
    pub fn is_active(&self) -> (b: bool)
        ensures
            b == (!self.finished && self.subscription_state.forward),
    {
        !self.is_finished() && self.is_forwarding()
    }

    /// The connection of the client that subscribed.
    pub fn subscriber(&self) -> (id: usize)
        ensures
            id == self.client_connection_id,
    {
        self.client_connection_id
    }

    /// The identity and priority of the stream that a header opens.
    pub fn handle_header(&self, header: &HeaderInfo) -> (r: (StreamId, i32))
        ensures
            r.0 == stream_id::stream_id_of(self.relay_track_id, *header),
            r.1 == header_priority(self.subscription_state, *header),
    {
        let (pub_prio, group_id): (u8, u64) = match *header {
            HeaderInfo::Subgroup { header: h } => (
                match h.publisher_priority {
                    Some(p) => p,
                    None => 128,
                },
                h.group_id,
            ),
            HeaderInfo::Fetch { .. } => (128, 0),
        };
        let priority: i32 = compute_stream_priority(
            self.subscription_state.subscriber_priority,
            pub_prio,
            self.subscription_state.group_order,
            group_id,
        );
        (build_stream_id(self.relay_track_id, header), priority)
    }

    /// Takes in an update of the request's parameters. Where it switches forwarding on, the
    /// stream of the header that was held back, with that header, is handed back to be opened.
    pub fn update_subscription(&mut self, request_update: &RequestUpdate) -> (r: Option<
        (StreamId, HeaderInfo),
    >)
        requires
            old(self).wf(),
        ensures
            final(self).wf(),
            final(self).subscription_state == updated_state(
                old(self).subscription_state,
                request_update.parameters@,
                final(self).subscription_state.subscribe_parameters,
            ),
            final(self).subscription_state.subscribe_parameters@ == message::with_updates(
                old(self).subscription_state.subscribe_parameters@,
                request_update.parameters@,
            ),
            *final(self) == (Subscription {
                subscription_state: final(self).subscription_state,
                pending_header: final(self).pending_header,
                ..*old(self)
            }),
            forward_rises(request_update.parameters@, old(self).subscription_state.forward) ==> r
                == old(self).pending_header && final(self).pending_header is None,
            !forward_rises(request_update.parameters@, old(self).subscription_state.forward) ==> r
                is None && final(self).pending_header == old(self).pending_header,
    {
        let ps = &request_update.parameters;
        let ghost s0 = self.subscription_state;
        let filter = find_param(ps, MessageParameterType::SubscriptionFilter);
        let mut transition = false;
        let mut forward = self.subscription_state.forward;
        let mut priority: u8 = self.subscription_state.subscriber_priority;
        let mut i: usize = 0;
        assert(ps@.take(0).len() == 0);
        while i < ps.len()
            invariant
                i <= ps@.len(),
                forward == forward_after(ps@.take(i as int), s0.forward),
                priority == priority_after(ps@.take(i as int), s0.subscriber_priority),
                transition == forward_rises(ps@.take(i as int), s0.forward),
            decreases ps@.len() - i,
        {
            proof {
                assert(ps@.take(i + 1).drop_last() =~= ps@.take(i as int));
                assert(ps@.take(i + 1).last() == ps@[i as int]);
            }
            match ps[i] {
                MessageParameter::SubscriberPriority { priority: p } => {
                    priority = p;
                },
                MessageParameter::Forward { forward: f } => {
                    if f && !forward {
                        transition = true;
                    }
                    forward = f;
                },
                _ => {},
            }
            i = i + 1;
        }
        assert(ps@.take(i as int) =~= ps@);
        self.subscription_state.subscriber_priority = priority;
        self.subscription_state.forward = forward;
        if let Some(
            MessageParameter::SubscriptionFilter { filter_type, start_location, end_group },
        ) = filter {
            if start_location.is_some() {
                self.subscription_state.start_location = start_location;
            }
            self.subscription_state.filter_type = filter_type;
            if let Some(g) = end_group {
                self.subscription_state.end_group = g;
            }
        }
        apply_message_parameter_update(&mut self.subscription_state.subscribe_parameters, ps);
        if transition {
            self.pending_header.take()
        } else {
            None
        }
    }

    /// Ends the subscription and hands back the streams to close. Ending it again does nothing.
    pub fn finish(&mut self) -> (streams: Vec<StreamId>)
        requires
            old(self).wf(),
        ensures
            final(self).wf(),
            final(self).finished,
            old(self).finished ==> *final(self) == *old(self) && streams@.len() == 0,
            !old(self).finished ==> {
                &&& final(self).send_stream_last_object_ids@ == Map::<
                    StreamId,
                    Option<u64>,
                >::empty()
                &&& streams@.no_duplicates()
                &&& forall|id: StreamId| #[trigger]
                    streams@.contains(id) <==> old(self).send_stream_last_object_ids@.contains_key(id)
                &&& *final(self) == (Subscription {
                    finished: true,
                    send_stream_last_object_ids: final(self).send_stream_last_object_ids,
                    ..*old(self)
                })
            },
    {
        let mut streams: Vec<StreamId> = Vec::new();
        if self.finished {
            return streams;
        }
        self.finished = true;
        let ghost ids = self.send_stream_last_object_ids;
        let mut i: usize = 0;
        while i < self.send_stream_last_object_ids.entries.len()
            invariant
                ids == self.send_stream_last_object_ids,
                ids.wf(),
                i <= ids.entries@.len(),
                streams@.len() == i,
                forall|j: int| 0 <= j < i ==> #[trigger] streams@[j] == ids.entries@[j].0,
            decreases ids.entries@.len() - i,
        {
            streams.push(self.send_stream_last_object_ids.entries[i].0);
            i = i + 1;
        }
        proof {
            assert forall|a: int, b: int|
                0 <= a < b < streams@.len() implies streams@[a] != streams@[b] by {
                assert(ids.entries@[a].0.id() != ids.entries@[b].0.id());
            }
            assert forall|id: StreamId| #[trigger] streams@.contains(id) <==> ids@.contains_key(
                id,
            ) by {
                if streams@.contains(id) {
                    let j = choose|j: int| 0 <= j < streams@.len() && streams@[j] == id;
                    table::lemma_entry(ids, j);
                }
                if ids@.contains_key(id) {
                    let j = choose|j: int| table::key_at(ids.entries@, j, id);
                    assert(table::key_at(ids.entries@, j, id));
                    assert(streams@[j] == id);
                }
            }
        }
        self.send_stream_last_object_ids.clear();
        streams
    }

    /// Makes the switch context be asked at the next object.
    pub fn notify_switch(&mut self)
        ensures
            *final(self) == (Subscription { check_switch_context_on_next_object: true, ..*old(self) }),
    {
        self.check_switch_context_on_next_object = true;
    }

    /// Asks the switch context about an object at `object_location`: whether the object goes on,
    /// and whether this track takes over or winds down.
    pub fn check_switch_context(
        &mut self,
        switch_context: &mut SwitchContext,
        current: CurrentTrack,
        object_location: &Location,
    ) -> (go_on: bool)
        requires
            old(switch_context).wf(),
            object_location.group < u64::MAX,
            current matches CurrentTrack::Live { last_sent_max_location: Some(m) } ==> m.group
                < u64::MAX,
        ensures
            final(switch_context).wf(),
            ({
                let v = switch_verdict(
                    status_in(old(switch_context)@, old(self).full_track_name@),
                    current,
                    *object_location,
                );
                &&& go_on == (v is Forward)
                &&& *final(self) == (Subscription {
                    subscription_state: after_verdict(
                        old(self).subscription_state,
                        v,
                        *object_location,
                    ),
                    ..*old(self)
                })
                &&& final(switch_context)@ == if v is TakeOver {
                    switch_context::with_status(
                        old(switch_context)@,
                        old(self).full_track_name@,
                        SwitchStatus::Current,
                    )
                } else {
                    old(switch_context)@
                }
            }),
    {
        let status = match switch_context.get_switch_status(&self.full_track_name) {
            Some(s) => s,
            None => {
                return true;
            },
        };
        match status {
            SwitchStatus::Next => {
                let mut new_start: Option<Location> = None;
                let take_over = match current {
                    CurrentTrack::Nothing => true,
                    CurrentTrack::Gone => false,
                    CurrentTrack::Live { last_sent_max_location: None } => true,
                    CurrentTrack::Live { last_sent_max_location: Some(m) } => {
                        new_start = Some(Location { group: m.group + 1, object: 0 });
                        object_location.group >= m.group
                    },
                };
                if take_over {
                    switch_context.add_or_update_switch_item(
                        self.full_track_name.copy(),
                        SwitchStatus::Current,
                    );
                    self.subscription_state.forward = true;
                    self.subscription_state.is_joining = true;
                    self.subscription_state.start_location = match new_start {
                        Some(l) => Some(l),
                        None => Some(Location { group: object_location.group + 1, object: 0 }),
                    };
                    self.subscription_state.end_group = 0;
                } else {
                    self.subscription_state.forward = false;
                }
                false
            },
            SwitchStatus::Current => true,
            SwitchStatus::Inactive => {
                if self.subscription_state.forward {
                    self.subscription_state.forward = false;
                    self.subscription_state.end_group = object_location.group;
                }
                false
            },
        }
    }

    /// Takes in an object of the track. `has_stream` says whether the subscriber has the stream
    /// `stream_id` open, `cached_header` is the header with which the publisher opened it.
    pub fn handle_object(
        &mut self,
        switch_context: &mut SwitchContext,
        current: CurrentTrack,
        stream_id: StreamId,
        object: &Object,
        header_info: Option<HeaderInfo>,
        has_stream: bool,
        cached_header: Option<HeaderInfo>,
    ) -> (action: ObjectAction)
        requires
            old(self).wf(),
            old(switch_context).wf(),
            object.location.group < u64::MAX,
            current matches CurrentTrack::Live { last_sent_max_location: Some(m) } ==> m.group
                < u64::MAX,
        ensures
            final(self).wf(),
            final(switch_context).wf(),
            ({
                let l = object.location;
                let status = status_in(old(switch_context)@, old(self).full_track_name@);
                &&& *final(self) == after_object(
                    *old(self),
                    status,
                    current,
                    stream_id,
                    l,
                    header_info,
                )
                &&& action == if forwards_object(*old(self), status, current, l, header_info) {
                    sending(*old(self), header_info, has_stream, cached_header)
                } else {
                    ObjectAction::Withheld
                }
                &&& final(switch_context)@ == if asks_switch_context(*old(self), header_info)
                    && switch_verdict(status, current, l) is TakeOver {
                    switch_context::with_status(
                        old(switch_context)@,
                        old(self).full_track_name@,
                        SwitchStatus::Current,
                    )
                } else {
                    old(switch_context)@
                }
            }),
    {
        let location = object.location;
        self.subscription_state.update_last_received_object_location(location);
        let check_switch = self.check_switch_context_on_next_object;
        if header_info.is_some() || check_switch {
            self.check_switch_context_on_next_object = false;
            if !self.check_switch_context(switch_context, current, &location) {
                return ObjectAction::Withheld;
            }
        }
        if let Some(start) = self.subscription_state.start_location {
            if location.is_before(&start) {
                return ObjectAction::Withheld;
            }
        }
        if self.subscription_state.end_group > 0 && location.group
            > self.subscription_state.end_group {
            return ObjectAction::Withheld;
        }
        if !self.subscription_state.forward {
            if let Some(header) = header_info {
                self.pending_header = Some((stream_id, header));
            }
            return ObjectAction::Withheld;
        }
        self.pending_header = None;
        match header_info {
            Some(header) => match header {
                HeaderInfo::Subgroup { .. } => {
                    let (id, priority) = self.handle_header(&header);
                    ObjectAction::Open { stream_id: id, header, priority, first: true }
                },
                HeaderInfo::Fetch { .. } => ObjectAction::Lost,
            },
            None => {
                if has_stream {
                    ObjectAction::Send
                } else {
                    match cached_header {
                        Some(header) => {
                            let (id, priority) = self.handle_header(&header);
                            ObjectAction::Open { stream_id: id, header, priority, first: false }
                        },
                        None => ObjectAction::Lost,
                    }
                }
            },
        }
    }

    /// Notes that a stream was opened with the header that came with an object, or with the one
    /// that was held back.
    pub fn stream_opened(&mut self, stream_id: StreamId)
        requires
            old(self).wf(),
        ensures
            final(self).wf(),
            final(self).send_stream_last_object_ids@ == old(self).send_stream_last_object_ids@.insert(stream_id, None),
            *final(self) == (Subscription {
                send_stream_last_object_ids: final(self).send_stream_last_object_ids,
                ..*old(self)
            }),
    {
        self.send_stream_last_object_ids.insert(stream_id, None);
    }

    /// The object last sent on a stream.
    pub fn previous_object_id(&self, stream_id: &StreamId) -> (r: Option<u64>)
        requires
            self.wf(),
        ensures
            r == (if self.send_stream_last_object_ids@.contains_key(*stream_id) {
                self.send_stream_last_object_ids@[*stream_id]
            } else {
                None
            }),
    {
        match self.send_stream_last_object_ids.get(stream_id) {
            Some(id) => *id,
            None => None,
        }
    }

    /// Notes that an object was sent on a stream.
    pub fn object_sent(&mut self, stream_id: StreamId, location: Location)
        requires
            old(self).wf(),
            location.group < u64::MAX,
        ensures
            final(self).wf(),
            location::at_most(
                Some(location),
                final(self).subscription_state.last_sent_max_location,
            ),
            location::at_most(
                old(self).subscription_state.last_sent_max_location,
                final(self).subscription_state.last_sent_max_location,
            ),
            final(self).send_stream_last_object_ids@ == old(self).send_stream_last_object_ids@.insert(stream_id, Some(location.object)),
            *final(self) == (Subscription {
                send_stream_last_object_ids: final(self).send_stream_last_object_ids,
                subscription_state: SubscriptionState {
                    last_sent_max_location: location::raise(
                        old(self).subscription_state.last_sent_max_location,
                        location,
                    ),
                    ..old(self).subscription_state
                },
                ..*old(self)
            }),
    {
        self.send_stream_last_object_ids.insert(stream_id, Some(location.object));
        self.subscription_state.update_last_sent_max_location(location);
    }

    fn handle_stream_closed(&mut self, stream_id: &StreamId)
        requires
            old(self).wf(),
        ensures
            final(self).wf(),
            final(self).send_stream_last_object_ids@ == old(self).send_stream_last_object_ids@.remove(*stream_id),
            *final(self) == (Subscription {
                send_stream_last_object_ids: final(self).send_stream_last_object_ids,
                ..*old(self)
            }),
    {
        self.send_stream_last_object_ids.remove(stream_id);
    }

    /// The message that tells the subscriber that no more is coming; refused where the reason is
    /// longer than a message can carry.
    pub fn send_publish_done(&self, status_code: PublishDoneStatusCode, reason: &String) -> (r:
        Result<ControlMessage, ReasonTooLong>)
        ensures
            r is Err <==> vstd::utf8::encode_utf8(reason@).len() > MAX_REASON_PHRASE_LEN,
            r matches Ok(m) ==> m@ == (ControlView::PublishDone {
                request_id: self.request_id,
                status_code,
                stream_count: 0,
                reason: reason@,
            }),
    {
        if reason.as_str().as_bytes().len() > MAX_REASON_PHRASE_LEN {
            return Err(ReasonTooLong);
        }
        Ok(
            ControlMessage::PublishDone(
                PublishDone {
                    request_id: self.request_id,
                    status_code,
                    stream_count: 0,
                    reason_phrase: reason.clone(),
                },
            ),
        )
    }

    /// Takes in an event of the track and says what is to be done about it.
    pub fn handle_track_event(
        &mut self,
        switch_context: &mut SwitchContext,
        current: CurrentTrack,
        has_stream: bool,
        cached_header: Option<HeaderInfo>,
        event: &TrackEvent,
    ) -> (action: TrackAction)
        requires
            old(self).wf(),
            old(switch_context).wf(),
            event matches TrackEvent::SubgroupObject { object, .. } ==> object.location.group
                < u64::MAX,
            current matches CurrentTrack::Live { last_sent_max_location: Some(m) } ==> m.group
                < u64::MAX,
        ensures
            final(self).wf(),
            final(switch_context).wf(),
            match *event {
                TrackEvent::SubgroupObject { stream_id, object, header_info } => {
                    let l = object.location;
                    let status = status_in(old(switch_context)@, old(self).full_track_name@);
                    &&& *final(self) == after_object(
                        *old(self),
                        status,
                        current,
                        stream_id,
                        l,
                        header_info,
                    )
                    &&& action == TrackAction::Object(
                        if forwards_object(*old(self), status, current, l, header_info) {
                            sending(*old(self), header_info, has_stream, cached_header)
                        } else {
                            ObjectAction::Withheld
                        },
                    )
                    &&& final(switch_context)@ == if asks_switch_context(*old(self), header_info)
                        && switch_verdict(status, current, l) is TakeOver {
                        switch_context::with_status(
                            old(switch_context)@,
                            old(self).full_track_name@,
                            SwitchStatus::Current,
                        )
                    } else {
                        old(switch_context)@
                    }
                },
                TrackEvent::Datagram { object } => {
                    &&& action == (TrackAction::Datagram { track_alias: old(self).relay_track_id })
                    &&& *final(self) == *old(self)
                    &&& final(switch_context)@ == old(switch_context)@
                },
                TrackEvent::StreamClosed { stream_id } => {
                    &&& action == (TrackAction::CloseStream { stream_id })
                    &&& final(self).send_stream_last_object_ids@ == old(self).send_stream_last_object_ids@.remove(stream_id)
                    &&& *final(self) == (Subscription {
                        send_stream_last_object_ids: final(self).send_stream_last_object_ids,
                        ..*old(self)
                    })
                    &&& final(switch_context)@ == old(switch_context)@
                },
                TrackEvent::PublisherDisconnected { reason } => {
                    &&& final(self).finished
                    &&& action matches TrackAction::Done { message, streams } && {
                        &&& message is None <==> vstd::utf8::encode_utf8(reason@).len()
                            > MAX_REASON_PHRASE_LEN
                        &&& message matches Some(m) ==> m@ == (ControlView::PublishDone {
                            request_id: old(self).request_id,
                            status_code: PublishDoneStatusCode::TrackEnded,
                            stream_count: 0,
                            reason: reason@,
                        })
                        &&& old(self).finished ==> *final(self) == *old(self) && streams@.len() == 0
                        &&& !old(self).finished ==> {
                            &&& final(self).send_stream_last_object_ids@ == Map::<
                                StreamId,
                                Option<u64>,
                            >::empty()
                            &&& streams@.no_duplicates()
                            &&& forall|id: StreamId| #[trigger]
                                streams@.contains(id) <==> old(self).send_stream_last_object_ids@.contains_key(id)
                            &&& *final(self) == (Subscription {
                                finished: true,
                                send_stream_last_object_ids: final(self).send_stream_last_object_ids,
                                ..*old(self)
                            })
                        }
                    }
                    &&& final(switch_context)@ == old(switch_context)@
                },
            },
    {
        match event {
            TrackEvent::SubgroupObject { stream_id, object, header_info } => {
                let action = self.handle_object(
                    switch_context,
                    current,
                    *stream_id,
                    object,
                    *header_info,
                    has_stream,
                    cached_header,
                );
                TrackAction::Object(action)
            },
            TrackEvent::Datagram { .. } => TrackAction::Datagram {
                track_alias: self.relay_track_id,
            },
            TrackEvent::StreamClosed { stream_id } => {
                self.handle_stream_closed(stream_id);
                TrackAction::CloseStream { stream_id: *stream_id }
            },
            TrackEvent::PublisherDisconnected { reason } => {
                let message = match self.send_publish_done(
                    PublishDoneStatusCode::TrackEnded,
                    reason,
                ) {
                    Ok(m) => Some(m),
                    Err(_) => None,
                };
                let streams = self.finish();
                TrackAction::Done { message, streams }
            },
        }
    }

    /// What to do with what the event channel gave: an event, or its end.
    pub fn receive(&self, has_event: bool) -> (step: ReceiveStep)
        ensures
            step == if !has_event {
                ReceiveStep::FinishAndDropReceiver
            } else if self.finished {
                ReceiveStep::DropReceiver
            } else {
                ReceiveStep::Handle
            },
    {
        if !has_event {
            ReceiveStep::FinishAndDropReceiver
        } else if self.finished {
            ReceiveStep::DropReceiver
        } else {
            ReceiveStep::Handle
        }
    }

    /// What the subscription's task does next: a track that joins is first brought up from the
    /// cache, from where it starts to what was received last.
    pub fn next_step(&self) -> (step: SubscriptionStep)
        ensures
            step is Stop <==> self.finished,
            step matches SubscriptionStep::Replay { from, to } ==> {
                &&& self.subscription_state.is_joining
                &&& self.subscription_state.start_location == Some(from)
                &&& self.subscription_state.last_received_object_location == Some(to)
                &&& from.before(to)
            },
            step is EndJoining ==> self.subscription_state.is_joining && !(
            self.subscription_state.last_received_object_location matches Some(to)
                && self.subscription_state.start_location->Some_0.before(to)),
            step is Wait ==> !(self.subscription_state.is_joining
                && self.subscription_state.start_location is Some),
            step == if self.finished {
                SubscriptionStep::Stop
            } else if self.subscription_state.is_joining
                && self.subscription_state.start_location is Some {
                let from = self.subscription_state.start_location->Some_0;
                match self.subscription_state.last_received_object_location {
                    Some(to) => if from.before(to) {
                        SubscriptionStep::Replay { from, to }
                    } else {
                        SubscriptionStep::EndJoining
                    },
                    None => SubscriptionStep::EndJoining,
                }
            } else {
                SubscriptionStep::Wait
            },
    {
        if self.finished {
            return SubscriptionStep::Stop;
        }
        if self.subscription_state.is_joining {
            if let Some(from) = self.subscription_state.start_location {
                if let Some(to) = self.subscription_state.last_received_object_location {
                    if from.is_before(&to) {
                        return SubscriptionStep::Replay { from, to };
                    }
                }
                return SubscriptionStep::EndJoining;
            }
        }
        SubscriptionStep::Wait
    }

    /// Ends joining.
    pub fn end_joining(&mut self)
        ensures
            *final(self) == (Subscription {
                subscription_state: SubscriptionState {
                    is_joining: false,
                    ..old(self).subscription_state
                },
                ..*old(self)
            }),
    {
        self.subscription_state.is_joining = false;
    }
}

/// What a replay reads of a cached object.
#[derive(Debug, Clone, Copy, PartialEq, Eq, Structural)]
pub struct CachedObject {
    pub group_id: u64,
    pub subgroup_id: u64,
    pub object_id: u64,
    pub publisher_priority: u8,
    pub has_extensions: bool,
    /// The object came as a datagram and belongs to no subgroup.
    pub datagram: bool,
}

/// The header with which a replay opens the stream of a cached object's group.
pub open spec fn replay_header(relay_track_id: u64, o: CachedObject) -> HeaderInfo {
    HeaderInfo::Subgroup {
        header: SubgroupHeader {
            track_alias: relay_track_id,
            group_id: o.group_id,
            subgroup_id: Some(o.subgroup_id),
            publisher_priority: Some(o.publisher_priority),
            has_extensions: o.has_extensions,
            contains_end_of_group: false,
        },
    }
}

/// Which object opened the stream on which object `i` of a replay goes: the first one did, and
/// then each one whose group is beyond the group of the stream that is open.
pub open spec fn opener(os: Seq<CachedObject>, i: int) -> int
    decreases i,
{
    if i <= 0 {
        0
    } else if os[i].group_id > os[opener(os, i - 1)].group_id {
        i
    } else {
        opener(os, i - 1)
    }
}

/// The event as which object `i` of a replay is handed to the subscription.
pub open spec fn replay_event(relay_track_id: u64, os: Seq<CachedObject>, i: int) -> TrackEvent {
    let first = os[opener(os, i)];
    TrackEvent::SubgroupObject {
        stream_id: stream_id::stream_id_of(relay_track_id, replay_header(relay_track_id, first)),
        object: Object {
            track_alias: relay_track_id,
            location: Location { group: os[i].group_id, object: os[i].object_id },
            publisher_priority: os[i].publisher_priority,
            subgroup_id: if os[i].datagram {
                None
            } else {
                Some(os[i].subgroup_id)
            },
        },
        header_info: if opener(os, i) == i {
            Some(replay_header(relay_track_id, first))
        } else {
            None
        },
    }
}

proof fn lemma_opener(os: Seq<CachedObject>, i: int)
    requires
        0 <= i < os.len(),
    ensures
        0 <= opener(os, i) <= i,
    decreases i,
{
    if i > 0 {
        lemma_opener(os, i - 1);
    }
}

/// The events that bring a joining subscription up from the cached objects.
pub fn replay_events(relay_track_id: u64, objects: &Vec<CachedObject>) -> (events: Vec<TrackEvent>)
    ensures
        events@.len() == objects@.len(),
        forall|i: int|
            0 <= i < objects@.len() ==> #[trigger] events@[i] == replay_event(
                relay_track_id,
                objects@,
                i,
            ),
        forall|i: int|
            0 <= i < objects@.len() ==> (
            #[trigger] events@[i] matches TrackEvent::SubgroupObject { object, .. }
                && object.location.group == objects@[i].group_id && object.location.object
                == objects@[i].object_id),
{
    let mut events: Vec<TrackEvent> = Vec::new();
    let mut open: Option<(u64, StreamId)> = None;
    let mut i: usize = 0;
    while i < objects.len()
        invariant
            i <= objects@.len(),
            events@.len() == i,
            forall|j: int|
                0 <= j < i ==> #[trigger] events@[j] == replay_event(relay_track_id, objects@, j),
            i == 0 <==> open is None,
            open matches Some(o) ==> {
                let first = objects@[opener(objects@, i - 1)];
                &&& o.0 == first.group_id
                &&& o.1 == stream_id::stream_id_of(
                    relay_track_id,
                    replay_header(relay_track_id, first),
                )
            },
        decreases objects@.len() - i,
    {
        let o = objects[i];
        proof {
            lemma_opener(objects@, i as int);
            if i > 0 {
                lemma_opener(objects@, i - 1);
            }
        }
        let opens = match open {
            None => true,
            Some(c) => o.group_id > c.0,
        };
        let header = HeaderInfo::Subgroup {
            header: SubgroupHeader {
                track_alias: relay_track_id,
                group_id: o.group_id,
                subgroup_id: Some(o.subgroup_id),
                publisher_priority: Some(o.publisher_priority),
                has_extensions: o.has_extensions,
                contains_end_of_group: false,
            },
        };
        let (group_id, stream_id): (u64, StreamId) = match open {
            Some(c) if !opens => c,
            _ => (o.group_id, build_stream_id(relay_track_id, &header)),
        };
        open = Some((group_id, stream_id));
        events.push(
            TrackEvent::SubgroupObject {
                stream_id,
                object: Object {
                    track_alias: relay_track_id,
                    location: Location { group: o.group_id, object: o.object_id },
                    publisher_priority: o.publisher_priority,
                    subgroup_id: if o.datagram {
                        None
                    } else {
                        Some(o.subgroup_id)
                    },
                },
                header_info: if opens {
                    Some(header)
                } else {
                    None
                },
            },
        );
        i = i + 1;
    }
    events
}

/// A replay of objects whose groups never fall keeps every object on a stream of its own group.
pub proof fn law_replay_keeps_groups_apart(os: Seq<CachedObject>, i: int)
    requires
        0 <= i < os.len(),
        forall|a: int, b: int| 0 <= a <= b < os.len() ==> os[a].group_id <= os[b].group_id,
    ensures
        os[opener(os, i)].group_id == os[i].group_id,
    decreases i,
{
    lemma_opener(os, i);
    if i > 0 {
        law_replay_keeps_groups_apart(os, i - 1);
        lemma_opener(os, i - 1);
        assert(os[i - 1].group_id <= os[i].group_id);
    }
}

/// A track that waits for its turn, and one that was switched away from, forwards no object for
/// which the switch context is asked, and has forwarding off afterwards unless it takes over.
pub proof fn law_only_the_current_track_is_forwarded(
    s: Subscription,
    status: SwitchStatus,
    current: CurrentTrack,
    stream_id: StreamId,
    l: Location,
    header_info: Option<HeaderInfo>,
)
    requires
        status is Next || status is Inactive,
        asks_switch_context(s, header_info),
    ensures
        !forwards_object(s, Some(status), current, l, header_info),
        ({
            let after = after_object(s, Some(status), current, stream_id, l, header_info);
            after.subscription_state.forward ==> switch_verdict(
                Some(status),
                current,
                l,
            ) is TakeOver
        }),
{
}

/// A track that takes over starts with the first object of the group after the one last sent of
/// the track that played: what it then admits is exactly what comes after that group.
pub proof fn law_takeover_leaves_no_gap_and_no_overlap(
    s: SubscriptionState,
    m: Location,
    l: Location,
    x: Location,
)
    requires
        m.group < u64::MAX,
        l.group >= m.group,
    ensures
        ({
            let current = CurrentTrack::Live { last_sent_max_location: Some(m) };
            let v = switch_verdict(Some(SwitchStatus::Next), current, l);
            let after = after_verdict(s, v, l);
            &&& v == (SwitchVerdict::TakeOver { start: next_group(m.group) })
            &&& after.forward
            &&& after.admits(x) <==> x.group > m.group
        }),
{
}

/// A track does not take over before it has reached the group last sent of the track that plays.
pub proof fn law_no_takeover_before_catching_up(m: Location, l: Location)
    requires
        l.group < m.group,
    ensures
        switch_verdict(
            Some(SwitchStatus::Next),
            CurrentTrack::Live { last_sent_max_location: Some(m) },
            l,
        ) is Wait,
{
}

/// When the waiting track takes over, the one that played is switched away from: of the two only
/// the new one is forwarded from then on.
pub proof fn law_takeover_stops_the_old_track(
    ctx: Map<TrackName, SwitchStatus>,
    old_track: TrackName,
    new_track: TrackName,
    current: CurrentTrack,
    l: Location,
)
    requires
        ctx.contains_key(old_track),
        ctx[old_track] is Current,
        ctx.contains_key(new_track),
        ctx[new_track] is Next,
    ensures
        ({
            let after = switch_context::with_status(ctx, new_track, SwitchStatus::Current);
            &&& switch_verdict(status_in(after, new_track), current, l) is Forward
            &&& switch_verdict(status_in(after, old_track), current, l) is WindDown
        }),
{
    assert(old_track != new_track);
    let d = switch_context::demoted(ctx);
    assert(d.contains_key(old_track));
    assert(d[old_track] is Inactive);
}

/// The furthest position received never falls back, and neither does the furthest one sent.
pub proof fn law_progress_is_monotone(
    s: Subscription,
    status: Option<SwitchStatus>,
    current: CurrentTrack,
    stream_id: StreamId,
    l: Location,
    header_info: Option<HeaderInfo>,
)
    ensures
        ({
            let after = after_object(s, status, current, stream_id, l, header_info);
            &&& location::at_most(
                s.subscription_state.last_received_object_location,
                after.subscription_state.last_received_object_location,
            )
            &&& location::at_most(
                Some(l),
                after.subscription_state.last_received_object_location,
            )
            &&& after.subscription_state.last_sent_max_location
                == s.subscription_state.last_sent_max_location
        }),
{
}

/// A part of a subscription that an update does not name keeps its value.
pub proof fn law_update_leaves_the_rest(
    s: SubscriptionState,
    us: Seq<MessageParameter>,
    parameters: Vec<MessageParameter>,
)
    ensures
        ({
            let after = updated_state(s, us, parameters);
            &&& (forall|i: int| 0 <= i < us.len() ==> !((#[trigger] us[i]) is Forward))
                ==> after.forward == s.forward
            &&& (forall|i: int| 0 <= i < us.len() ==> !((#[trigger] us[i]) is SubscriberPriority))
                ==> after.subscriber_priority == s.subscriber_priority
            &&& (forall|i: int| 0 <= i < us.len() ==> !((#[trigger] us[i]) is SubscriptionFilter))
                ==> after.filter_type == s.filter_type && after.start_location == s.start_location
                && after.end_group == s.end_group
            &&& after.group_order == s.group_order
            &&& after.is_joining == s.is_joining
            &&& after.last_sent_max_location == s.last_sent_max_location
            &&& after.last_received_object_location == s.last_received_object_location
        }),
    decreases us.len(),
{
    if us.len() > 0 {
        let init = us.drop_last();
        law_update_leaves_the_rest(s, init, parameters);
        assert(forall|i: int| 0 <= i < init.len() ==> #[trigger] init[i] == us[i]);
        assert(us.last() == us[us.len() - 1]);
    }
    if forall|i: int| 0 <= i < us.len() ==> !((#[trigger] us[i]) is SubscriptionFilter) {
        assert forall|i: int| 0 <= i < us.len() implies (#[trigger] us[i]).kind()
            != MessageParameterType::SubscriptionFilter by {
            assert(!(us[i] is SubscriptionFilter));
        }
        message::lemma_first_of_none(us, MessageParameterType::SubscriptionFilter);
    }
}

/// A replay stands for the cached objects one for one: event `i` is object `i`, at its own
/// position, with its own priority and subgroup, under the relay's own alias. So two objects are
/// replayed at one position only where they were cached at one, and in the order of positions in
/// which they were cached; nothing cached between two positions is replayed outside them.
pub proof fn law_replay_stands_for_the_cached_objects(
    relay_track_id: u64,
    os: Seq<CachedObject>,
    i: int,
    j: int,
    from: Location,
    to: Location,
)
    requires
        0 <= i < os.len(),
        0 <= j < os.len(),
    ensures
        replay_event(relay_track_id, os, i) matches TrackEvent::SubgroupObject { object: a, .. } && {
            &&& a.location.group == os[i].group_id
            &&& a.location.object == os[i].object_id
            &&& a.publisher_priority == os[i].publisher_priority
            &&& a.subgroup_id is None <==> os[i].datagram
            &&& a.subgroup_id matches Some(g) ==> g == os[i].subgroup_id
            &&& a.track_alias == relay_track_id
            &&& (from.group < os[i].group_id || from.group == os[i].group_id && from.object
                <= os[i].object_id) ==> !a.location.before(from)
            &&& (os[i].group_id < to.group || os[i].group_id == to.group && os[i].object_id
                <= to.object) ==> !to.before(a.location)
            &&& replay_event(relay_track_id, os, j) matches TrackEvent::SubgroupObject {
                object: b,
                ..
            } && {
                &&& a.location == b.location <==> os[i].group_id == os[j].group_id
                    && os[i].object_id == os[j].object_id
                &&& a.location.before(b.location) <==> os[i].group_id < os[j].group_id || (
                os[i].group_id == os[j].group_id && os[i].object_id < os[j].object_id)
            }
        },
{
}

/// Where the groups never fall, a replay opens one stream for each group, with the group's first
/// object and a header that says what that object does, and sends the group's other objects on
/// that stream: no stream carries two groups and no group is on two streams.
pub proof fn law_replay_opens_a_stream_for_each_group(
    relay_track_id: u64,
    os: Seq<CachedObject>,
    i: int,
)
    requires
        0 <= i < os.len(),
        forall|a: int, b: int| 0 <= a <= b < os.len() ==> os[a].group_id <= os[b].group_id,
    ensures
        replay_event(relay_track_id, os, i) matches TrackEvent::SubgroupObject {
            stream_id,
            header_info,
            ..
        } && {
            &&& stream_id.stream_type is Subgroup
            &&& stream_id.relay_track_id == relay_track_id
            &&& stream_id.group_id == Some(os[i].group_id)
            &&& stream_id.fetch_request_id is None
            &&& header_info is Some <==> i == 0 || os[i - 1].group_id != os[i].group_id
            &&& header_info matches Some(info) ==> {
                &&& stream_id.subgroup_id == Some(os[i].subgroup_id)
                &&& info matches HeaderInfo::Subgroup { header } && {
                    &&& header.track_alias == relay_track_id
                    &&& header.group_id == os[i].group_id
                    &&& header.subgroup_id == Some(os[i].subgroup_id)
                    &&& header.publisher_priority == Some(os[i].publisher_priority)
                    &&& header.has_extensions == os[i].has_extensions
                    &&& !header.contains_end_of_group
                }
            }
            &&& header_info is None ==> (replay_event(
                relay_track_id,
                os,
                i - 1,
            ) matches TrackEvent::SubgroupObject { stream_id: previous, .. } && previous
                == stream_id)
        },
{
    law_replay_keeps_groups_apart(os, i);
    lemma_opener(os, i);
    if i > 0 {
        law_replay_keeps_groups_apart(os, i - 1);
        lemma_opener(os, i - 1);
        assert(os[i - 1].group_id <= os[i].group_id);
    }
}

/// The first filter of a request bounds what the new subscription lets through: no object before
/// its start and none of a group after its last group is forwarded, and every other position is
/// admitted. A last group of 0 is no bound.
pub proof fn law_filter_bounds_a_new_subscription(
    s: Subscription,
    parameters: Vec<MessageParameter>,
    k: int,
    status: Option<SwitchStatus>,
    current: CurrentTrack,
    l: Location,
    header_info: Option<HeaderInfo>,
)
    requires
        s.subscription_state == initial_state(parameters),
        0 <= k < parameters@.len(),
        parameters@[k] is SubscriptionFilter,
        forall|j: int| 0 <= j < k ==> !((#[trigger] parameters@[j]) is SubscriptionFilter),
    ensures
        parameters@[k] matches MessageParameter::SubscriptionFilter {
            filter_type,
            start_location,
            end_group,
        } && {
            let early = start_location matches Some(x) && (l.group < x.group || l.group == x.group
                && l.object < x.object);
            let late = end_group matches Some(g) && 0 < g < l.group;
            &&& s.subscription_state.admits(l) <==> !early && !late
            &&& early || late ==> !forwards_object(s, status, current, l, header_info)
            &&& s.subscription_state.filter_type == filter_type
        },
{
    assert forall|j: int| 0 <= j < k implies (#[trigger] parameters@[j]).kind()
        != MessageParameterType::SubscriptionFilter by {
        assert(!(parameters@[j] is SubscriptionFilter));
    }
    message::lemma_first_of(parameters@, MessageParameterType::SubscriptionFilter, k);
}

/// A request without a filter has every position admitted.
pub proof fn law_no_filter_admits_everything(parameters: Vec<MessageParameter>, l: Location)
    requires
        forall|j: int|
            0 <= j < parameters@.len() ==> !((#[trigger] parameters@[j]) is SubscriptionFilter),
    ensures
        initial_state(parameters).admits(l),
        initial_state(parameters).filter_type is LatestObject,
{
    assert forall|j: int| 0 <= j < parameters@.len() implies (#[trigger] parameters@[j]).kind()
        != MessageParameterType::SubscriptionFilter by {
        assert(!(parameters@[j] is SubscriptionFilter));
    }
    message::lemma_first_of_none(parameters@, MessageParameterType::SubscriptionFilter);
}

/// A filter bounds a subscription alike whether it comes with the request or with an update of a
/// request that had none.
pub proof fn law_filter_by_request_or_by_update(
    plain: Vec<MessageParameter>,
    filtered: Vec<MessageParameter>,
    updated: Vec<MessageParameter>,
    us: Seq<MessageParameter>,
    k: int,
    m: int,
    l: Location,
)
    requires
        forall|j: int| 0 <= j < plain@.len() ==> !((#[trigger] plain@[j]) is SubscriptionFilter),
        0 <= k < filtered@.len(),
        0 <= m < us.len(),
        filtered@[k] is SubscriptionFilter,
        us[m] == filtered@[k],
        forall|j: int| 0 <= j < k ==> !((#[trigger] filtered@[j]) is SubscriptionFilter),
        forall|j: int| 0 <= j < m ==> !((#[trigger] us[j]) is SubscriptionFilter),
    ensures
        updated_state(initial_state(plain), us, updated).admits(l) <==> initial_state(
            filtered,
        ).admits(l),
        updated_state(initial_state(plain), us, updated).filter_type == initial_state(
            filtered,
        ).filter_type,
{
    let t = MessageParameterType::SubscriptionFilter;
    assert forall|j: int| 0 <= j < plain@.len() implies (#[trigger] plain@[j]).kind() != t by {
        assert(!(plain@[j] is SubscriptionFilter));
    }
    message::lemma_first_of_none(plain@, t);
    assert forall|j: int| 0 <= j < k implies (#[trigger] filtered@[j]).kind() != t by {
        assert(!(filtered@[j] is SubscriptionFilter));
    }
    message::lemma_first_of(filtered@, t, k);
    assert forall|j: int| 0 <= j < m implies (#[trigger] us[j]).kind() != t by {
        assert(!(us[j] is SubscriptionFilter));
    }
    message::lemma_first_of(us, t, m);
}

/// A new subscription has the priority, the group order and the forwarding of the first parameter
/// that names them; it begins with nothing sent, nothing received and nothing to join.
pub proof fn law_request_sets_what_it_names(parameters: Vec<MessageParameter>, k: int)
    requires
        0 <= k < parameters@.len(),
        forall|j: int|
            0 <= j < k ==> (#[trigger] parameters@[j]).kind() != parameters@[k].kind(),
    ensures
        ({
            let s = initial_state(parameters);
            &&& parameters@[k] matches MessageParameter::SubscriberPriority { priority }
                ==> s.subscriber_priority == priority
            &&& parameters@[k] matches MessageParameter::GroupOrder { order } ==> s.group_order
                == order
            &&& parameters@[k] matches MessageParameter::Forward { forward } ==> s.forward
                == forward
            &&& s.subscribe_parameters@ == parameters@
            &&& s.last_sent_max_location is None
            &&& s.last_received_object_location is None
            &&& !s.is_joining
        }),
{
    message::lemma_first_of(parameters@, parameters@[k].kind(), k);
}

/// What a request does not name has its default: priority 128, ascending groups, forwarding on.
pub proof fn law_request_leaves_the_defaults(parameters: Vec<MessageParameter>)
    ensures
        (forall|j: int|
            0 <= j < parameters@.len() ==> !((#[trigger] parameters@[j]) is SubscriberPriority))
            ==> initial_state(parameters).subscriber_priority == 128,
        (forall|j: int| 0 <= j < parameters@.len() ==> !((#[trigger] parameters@[j]) is GroupOrder))
            ==> initial_state(parameters).group_order is Ascending,
        (forall|j: int| 0 <= j < parameters@.len() ==> !((#[trigger] parameters@[j]) is Forward))
            ==> initial_state(parameters).forward,
{
    let ps = parameters@;
    if forall|j: int| 0 <= j < ps.len() ==> !((#[trigger] ps[j]) is SubscriberPriority) {
        let t = MessageParameterType::SubscriberPriority;
        assert forall|j: int| 0 <= j < ps.len() implies (#[trigger] ps[j]).kind() != t by {
            assert(!(ps[j] is SubscriberPriority));
        }
        message::lemma_first_of_none(ps, t);
    }
    if forall|j: int| 0 <= j < ps.len() ==> !((#[trigger] ps[j]) is GroupOrder) {
        let t = MessageParameterType::GroupOrder;
        assert forall|j: int| 0 <= j < ps.len() implies (#[trigger] ps[j]).kind() != t by {
            assert(!(ps[j] is GroupOrder));
        }
        message::lemma_first_of_none(ps, t);
    }
    if forall|j: int| 0 <= j < ps.len() ==> !((#[trigger] ps[j]) is Forward) {
        let t = MessageParameterType::Forward;
        assert forall|j: int| 0 <= j < ps.len() implies (#[trigger] ps[j]).kind() != t by {
            assert(!(ps[j] is Forward));
        }
        message::lemma_first_of_none(ps, t);
    }
}

/// An update sets the priority and the forwarding to what the last parameter that names them says,
/// whatever they were.
pub proof fn law_update_sets_what_it_names(
    s: SubscriptionState,
    us: Seq<MessageParameter>,
    parameters: Vec<MessageParameter>,
    k: int,
)
    requires
        0 <= k < us.len(),
        forall|j: int| k < j < us.len() ==> (#[trigger] us[j]).kind() != us[k].kind(),
    ensures
        us[k] matches MessageParameter::SubscriberPriority { priority } ==> updated_state(
            s,
            us,
            parameters,
        ).subscriber_priority == priority,
        us[k] matches MessageParameter::Forward { forward } ==> updated_state(
            s,
            us,
            parameters,
        ).forward == forward,
        updated_state(s, us, parameters).subscribe_parameters@ == parameters@,
    decreases us.len(),
{
    if k < us.len() - 1 {
        let init = us.drop_last();
        assert(us.last() == us[us.len() - 1]);
        assert(us[us.len() - 1].kind() != us[k].kind());
        assert forall|j: int| k < j < init.len() implies (#[trigger] init[j]).kind()
            != init[k].kind() by {
            assert(init[j] == us[j]);
        }
        law_update_sets_what_it_names(s, init, parameters, k);
    }
}

/// The first filter of an update replaces the bounds that it names and keeps the others.
pub proof fn law_update_replaces_the_bounds_it_names(
    s: SubscriptionState,
    us: Seq<MessageParameter>,
    parameters: Vec<MessageParameter>,
    k: int,
)
    requires
        0 <= k < us.len(),
        us[k] is SubscriptionFilter,
        forall|j: int| 0 <= j < k ==> !((#[trigger] us[j]) is SubscriptionFilter),
    ensures
        us[k] matches MessageParameter::SubscriptionFilter {
            filter_type,
            start_location,
            end_group,
        } && {
            let after = updated_state(s, us, parameters);
            &&& after.filter_type == filter_type
            &&& start_location is Some ==> after.start_location == start_location
            &&& start_location is None ==> after.start_location == s.start_location
            &&& end_group matches Some(g) ==> after.end_group == g
            &&& end_group is None ==> after.end_group == s.end_group
        },
{
    assert forall|j: int| 0 <= j < k implies (#[trigger] us[j]).kind()
        != MessageParameterType::SubscriptionFilter by {
        assert(!(us[j] is SubscriptionFilter));
    }
    message::lemma_first_of(us, MessageParameterType::SubscriptionFilter, k);
}

proof fn lemma_last_named(us: Seq<MessageParameter>, priority: u8, forward: bool)
    ensures
        priority_after(us, priority) == match message::last_of(
            us,
            MessageParameterType::SubscriberPriority,
        ) {
            Some(MessageParameter::SubscriberPriority { priority: p }) => p,
            _ => priority,
        },
        forward_after(us, forward) == match message::last_of(us, MessageParameterType::Forward) {
            Some(MessageParameter::Forward { forward: f }) => f,
            _ => forward,
        },
    decreases us.len(),
{
    if us.len() > 0 {
        lemma_last_named(us.drop_last(), priority, forward);
    }
}

/// A subscription whose priority and forwarding are those of its parameter list still agrees with
/// the list after an update of both.
pub proof fn law_update_keeps_state_and_parameters_together(
    s: SubscriptionState,
    us: Seq<MessageParameter>,
    parameters: Vec<MessageParameter>,
)
    requires
        parameters@ == message::with_updates(s.subscribe_parameters@, us),
    ensures
        s.subscriber_priority == priority_in(s.subscribe_parameters@) ==> updated_state(
            s,
            us,
            parameters,
        ).subscriber_priority == priority_in(parameters@),
        s.forward == forward_in(s.subscribe_parameters@) ==> updated_state(
            s,
            us,
            parameters,
        ).forward == forward_in(parameters@),
{
    lemma_last_named(us, s.subscriber_priority, s.forward);
    let p = MessageParameterType::SubscriberPriority;
    let f = MessageParameterType::Forward;
    message::law_update_keeps_what_it_does_not_name(s.subscribe_parameters@, us, p);
    message::law_update_keeps_what_it_does_not_name(s.subscribe_parameters@, us, f);
    lemma_last_of_kind(us, p);
    lemma_last_of_kind(us, f);
}

proof fn lemma_last_of_kind(us: Seq<MessageParameter>, t: MessageParameterType)
    ensures
        message::last_of(us, t) matches Some(p) ==> p.kind() == t,
    decreases us.len(),
{
    if us.len() > 0 {
        lemma_last_of_kind(us.drop_last(), t);
    }
}

/// Forwarding is switched on by an update exactly where some parameter asks for it while it is off:
/// never by an update that does not ask for it, always by one that asks for it of a subscription
/// that has it off, and not where it was on and nothing switched it off.
pub proof fn law_forwarding_is_switched_on_by_a_request(us: Seq<MessageParameter>, forward: bool)
    ensures
        !us.contains(MessageParameter::Forward { forward: true }) ==> !forward_rises(us, forward),
        us.contains(MessageParameter::Forward { forward: true }) && !forward ==> forward_rises(
            us,
            forward,
        ),
        !us.contains(MessageParameter::Forward { forward: false }) && forward ==> !forward_rises(
            us,
            forward,
        ) && forward_after(us, forward),
        !forward && forward_after(us, forward) ==> forward_rises(us, forward),
    decreases us.len(),
{
    if us.len() > 0 {
        let init = us.drop_last();
        law_forwarding_is_switched_on_by_a_request(init, forward);
        let on = MessageParameter::Forward { forward: true };
        let off = MessageParameter::Forward { forward: false };
        assert(us.last() == us[us.len() - 1]);
        if init.contains(on) {
            let i = choose|i: int| 0 <= i < init.len() && init[i] == on;
            assert(us[i] == on);
        }
        if init.contains(off) {
            let i = choose|i: int| 0 <= i < init.len() && init[i] == off;
            assert(us[i] == off);
        }
        if us.contains(on) && us.last() != on {
            let i = choose|i: int| 0 <= i < us.len() && us[i] == on;
            assert(init[i] == on);
        }
        if us.contains(off) && us.last() != off {
            let i = choose|i: int| 0 <= i < us.len() && us[i] == off;
            assert(init[i] == off);
        }
        assert(us.contains(us.last()));
    }
}

/// A track that is not part of a switch, or that plays, has an object forwarded exactly where
/// forwarding is on and the object is neither before the start nor in a group after the last one;
/// it changes neither the range nor the forwarding.
pub proof fn law_a_playing_track_forwards_its_range(
    s: Subscription,
    status: Option<SwitchStatus>,
    current: CurrentTrack,
    stream_id: StreamId,
    l: Location,
    header_info: Option<HeaderInfo>,
)
    requires
        status is None || status == Some(SwitchStatus::Current),
    ensures
        forwards_object(s, status, current, l, header_info) <==> {
            &&& s.subscription_state.forward
            &&& s.subscription_state.start_location matches Some(x) ==> x.group < l.group
                || x.group == l.group && x.object <= l.object
            &&& s.subscription_state.end_group == 0 || l.group <= s.subscription_state.end_group
        },
        ({
            let before = s.subscription_state;
            let after = after_object(s, status, current, stream_id, l, header_info);
            &&& after.subscription_state.forward == before.forward
            &&& after.subscription_state.start_location == before.start_location
            &&& after.subscription_state.end_group == before.end_group
            &&& after.subscription_state.is_joining == before.is_joining
            &&& forwards_object(s, status, current, l, header_info) ==> after.pending_header is None
        }),
{
}

/// An object leaves alone whatever it has nothing to say of: who subscribed to what, the streams
/// that are open, the priority, the order, the filter's type and the parameters. Once it has come,
/// the switch context is asked only about objects that open a stream.
pub proof fn law_an_object_keeps_the_rest(
    s: Subscription,
    status: Option<SwitchStatus>,
    current: CurrentTrack,
    stream_id: StreamId,
    l: Location,
    header_info: Option<HeaderInfo>,
)
    ensures
        ({
            let after = after_object(s, status, current, stream_id, l, header_info);
            &&& after.request_id == s.request_id
            &&& after.relay_track_id == s.relay_track_id
            &&& after.full_track_name == s.full_track_name
            &&& after.client_connection_id == s.client_connection_id
            &&& after.send_stream_last_object_ids == s.send_stream_last_object_ids
            &&& after.finished == s.finished
            &&& !asks_switch_context(after, None)
            &&& forall|h: HeaderInfo| asks_switch_context(after, Some(h))
            &&& after.subscription_state.subscriber_priority
                == s.subscription_state.subscriber_priority
            &&& after.subscription_state.group_order == s.subscription_state.group_order
            &&& after.subscription_state.filter_type == s.subscription_state.filter_type
            &&& after.subscription_state.subscribe_parameters
                == s.subscription_state.subscribe_parameters
            &&& after.subscription_state.last_received_object_location == Some(l)
                || after.subscription_state.last_received_object_location
                == s.subscription_state.last_received_object_location
        }),
{
}

/// A header that comes while forwarding is off is held back, with its stream, where the object is
/// in the range and the switch context has nothing against it; nothing else replaces what is held
/// back.
pub proof fn law_a_header_is_held_back_while_nothing_is_forwarded(
    s: Subscription,
    status: Option<SwitchStatus>,
    current: CurrentTrack,
    stream_id: StreamId,
    l: Location,
    header_info: Option<HeaderInfo>,
)
    ensures
        ({
            let after = after_object(s, status, current, stream_id, l, header_info).pending_header;
            &&& after == s.pending_header || after is None || after == Some(
                (stream_id, header_info->Some_0),
            )
            &&& header_info is None ==> after == s.pending_header || after is None
            &&& after is None && s.pending_header is Some ==> s.subscription_state.forward
            &&& header_info is Some && !s.subscription_state.forward
                && s.subscription_state.admits(l) && (status is None || status == Some(
                SwitchStatus::Current,
            )) ==> after == Some((stream_id, header_info->Some_0))
        }),
{
}

/// A track that waits takes over where no track plays, or where nothing was sent yet of the one
/// that does, and then starts with the group after the one it is at. It stays waiting where the
/// track that plays has lost its subscription. Taking over lifts the last group and joins; waiting
/// changes nothing but the forwarding.
pub proof fn law_takeover_where_nothing_was_sent(
    s: SubscriptionState,
    current: CurrentTrack,
    l: Location,
    x: Location,
)
    requires
        l.group < u64::MAX,
        !(current matches CurrentTrack::Live { last_sent_max_location: Some(_) }),
    ensures
        ({
            let v = switch_verdict(Some(SwitchStatus::Next), current, l);
            let after = after_verdict(s, v, l);
            &&& current is Gone ==> v is Wait && !after.forward && after.is_joining == s.is_joining
                && after.start_location == s.start_location && after.end_group == s.end_group
            &&& !(current is Gone) ==> v is TakeOver && after.forward && after.is_joining && (
            after.admits(x) <==> x.group > l.group)
        }),
{
}

/// A track that was switched away from sends nothing after the group it is at: forwarding goes off
/// and the group becomes the last one. One that had forwarding off already keeps its state.
pub proof fn law_winding_down_ends_with_the_group(
    s: SubscriptionState,
    current: CurrentTrack,
    l: Location,
    x: Location,
)
    requires
        l.group > 0,
    ensures
        ({
            let v = switch_verdict(Some(SwitchStatus::Inactive), current, l);
            let after = after_verdict(s, v, l);
            &&& v is WindDown
            &&& !after.forward
            &&& after.start_location == s.start_location
            &&& after.is_joining == s.is_joining
            &&& s.forward && x.group > l.group ==> !after.admits(x)
            &&& s.forward && after.admits(x) ==> x.group <= l.group
            &&& !s.forward ==> after == s
        }),
{
}

/// How a forwarded object reaches its stream: with the header that came with it, on the stream that
/// is open, or with the header with which the publisher opened the stream, in this order. A stream
/// is opened under its header's own identity.
pub proof fn law_forwarded_objects_reach_a_stream_of_their_header(
    s: Subscription,
    header_info: Option<HeaderInfo>,
    has_stream: bool,
    cached_header: Option<HeaderInfo>,
)
    ensures
        ({
            let a = sending(s, header_info, has_stream, cached_header);
            &&& a is Send <==> header_info is None && has_stream
            &&& !(a is Withheld)
            &&& a matches ObjectAction::Open { stream_id, header, priority, first } ==> {
                &&& first <==> header_info is Some
                &&& first ==> header_info == Some(header)
                &&& !first ==> cached_header == Some(header) && !has_stream
                &&& stream_id.relay_track_id == s.relay_track_id
                &&& header matches HeaderInfo::Subgroup { header: h } ==> stream_id.group_id
                    == Some(h.group_id) && stream_id.subgroup_id == h.subgroup_id
                    && stream_id.stream_type is Subgroup
                &&& priority == header_priority(s.subscription_state, header)
            }
            &&& a is Lost ==> (header_info is Some && header_info->Some_0 is Fetch) || (
            header_info is None && !has_stream && cached_header is None)
        }),
{
    if let Some(h) = header_info {
        lemma_header_priority(s.subscription_state, h);
    }
    if let Some(h) = cached_header {
        lemma_header_priority(s.subscription_state, h);
    }
}

proof fn lemma_header_priority(s: SubscriptionState, header: HeaderInfo)
    ensures
        i32::MIN <= header_priority(s, header) <= i32::MAX,
{
    match header {
        HeaderInfo::Subgroup { header } => priority::law_priorities_fill_the_range(
            s.subscriber_priority,
            match header.publisher_priority {
                Some(p) => p,
                None => 128,
            },
            s.group_order,
            header.group_id,
        ),
        HeaderInfo::Fetch { .. } => priority::law_priorities_fill_the_range(
            s.subscriber_priority,
            128,
            s.group_order,
            0,
        ),
    }
}

/// Of two streams the one whose subscriber has the lower priority number goes first, whatever the
/// headers say; between streams of one subscriber the lower publisher priority goes first; a header
/// that names none counts as 128; and inside one priority the groups go in the subscriber's order.
pub proof fn law_streams_go_by_subscriber_then_publisher_then_group(
    a: SubscriptionState,
    b: SubscriptionState,
    x: SubgroupHeader,
    y: SubgroupHeader,
)
    ensures
        a.subscriber_priority < b.subscriber_priority ==> header_priority(
            a,
            HeaderInfo::Subgroup { header: x },
        ) > header_priority(b, HeaderInfo::Subgroup { header: y }),
        a.subscriber_priority == b.subscriber_priority && x.publisher_priority is Some
            && y.publisher_priority is Some && x.publisher_priority->Some_0
            < y.publisher_priority->Some_0 ==> header_priority(
            a,
            HeaderInfo::Subgroup { header: x },
        ) > header_priority(b, HeaderInfo::Subgroup { header: y }),
        x.publisher_priority is None && y == (SubgroupHeader {
            publisher_priority: Some(128),
            ..x
        }) ==> header_priority(a, HeaderInfo::Subgroup { header: x }) == header_priority(
            a,
            HeaderInfo::Subgroup { header: y },
        ),
        x.publisher_priority == y.publisher_priority && x.group_id < y.group_id < 65536 ==> {
            let p = header_priority(a, HeaderInfo::Subgroup { header: x });
            let q = header_priority(a, HeaderInfo::Subgroup { header: y });
            if a.group_order is Descending {
                p < q
            } else {
                p > q
            }
        },
{
}

/// A request for a track from a position on has exactly the positions from there on admitted, and
/// one for what is published from now on has all of them, where no other filter stands before it.
pub proof fn law_requested_positions_are_admitted(
    ps: Seq<MessageParameter>,
    from: Vec<MessageParameter>,
    latest: Vec<MessageParameter>,
    start: Location,
    l: Location,
)
    requires
        forall|j: int| 0 <= j < ps.len() ==> !((#[trigger] ps[j]) is SubscriptionFilter),
        from@ == ps.push(control::absolute_start(start)),
        latest@ == ps.push(control::latest_object()),
    ensures
        initial_state(from).admits(l) <==> start.group < l.group || start.group == l.group
            && start.object <= l.object,
        initial_state(latest).admits(l),
{
    let t = MessageParameterType::SubscriptionFilter;
    let k = ps.len() as int;
    assert forall|j: int| 0 <= j < k implies (#[trigger] from@[j]).kind() != t by {
        assert(!(ps[j] is SubscriptionFilter));
    }
    assert forall|j: int| 0 <= j < k implies (#[trigger] latest@[j]).kind() != t by {
        assert(!(ps[j] is SubscriptionFilter));
    }
    message::lemma_first_of(from@, t, k);
    message::lemma_first_of(latest@, t, k);
}

/// A subscription goes by the id and the parameters of the message that made it, whichever of the
/// two kinds that is.
pub proof fn law_subscriptions_go_by_their_message(subscribe: Subscribe, publish: Publish)
    ensures
        SubscriptionOrigin::Subscribe(subscribe).id() == subscribe.request_id,
        SubscriptionOrigin::Publish(publish).id() == publish.request_id,
        SubscriptionOrigin::Subscribe(subscribe).parameters()@ == subscribe.subscribe_parameters@,
        SubscriptionOrigin::Publish(publish).parameters()@ == publish.parameters@,
{
}

/// A replay goes on with the stream that is open as long as no later group comes, and opens another
/// exactly where one does, whatever the order of the cached objects.
pub proof fn law_replay_opens_a_stream_for_later_groups_alone(
    relay_track_id: u64,
    os: Seq<CachedObject>,
    i: int,
)
    requires
        0 < i < os.len(),
    ensures
        replay_event(relay_track_id, os, 0) matches TrackEvent::SubgroupObject { header_info, .. }
            && header_info is Some,
        replay_event(relay_track_id, os, i - 1) matches TrackEvent::SubgroupObject {
            stream_id: open,
            ..
        } && (open.group_id matches Some(g) && (replay_event(
            relay_track_id,
            os,
            i,
        ) matches TrackEvent::SubgroupObject { stream_id, header_info, .. } && {
            &&& header_info is Some <==> os[i].group_id > g
            &&& header_info is Some ==> stream_id.group_id == Some(os[i].group_id)
            &&& header_info is None ==> stream_id == open
        })),
{
    lemma_opener(os, i);
    lemma_opener(os, i - 1);
}

} // verus!
