//! The publisher of test data: what it announces, what it sends and when.
use crate::cli::DeliveryMode;
use crate::control::{ControlMessage, Publish, SubscribeOk};
use crate::control;
use crate::location::Location;
use crate::message::{GroupOrder, MessageParameter};
use crate::names::{FullTrackName, TrackName};
use crate::names;
use crate::stream_id::{HeaderInfo, SubgroupHeader};
use crate::track::Object;
use vstd::prelude::*;

verus! {

/// One track of several that are published together.
#[derive(Debug)]
pub struct TrackSpec {
    pub name: String,
    /// Average payload in bytes per object.
    pub payload_size: usize,
    /// The size of a P-frame as a fraction of that of an I-frame, as text; a quarter if not given.
    pub p_ratio: Option<String>,
    /// Milliseconds by which the track's data starts later than that of the others.
    pub start_delay_ms: u64,
}

impl TrackSpec {
    pub fn new(name: String, payload_size: usize) -> (t: Self)
        ensures
            t == (TrackSpec { name, payload_size, p_ratio: None, start_delay_ms: 0 }),
    {
        TrackSpec { name, payload_size, p_ratio: None, start_delay_ms: 0 }
    }
}

#[derive(Debug)]
pub struct PublishMultiConfig {
    pub namespace: String,
    pub tracks: Vec<TrackSpec>,
    pub objects_per_group: u64,
    pub interval_ms: u64,
    pub group_count: u64,
    pub publisher_priority: u8,
}

#[derive(Debug)]
pub struct PublishConfig {
    pub namespace: String,
    pub track_name: String,
    pub delivery_mode: DeliveryMode,
    pub group_count: u64,
    pub interval: u64,
    pub objects_per_group: u64,
    pub payload_size: usize,
    pub track_alias: u64,
    pub publisher_priority: u8,
    pub group_order: GroupOrder,
}

#[derive(Debug)]
pub struct PublishNamespaceConfig {
    pub namespace: String,
    pub delivery_mode: DeliveryMode,
    pub group_count: u64,
    pub interval: u64,
    pub objects_per_group: u64,
    pub payload_size: usize,
    pub publisher_priority: u8,
}

/// The largest number that fits into 62 bits.
pub const MAX_ALIAS: u64 = 0x3fff_ffff_ffff_ffff;

/// The alias that is used: the one that is given, or one made of a random number.
pub open spec fn alias_from(given: Option<u64>, random: u64) -> u64 {
    match given {
        Some(a) => a,
        None => random & MAX_ALIAS,
    }
}

/// Chooses the alias of a track. One that is made of a random number has 62 bits.
pub fn choose_alias(given: Option<u64>, random: u64) -> (a: u64)
    ensures
        a == alias_from(given, random),
        given is None ==> a <= MAX_ALIAS,
{
    match given {
        Some(a) => a,
        None => {
            assert(random & 0x3fff_ffff_ffff_ffffu64 <= 0x3fff_ffff_ffff_ffffu64) by (bit_vector);
            random & MAX_ALIAS
        },
    }
}

/// A step of the generator that payloads are made with.
pub open spec fn next_seed(s: u64) -> u64 {
    let a = s ^ (s << 13u64);
    let b = a ^ (a >> 7u64);
    b ^ (b << 17u64)
}

/// The state of the generator after `n` steps.
pub open spec fn seed_after(n: nat) -> u64
    decreases n,
{
    if n == 0 {
        0x123456789abcdef0
    } else {
        next_seed(seed_after((n - 1) as nat))
    }
}

/// A payload: the lowest byte of each state of the generator.
pub open spec fn payload(size: nat) -> Seq<u8> {
    Seq::new(size, |i: int| (seed_after((i + 1) as nat) & 0xff) as u8)
}

/// Makes a payload of a size; the same size always gives the same payload.
pub fn generate_payload(size: usize) -> (r: Vec<u8>)
    ensures
        r@ == payload(size as nat),
{
    let mut r: Vec<u8> = Vec::new();
    let mut seed: u64 = 0x123456789abcdef0;
    let mut i: usize = 0;
    while i < size
        invariant
            i <= size,
            seed == seed_after(i as nat),
            r@.len() == i,
            forall|j: int| 0 <= j < i ==> r@[j] == (seed_after((j + 1) as nat) & 0xff) as u8,
        decreases size - i,
    {
        let a: u64 = seed ^ (seed << 13u64);
        let b: u64 = a ^ (a >> 7u64);
        seed = b ^ (b << 17u64);
        assert(seed == seed_after((i + 1) as nat));
        r.push((seed & 0xff) as u8);
        i = i + 1;
    }
    assert(r@ =~= payload(size as nat));
    r
}

/// Payloads are reproducible: a shorter one is the start of a longer one.
pub proof fn law_payloads_agree(short: nat, long: nat)
    requires
        short <= long,
    ensures
        payload(long).take(short as int) == payload(short),
        payload(long).len() == long,
{
    assert(payload(long).take(short as int) =~= payload(short));
}

/// What is sent next.
#[derive(Debug, Clone, Copy, PartialEq, Eq, Structural)]
pub enum SendStep {
    /// A group starts; where objects go on streams, its stream is opened.
    OpenGroup { group_id: u64 },
    Object {
        group_id: u64,
        object_id: u64,
        /// The object that was sent before it on its stream.
        previous: Option<u64>,
        /// The object's number, counted over all groups.
        total: u64,
    },
    /// A group is complete; its stream is flushed.
    CloseGroup { group_id: u64 },
    Done,
}

/// Where a publisher stands in its groups.
#[derive(Debug, Clone, Copy, PartialEq, Eq, Structural)]
pub struct Schedule {
    pub group_count: u64,
    pub objects_per_group: u64,
    pub group_id: u64,
    pub object_id: u64,
    pub in_group: bool,
}

impl Schedule {
    pub open spec fn wf(self) -> bool {
        &&& self.group_count * self.objects_per_group <= u64::MAX
        &&& self.group_id <= self.group_count
        &&& self.object_id <= self.objects_per_group
        &&& self.in_group ==> self.group_id < self.group_count
        &&& !self.in_group ==> self.object_id == 0
    }

    pub fn new(group_count: u64, objects_per_group: u64) -> (s: Self)
        requires
            group_count * objects_per_group <= u64::MAX,
        ensures
            s.wf(),
            s == (Schedule {
                group_count,
                objects_per_group,
                group_id: 0,
                object_id: 0,
                in_group: false,
            }),
    {
        Schedule { group_count, objects_per_group, group_id: 0, object_id: 0, in_group: false }
    }

    /// What is sent next.
    pub open spec fn upcoming(self) -> SendStep {
        if !self.in_group {
            if self.group_id < self.group_count {
                SendStep::OpenGroup { group_id: self.group_id }
            } else {
                SendStep::Done
            }
        } else if self.object_id < self.objects_per_group {
            SendStep::Object {
                group_id: self.group_id,
                object_id: self.object_id,
                previous: if self.object_id == 0 {
                    None
                } else {
                    Some((self.object_id - 1) as u64)
                },
                total: (self.group_id * self.objects_per_group + self.object_id) as u64,
            }
        } else {
            SendStep::CloseGroup { group_id: self.group_id }
        }
    }

    /// Where the publisher stands after that.
    pub open spec fn advanced(self) -> Schedule {
        match self.upcoming() {
            SendStep::OpenGroup { .. } => Schedule { in_group: true, ..self },
            SendStep::Object { .. } => Schedule {
                object_id: (self.object_id + 1) as u64,
                ..self
            },
            SendStep::CloseGroup { .. } => Schedule {
                in_group: false,
                group_id: (self.group_id + 1) as u64,
                object_id: 0,
                ..self
            },
            SendStep::Done => self,
        }
    }

    /// Tells what is sent next, and moves on.
    pub fn next_step(&mut self) -> (step: SendStep)
        requires
            old(self).wf(),
        ensures
            final(self).wf(),
            step == old(self).upcoming(),
            *final(self) == old(self).advanced(),
    {
        if !self.in_group {
            if self.group_id < self.group_count {
                self.in_group = true;
                return SendStep::OpenGroup { group_id: self.group_id };
            }
            return SendStep::Done;
        }
        let group_id: u64 = self.group_id;
        let object_id: u64 = self.object_id;
        if object_id < self.objects_per_group {
            proof {
                let (g, c, n) = (
                    self.group_id as int,
                    self.group_count as int,
                    self.objects_per_group as int,
                );
                assert(g * n + n <= c * n) by (nonlinear_arith)
                    requires
                        g + 1 <= c,
                        n >= 0,
                ;
                assert(g * n >= 0) by (nonlinear_arith)
                    requires
                        g >= 0,
                        n >= 0,
                ;
            }
            let total: u64 = group_id * self.objects_per_group + object_id;
            let previous: Option<u64> = if object_id == 0 {
                None
            } else {
                Some(object_id - 1)
            };
            self.object_id = object_id + 1;
            return SendStep::Object { group_id, object_id, previous, total };
        }
        self.in_group = false;
        self.group_id = group_id + 1;
        self.object_id = 0;
        SendStep::CloseGroup { group_id }
    }
}

/// When an object is due, in milliseconds from the start: each is one interval later than the one
/// before it.
pub fn due_ms(interval_ms: u64, total: u64) -> (ms: u128)
    ensures
        ms == interval_ms * total,
{
    proof {
        assert(0 <= interval_ms * total <= 0xffff_ffff_ffff_ffff * 0xffff_ffff_ffff_ffff)
            by (nonlinear_arith)
            requires
                0 <= interval_ms <= 0xffff_ffff_ffff_ffff,
                0 <= total <= 0xffff_ffff_ffff_ffff,
        ;
    }
    interval_ms as u128 * total as u128
}

/// Objects are numbered over the groups without a gap: the object that comes after another has the
/// next number, in the same group or as the first of the next. So tracks that start together and
/// share the interval and the size of their groups stay in step.
pub proof fn law_schedule_has_no_gap(s: Schedule)
    requires
        s.wf(),
        s.upcoming() is Object,
    ensures
        ({
            let next = s.advanced();
            let total = s.upcoming()->total;
            &&& s.object_id + 1 < s.objects_per_group ==> next.upcoming() is Object
                && next.upcoming()->total == total + 1 && next.upcoming()->Object_group_id
                == s.group_id
            &&& s.object_id + 1 == s.objects_per_group && s.group_id + 1 < s.group_count ==> {
                let first = next.advanced().advanced();
                &&& next.upcoming() is CloseGroup
                &&& next.advanced().upcoming() is OpenGroup
                &&& first.upcoming() is Object
                &&& first.upcoming()->total == total + 1
                &&& first.upcoming()->Object_group_id == s.group_id + 1
                &&& first.upcoming()->Object_object_id == 0
            }
            &&& s.object_id + 1 == s.objects_per_group && s.group_id + 1 == s.group_count
                ==> next.advanced().upcoming() is Done
        }),
{
    let (g, c, n) = (s.group_id as int, s.group_count as int, s.objects_per_group as int);
    assert(g * n + n <= c * n) by (nonlinear_arith)
        requires
            g + 1 <= c,
            n >= 0,
    ;
    assert(g * n >= 0) by (nonlinear_arith)
        requires
            g >= 0,
            n >= 0,
    ;
    assert((g + 1) * n == g * n + n) by (nonlinear_arith);
    if g + 2 <= c {
        assert((g + 1) * n + n <= c * n) by (nonlinear_arith)
            requires
                g + 2 <= c,
                n >= 0,
        ;
    }
}

/// The payload of an object: the first of a group is the I-frame, the others are P-frames.
pub fn frame_size(object_id: u64, i_size: usize, p_size: usize) -> (n: usize)
    ensures
        n == if object_id == 0 {
            i_size
        } else {
            p_size
        },
{
    if object_id == 0 {
        i_size
    } else {
        p_size
    }
}

/// The header of a group's stream.
pub fn group_header(track_alias: u64, group_id: u64, publisher_priority: u8) -> (h: HeaderInfo)
    ensures
        h == (HeaderInfo::Subgroup {
            header: SubgroupHeader {
                track_alias,
                group_id,
                subgroup_id: Some(1),
                publisher_priority: Some(publisher_priority),
                has_extensions: true,
                contains_end_of_group: true,
            },
        }),
{
    HeaderInfo::Subgroup {
        header: SubgroupHeader {
            track_alias,
            group_id,
            subgroup_id: Some(1),
            publisher_priority: Some(publisher_priority),
            has_extensions: true,
            contains_end_of_group: true,
        },
    }
}

/// An object of a group's stream. On the stream it belongs to the subgroup and has the priority that
/// the header says; the object itself is labelled with its group and with priority 1.
pub fn stream_object(track_alias: u64, group_id: u64, object_id: u64) -> (o: Object)
    ensures
        o == (Object {
            track_alias,
            location: Location { group: group_id, object: object_id },
            publisher_priority: 1,
            subgroup_id: Some(group_id),
        }),
{
    Object {
        track_alias,
        location: Location::new(group_id, object_id),
        publisher_priority: 1,
        subgroup_id: Some(group_id),
    }
}

/// An object that goes out as a datagram.
pub fn datagram_object(
    track_alias: u64,
    group_id: u64,
    object_id: u64,
    publisher_priority: u8,
) -> (o: Object)
    ensures
        o == (Object {
            track_alias,
            location: Location { group: group_id, object: object_id },
            publisher_priority,
            subgroup_id: None,
        }),
{
    Object {
        track_alias,
        location: Location::new(group_id, object_id),
        publisher_priority,
        subgroup_id: None,
    }
}

/// The announcement of a track that is forwarded from its start.
pub open spec fn publish_of(request_id: u64, track: TrackName, track_alias: u64, order: GroupOrder) ->
    control::ControlView {
    control::ControlView::Publish {
        request_id,
        track,
        track_alias,
        parameters: seq![
            MessageParameter::GroupOrder { order },
            MessageParameter::LargestObject { location: Location { group: 0, object: 0 } },
            MessageParameter::Forward { forward: true },
        ],
        extensions: Seq::empty(),
    }
}

/// Announces a track.
pub fn publish_message(
    request_id: u64,
    track: &FullTrackName,
    track_alias: u64,
    order: GroupOrder,
) -> (m: ControlMessage)
    ensures
        m@ == publish_of(request_id, track@, track_alias, order),
{
    let mut parameters: Vec<MessageParameter> = Vec::new();
    parameters.push(MessageParameter::GroupOrder { order });
    parameters.push(MessageParameter::LargestObject { location: Location::new(0, 0) });
    parameters.push(MessageParameter::Forward { forward: true });
    let m = ControlMessage::Publish(
        Publish {
            request_id,
            track: track.copy(),
            track_alias,
            parameters,
            track_extensions: Vec::new(),
        },
    );
    assert(m@ =~= publish_of(request_id, track@, track_alias, order));
    m
}

/// The announcement of a run: request 0 announces the track.
pub fn run(config: &PublishConfig) -> (m: ControlMessage)
    requires
        names::path_fits(config.namespace@),
    ensures
        m@ == publish_of(
            0,
            names::track_at(config.namespace@, config.track_name@),
            config.track_alias,
            config.group_order,
        ),
{
    let name = FullTrackName::from_path(config.namespace.as_str(), config.track_name.as_str());
    publish_message(0, &name, config.track_alias, config.group_order)
}

/// Why nothing is published.
#[derive(Debug, Clone, Copy, PartialEq, Eq, Structural)]
pub enum PublishFailure {
    /// The acceptance is for another request.
    OtherRequest { expected: u64, got: u64 },
    /// A message came that accepts nothing.
    UnexpectedMessage,
    /// The control stream has ended.
    StreamEnded,
}

/// Reads the reply to the announcement of a track.
pub fn check_publish_reply(reply: &Result<ControlMessage, ()>) -> (r: Result<(), PublishFailure>)
    ensures
        r == match *reply {
            Ok(ControlMessage::PublishOk { .. }) => Ok::<(), PublishFailure>(()),
            Ok(_) => Err(PublishFailure::UnexpectedMessage),
            Err(_) => Err(PublishFailure::StreamEnded),
        },
{
    match reply {
        Ok(ControlMessage::PublishOk { .. }) => Ok(()),
        Ok(_) => Err(PublishFailure::UnexpectedMessage),
        Err(_) => Err(PublishFailure::StreamEnded),
    }
}

/// Reads the reply to the announcement of a namespace, which must accept that very request.
pub fn check_namespace_reply(expected: u64, reply: &Result<ControlMessage, ()>) -> (r: Result<
    (),
    PublishFailure,
>)
    ensures
        r == match *reply {
            Ok(ControlMessage::RequestOk { request_id }) => if request_id == expected {
                Ok::<(), PublishFailure>(())
            } else {
                Err(PublishFailure::OtherRequest { expected, got: request_id })
            },
            Ok(_) => Err(PublishFailure::UnexpectedMessage),
            Err(_) => Err(PublishFailure::StreamEnded),
        },
{
    match reply {
        Ok(ControlMessage::RequestOk { request_id }) => if *request_id == expected {
            Ok(())
        } else {
            Err(PublishFailure::OtherRequest { expected, got: *request_id })
        },
        Ok(_) => Err(PublishFailure::UnexpectedMessage),
        Err(_) => Err(PublishFailure::StreamEnded),
    }
}

/// The announcements of several tracks of a namespace: request `i` announces track `i` under the
/// alias `i + 1`.
pub fn run_multi(config: &PublishMultiConfig) -> (r: Option<Vec<ControlMessage>>)
    requires
        names::path_fits(config.namespace@),
        config.tracks@.len() < u64::MAX,
    ensures
        r is None <==> config.tracks@.len() == 0,
        r matches Some(ms) ==> {
            &&& ms@.len() == config.tracks@.len()
            &&& forall|i: int|
                0 <= i < ms@.len() ==> (#[trigger] ms@[i])@ == publish_of(
                    i as u64,
                    names::track_at(config.namespace@, config.tracks@[i].name@),
                    (i + 1) as u64,
                    GroupOrder::Ascending,
                )
        },
{
    if config.tracks.len() == 0 {
        return None;
    }
    let mut ms: Vec<ControlMessage> = Vec::new();
    let mut i: usize = 0;
    while i < config.tracks.len()
        invariant
            names::path_fits(config.namespace@),
            config.tracks@.len() < u64::MAX,
            i <= config.tracks@.len(),
            ms@.len() == i,
            forall|j: int|
                0 <= j < i ==> (#[trigger] ms@[j])@ == publish_of(
                    j as u64,
                    names::track_at(config.namespace@, config.tracks@[j].name@),
                    (j + 1) as u64,
                    GroupOrder::Ascending,
                ),
        decreases config.tracks@.len() - i,
    {
        let name = FullTrackName::from_path(
            config.namespace.as_str(),
            config.tracks[i].name.as_str(),
        );
        ms.push(publish_message(i as u64, &name, i as u64 + 1, GroupOrder::Ascending));
        i = i + 1;
    }
    Some(ms)
}

/// A publisher that serves every subscription to its namespace.
#[derive(Debug, Clone, Copy, PartialEq, Eq, Structural)]
pub struct NamespacePublisher {
    /// The alias of the next track that is subscribed to.
    pub next_alias: u64,
}

/// What a namespace publisher does with a message.
#[derive(Debug)]
pub enum NamespaceAction {
    /// The subscription is accepted, and data is sent under the alias.
    Serve { reply: ControlMessage, track_alias: u64 },
    Ignore,
    Stop,
}

impl NamespacePublisher {
    /// Aliases start at 1.
    pub fn new() -> (p: Self)
        ensures
            p.next_alias == 1,
    {
        NamespacePublisher { next_alias: 1 }
    }

    /// Takes in a message: each subscription gets the next alias, and any other message is passed
    /// over.
    pub fn run_namespace(&mut self, msg: &Result<ControlMessage, ()>) -> (a: NamespaceAction)
        requires
            old(self).next_alias < u64::MAX,
        ensures
            match *msg {
                Ok(ControlMessage::Subscribe(m)) => {
                    let alias = old(self).next_alias;
                    &&& final(self).next_alias == alias + 1
                    &&& a matches NamespaceAction::Serve { reply, track_alias } && track_alias
                        == alias && reply@ == control::ControlView::SubscribeOk(
                        control::SubscribeOkView {
                            request_id: m.request_id,
                            track_alias: alias,
                            parameters: Seq::empty(),
                            extensions: Seq::empty(),
                        },
                    )
                },
                Ok(_) => a is Ignore && *final(self) == *old(self),
                Err(_) => a is Stop && *final(self) == *old(self),
            },
    {
        match msg {
            Ok(ControlMessage::Subscribe(m)) => {
                let track_alias: u64 = self.next_alias;
                self.next_alias = track_alias + 1;
                let ok = SubscribeOk {
                    request_id: m.request_id,
                    track_alias,
                    subscribe_parameters: Vec::new(),
                    track_extensions: Vec::new(),
                };
                assert(ok@.parameters =~= Seq::<MessageParameter>::empty());
                assert(ok@.extensions =~= Seq::<control::TrackExtension>::empty());
                NamespaceAction::Serve { reply: ControlMessage::SubscribeOk(ok), track_alias }
            },
            Ok(_) => NamespaceAction::Ignore,
            Err(_) => NamespaceAction::Stop,
        }
    }
}

/// An alias that is given is used as it is; one that is made of a random number is that number's
/// remainder, so it fits and every one that fits can come.
pub proof fn law_aliases_fit(given: u64, random: u64)
    ensures
        alias_from(Some(given), random) == given,
        alias_from(None, random) == random % 0x4000_0000_0000_0000,
        alias_from(None, random) <= MAX_ALIAS,
        random <= MAX_ALIAS ==> alias_from(None, random) == random,
{
    assert(random & 0x3fff_ffff_ffff_ffffu64 == random % 0x4000_0000_0000_0000u64) by (bit_vector);
}

/// The generator of payloads loses nothing: states that differ keep differing, and it never comes to
/// rest at zero.
pub proof fn law_generator_loses_nothing(s: u64, t: u64)
    ensures
        next_seed(s) == next_seed(t) <==> s == t,
        s != 0 ==> next_seed(s) != 0,
{
    lemma_generator_step(s, t);
    lemma_generator_step(s, 0);
    assert(0u64 ^ (0u64 << 13u64) == 0) by (bit_vector);
    assert(0u64 ^ (0u64 >> 7u64) == 0) by (bit_vector);
    assert(0u64 ^ (0u64 << 17u64) == 0) by (bit_vector);
}

proof fn lemma_generator_step(s: u64, t: u64)
    ensures
        next_seed(s) == next_seed(t) ==> s == t,
{
    let a = s ^ (s << 13u64);
    let c = t ^ (t << 13u64);
    let b = a ^ (a >> 7u64);
    let d = c ^ (c >> 7u64);
    assert((s ^ (s << 13u64)) == (t ^ (t << 13u64)) ==> s == t) by (bit_vector);
    assert((a ^ (a >> 7u64)) == (c ^ (c >> 7u64)) ==> a == c) by (bit_vector);
    assert((b ^ (b << 17u64)) == (d ^ (d << 17u64)) ==> b == d) by (bit_vector);
}

/// A schedule starts with the first group, tells of each object which one came before it on its
/// stream, and closes a group only when all its objects were sent. Every object stands at the
/// schedule's own place, and its number leaves back group and place.
pub proof fn law_schedule_tells_where_it_stands(s: Schedule)
    requires
        s.wf(),
    ensures
        s.upcoming() matches SendStep::Object { group_id, object_id, previous, total } ==> {
            &&& group_id == s.group_id && object_id == s.object_id
            &&& previous is None <==> object_id == 0
            &&& previous matches Some(p) ==> p + 1 == object_id
            &&& object_id < s.objects_per_group
            &&& total / s.objects_per_group == group_id && total % s.objects_per_group == object_id
            &&& s.advanced().object_id == object_id + 1 && s.advanced().group_id == group_id
                && s.advanced().in_group
        },
        s.upcoming() matches SendStep::OpenGroup { group_id } ==> group_id == s.group_id && group_id
            < s.group_count && !s.in_group && s.advanced().in_group && s.advanced().object_id == 0
            && s.advanced().group_id == group_id,
        s.upcoming() matches SendStep::CloseGroup { group_id } ==> group_id == s.group_id
            && s.object_id == s.objects_per_group && !s.advanced().in_group && s.advanced().group_id
            == group_id + 1 && s.advanced().object_id == 0,
        s.upcoming() is Done <==> s.group_id == s.group_count && !s.in_group,
        s.upcoming() is Done ==> s.advanced() == s,
        s.advanced().wf(),
        s.advanced().group_count == s.group_count && s.advanced().objects_per_group
            == s.objects_per_group,
{
    if s.upcoming() is Object {
        let (g, c, n, o) = (
            s.group_id as int,
            s.group_count as int,
            s.objects_per_group as int,
            s.object_id as int,
        );
        assert(g * n + n <= c * n) by (nonlinear_arith)
            requires
                g + 1 <= c,
                n >= 0,
        ;
        assert(g * n >= 0) by (nonlinear_arith)
            requires
                g >= 0,
                n >= 0,
        ;
        vstd::arithmetic::div_mod::lemma_fundamental_div_mod_converse(g * n + o, n, g, o);
    }
}

/// The announcement of a track has it forwarded from its start, in the order asked for, under the
/// alias under which its objects will come.
pub proof fn law_announcements_say_what_is_published(
    request_id: u64,
    track: TrackName,
    track_alias: u64,
    order: GroupOrder,
)
    ensures
        publish_of(request_id, track, track_alias, order) matches control::ControlView::Publish {
            request_id: r,
            track: t,
            track_alias: a,
            parameters,
            extensions,
        } && {
            &&& r == request_id && t == track && a == track_alias
            &&& parameters.contains(MessageParameter::GroupOrder { order })
            &&& parameters.contains(MessageParameter::Forward { forward: true })
            &&& parameters.contains(
                MessageParameter::LargestObject { location: Location { group: 0, object: 0 } },
            )
            &&& extensions.len() == 0
        },
{
    let ps = seq![
        MessageParameter::GroupOrder { order },
        MessageParameter::LargestObject { location: Location { group: 0, object: 0 } },
        MessageParameter::Forward { forward: true },
    ];
    assert(ps[0] == (MessageParameter::GroupOrder { order }));
    assert(ps[1] == (MessageParameter::LargestObject {
        location: Location { group: 0, object: 0 },
    }));
    assert(ps[2] == (MessageParameter::Forward { forward: true }));
}

} // verus!
