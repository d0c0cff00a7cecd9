//! Control messages as plain values: what the relay and the client read of them and write into
//! them.
use crate::location::Location;
use vstd::prelude::*;

verus! {

#[derive(Debug, Clone, Copy, PartialEq, Eq, Structural)]
pub enum GroupOrder {
    Original,
    Ascending,
    Descending,
}

#[derive(Debug, Clone, Copy, PartialEq, Eq, Structural)]
pub enum FilterType {
    NextGroupStart,
    LatestObject,
    AbsoluteStart,
    AbsoluteRange,
}

#[derive(Debug, Clone, Copy, PartialEq, Eq, Structural)]
pub enum FetchType {
    Standalone,
    RelativeFetch,
    AbsoluteFetch,
}

#[derive(Debug, Clone, Copy, PartialEq, Eq, Structural)]
pub enum RequestErrorCode {
    InternalError,
    Unauthorized,
    Timeout,
    NotSupported,
    MalformedAuthToken,
    ExpiredAuthToken,
    DoesNotExist,
    InvalidRange,
    MalformedTrack,
    DuplicateSubscription,
    Uninterested,
    PrefixOverlap,
    InvalidJoiningRequestId,
}

/// Why a session ends.
#[derive(Debug, Clone, Copy, PartialEq, Eq, Structural)]
pub enum TerminationCode {
    NoError,
    InternalError,
    Unauthorized,
    ProtocolViolation,
    InvalidRequestID,
    DuplicateTrackAlias,
    KeyValueFormattingError,
    TooManyRequests,
    InvalidPath,
    MalformedPath,
    GoawayTimeout,
    ControlMessageTimeout,
    DataStreamTimeout,
    AuthTokenCacheOverflow,
    DuplicateAuthTokenAlias,
    VersionNegotiationFailed,
    MalformedAuthToken,
    UnknownAuthTokenAlias,
    ExpiredAuthToken,
    InvalidAuthority,
    MalformedAuthority,
}

impl TerminationCode {
    /// The code on the wire.
    pub open spec fn code(self) -> u32 {
        match self {
            TerminationCode::NoError => 0x0,
            TerminationCode::InternalError => 0x1,
            TerminationCode::Unauthorized => 0x2,
            TerminationCode::ProtocolViolation => 0x3,
            TerminationCode::InvalidRequestID => 0x4,
            TerminationCode::DuplicateTrackAlias => 0x5,
            TerminationCode::KeyValueFormattingError => 0x6,
            TerminationCode::TooManyRequests => 0x7,
            TerminationCode::InvalidPath => 0x8,
            TerminationCode::MalformedPath => 0x9,
            TerminationCode::GoawayTimeout => 0x10,
            TerminationCode::ControlMessageTimeout => 0x11,
            TerminationCode::DataStreamTimeout => 0x12,
            TerminationCode::AuthTokenCacheOverflow => 0x13,
            TerminationCode::DuplicateAuthTokenAlias => 0x14,
            TerminationCode::VersionNegotiationFailed => 0x15,
            TerminationCode::MalformedAuthToken => 0x16,
            TerminationCode::UnknownAuthTokenAlias => 0x17,
            TerminationCode::ExpiredAuthToken => 0x18,
            TerminationCode::InvalidAuthority => 0x19,
            TerminationCode::MalformedAuthority => 0x1a,
        }
    }

    pub fn to_u32(&self) -> (n: u32)
        ensures
            n == self.code(),
    {
        match self {
            TerminationCode::NoError => 0x0,
            TerminationCode::InternalError => 0x1,
            TerminationCode::Unauthorized => 0x2,
            TerminationCode::ProtocolViolation => 0x3,
            TerminationCode::InvalidRequestID => 0x4,
            TerminationCode::DuplicateTrackAlias => 0x5,
            TerminationCode::KeyValueFormattingError => 0x6,
            TerminationCode::TooManyRequests => 0x7,
            TerminationCode::InvalidPath => 0x8,
            TerminationCode::MalformedPath => 0x9,
            TerminationCode::GoawayTimeout => 0x10,
            TerminationCode::ControlMessageTimeout => 0x11,
            TerminationCode::DataStreamTimeout => 0x12,
            TerminationCode::AuthTokenCacheOverflow => 0x13,
            TerminationCode::DuplicateAuthTokenAlias => 0x14,
            TerminationCode::VersionNegotiationFailed => 0x15,
            TerminationCode::MalformedAuthToken => 0x16,
            TerminationCode::UnknownAuthTokenAlias => 0x17,
            TerminationCode::ExpiredAuthToken => 0x18,
            TerminationCode::InvalidAuthority => 0x19,
            TerminationCode::MalformedAuthority => 0x1a,
        }
    }
}

#[derive(Debug, Clone, Copy, PartialEq, Eq, Structural)]
pub enum PublishDoneStatusCode {
    InternalError,
    Unauthorized,
    TrackEnded,
    SubscriptionEnded,
    GoingAway,
    Expired,
    TooFarBehind,
    UpdateFailed,
    MalformedTrack,
}

/// A parameter of a control message. An authorization token stands here by the number under
/// which its holder keeps it.
#[derive(Debug, Clone, Copy, PartialEq, Eq, Structural)]
pub enum MessageParameter {
    DeliveryTimeout { timeout: u64 },
    AuthorizationToken { token: u64 },
    Expires { expires: u64 },
    LargestObject { location: Location },
    Forward { forward: bool },
    SubscriberPriority { priority: u8 },
    GroupOrder { order: GroupOrder },
    SubscriptionFilter {
        filter_type: FilterType,
        start_location: Option<Location>,
        end_group: Option<u64>,
    },
    NewGroupRequest { group: u64 },
}

/// The types of parameters.
#[derive(Debug, Clone, Copy, PartialEq, Eq, Structural)]
pub enum MessageParameterType {
    DeliveryTimeout,
    AuthorizationToken,
    Expires,
    LargestObject,
    Forward,
    SubscriberPriority,
    GroupOrder,
    SubscriptionFilter,
    NewGroupRequest,
}

impl MessageParameter {
    pub open spec fn kind(self) -> MessageParameterType {
        match self {
            MessageParameter::DeliveryTimeout { .. } => MessageParameterType::DeliveryTimeout,
            MessageParameter::AuthorizationToken { .. } => MessageParameterType::AuthorizationToken,
            MessageParameter::Expires { .. } => MessageParameterType::Expires,
            MessageParameter::LargestObject { .. } => MessageParameterType::LargestObject,
            MessageParameter::Forward { .. } => MessageParameterType::Forward,
            MessageParameter::SubscriberPriority { .. } => MessageParameterType::SubscriberPriority,
            MessageParameter::GroupOrder { .. } => MessageParameterType::GroupOrder,
            MessageParameter::SubscriptionFilter { .. } => MessageParameterType::SubscriptionFilter,
            MessageParameter::NewGroupRequest { .. } => MessageParameterType::NewGroupRequest,
        }
    }

    pub fn param_type(&self) -> (t: MessageParameterType)
        ensures
            t == self.kind(),
    {
        match self {
            MessageParameter::DeliveryTimeout { .. } => MessageParameterType::DeliveryTimeout,
            MessageParameter::AuthorizationToken { .. } => MessageParameterType::AuthorizationToken,
            MessageParameter::Expires { .. } => MessageParameterType::Expires,
            MessageParameter::LargestObject { .. } => MessageParameterType::LargestObject,
            MessageParameter::Forward { .. } => MessageParameterType::Forward,
            MessageParameter::SubscriberPriority { .. } => MessageParameterType::SubscriberPriority,
            MessageParameter::GroupOrder { .. } => MessageParameterType::GroupOrder,
            MessageParameter::SubscriptionFilter { .. } => MessageParameterType::SubscriptionFilter,
            MessageParameter::NewGroupRequest { .. } => MessageParameterType::NewGroupRequest,
        }
    }
}

/// The first parameter of type `t` in a list.
pub open spec fn first_of(ps: Seq<MessageParameter>, t: MessageParameterType) -> Option<
    MessageParameter,
>
    decreases ps.len(),
{
    if ps.len() == 0 {
        None
    } else if ps[0].kind() == t {
        Some(ps[0])
    } else {
        first_of(ps.drop_first(), t)
    }
}

proof fn lemma_first_of_skip(ps: Seq<MessageParameter>, t: MessageParameterType, i: int)
    requires
        0 <= i <= ps.len(),
        forall|j: int| 0 <= j < i ==> (#[trigger] ps[j]).kind() != t,
    ensures
        first_of(ps, t) == first_of(ps.skip(i), t),
    decreases i,
{
    if i == 0 {
        assert(ps.skip(0) =~= ps);
    } else {
        assert(ps[0].kind() != t);
        assert forall|j: int| 0 <= j < i - 1 implies (#[trigger] ps.drop_first()[j]).kind() != t by {
            assert(ps.drop_first()[j] == ps[j + 1]);
        }
        lemma_first_of_skip(ps.drop_first(), t, i - 1);
        assert(ps.drop_first().skip(i - 1) =~= ps.skip(i));
    }
}

/// What [`first_of`] finds, by position.
pub proof fn lemma_first_of(ps: Seq<MessageParameter>, t: MessageParameterType, i: int)
    requires
        0 <= i < ps.len(),
        ps[i].kind() == t,
        forall|j: int| 0 <= j < i ==> (#[trigger] ps[j]).kind() != t,
    ensures
        first_of(ps, t) == Some(ps[i]),
{
    lemma_first_of_skip(ps, t, i);
    assert(ps.skip(i)[0] == ps[i]);
}

/// No parameter of type `t` stands in the list.
pub proof fn lemma_first_of_none(ps: Seq<MessageParameter>, t: MessageParameterType)
    requires
        forall|j: int| 0 <= j < ps.len() ==> (#[trigger] ps[j]).kind() != t,
    ensures
        first_of(ps, t) is None,
{
    lemma_first_of_skip(ps, t, ps.len() as int);
}

pub fn find_param(ps: &Vec<MessageParameter>, t: MessageParameterType) -> (r: Option<
    MessageParameter,
>)
    ensures
        r == first_of(ps@, t),
        r matches Some(p) ==> p.kind() == t,
{
    let mut i: usize = 0;
    while i < ps.len()
        invariant
            i <= ps@.len(),
            forall|j: int| 0 <= j < i ==> (#[trigger] ps@[j]).kind() != t,
        decreases ps@.len() - i,
    {
        if ps[i].param_type() == t {
            proof {
                lemma_first_of(ps@, t, i as int);
            }
            return Some(ps[i]);
        }
        i = i + 1;
    }
    proof {
        lemma_first_of_none(ps@, t);
    }
    None
}

/// A list with `p` set: the first parameter of its type is replaced, and where there is none `p`
/// goes to the end.
pub open spec fn with_param(ps: Seq<MessageParameter>, p: MessageParameter) -> Seq<MessageParameter>
    decreases ps.len(),
{
    if ps.len() == 0 {
        seq![p]
    } else if ps[0].kind() == p.kind() {
        seq![p] + ps.drop_first()
    } else {
        seq![ps[0]] + with_param(ps.drop_first(), p)
    }
}

/// A list after a series of updates, each set in turn.
pub open spec fn with_updates(ps: Seq<MessageParameter>, us: Seq<MessageParameter>) -> Seq<
    MessageParameter,
>
    decreases us.len(),
{
    if us.len() == 0 {
        ps
    } else {
        with_updates(with_param(ps, us[0]), us.drop_first())
    }
}

proof fn lemma_with_param_at(ps: Seq<MessageParameter>, p: MessageParameter, i: int)
    requires
        0 <= i < ps.len(),
        ps[i].kind() == p.kind(),
        forall|j: int| 0 <= j < i ==> (#[trigger] ps[j]).kind() != p.kind(),
    ensures
        with_param(ps, p) == ps.update(i, p),
    decreases i,
{
    if i == 0 {
        assert(seq![p] + ps.drop_first() =~= ps.update(0, p));
    } else {
        assert(ps[0].kind() != p.kind());
        let r = ps.drop_first();
        assert(r[i - 1] == ps[i]);
        assert forall|j: int| 0 <= j < i - 1 implies (#[trigger] r[j]).kind() != p.kind() by {
            assert(r[j] == ps[j + 1]);
        }
        lemma_with_param_at(r, p, i - 1);
        assert(seq![ps[0]] + r.update(i - 1, p) =~= ps.update(i, p));
    }
}

proof fn lemma_with_param_end(ps: Seq<MessageParameter>, p: MessageParameter)
    requires
        forall|j: int| 0 <= j < ps.len() ==> (#[trigger] ps[j]).kind() != p.kind(),
    ensures
        with_param(ps, p) == ps.push(p),
    decreases ps.len(),
{
    if ps.len() == 0 {
        assert(seq![p] =~= ps.push(p));
    } else {
        assert(ps[0].kind() != p.kind());
        let r = ps.drop_first();
        assert forall|j: int| 0 <= j < r.len() implies (#[trigger] r[j]).kind() != p.kind() by {
            assert(r[j] == ps[j + 1]);
        }
        lemma_with_param_end(r, p);
        assert(seq![ps[0]] + r.push(p) =~= ps.push(p));
    }
}

/// Sets `param`, replacing the first parameter of the same type or going to the end.
pub fn set_param(ps: &mut Vec<MessageParameter>, param: MessageParameter)
    ensures
        final(ps)@ == with_param(old(ps)@, param),
{
    let mut i: usize = 0;
    while i < ps.len()
        invariant
            i <= ps@.len(),
            ps@ == old(ps)@,
            forall|j: int| 0 <= j < i ==> (#[trigger] ps@[j]).kind() != param.kind(),
        decreases ps@.len() - i,
    {
        if ps[i].param_type() == param.param_type() {
            proof {
                lemma_with_param_at(ps@, param, i as int);
            }
            ps.set(i, param);
            return;
        }
        i = i + 1;
    }
    proof {
        lemma_with_param_end(ps@, param);
    }
    ps.push(param);
}

/// Applies a series of updates to a parameter list: each replaces the first parameter of its
/// type or is added. What no update names stays as it is.
pub fn apply_message_parameter_update(
    current: &mut Vec<MessageParameter>,
    updates: &Vec<MessageParameter>,
)
    ensures
        final(current)@ == with_updates(old(current)@, updates@),
{
    let mut i: usize = 0;
    assert(updates@.skip(0) =~= updates@);
    while i < updates.len()
        invariant
            i <= updates@.len(),
            with_updates(current@, updates@.skip(i as int)) == with_updates(
                old(current)@,
                updates@,
            ),
        decreases updates@.len() - i,
    {
        assert(updates@.skip(i as int)[0] == updates@[i as int]);
        assert(updates@.skip(i as int).drop_first() =~= updates@.skip(i + 1));
        set_param(current, updates[i]);
        i = i + 1;
    }
    assert(updates@.skip(i as int).len() == 0);
}

pub proof fn lemma_first_of_with_param(
    ps: Seq<MessageParameter>,
    p: MessageParameter,
    t: MessageParameterType,
)
    ensures
        first_of(with_param(ps, p), t) == if t == p.kind() {
            Some(p)
        } else {
            first_of(ps, t)
        },
    decreases ps.len(),
{
    if ps.len() == 0 {
        let s = seq![p];
        assert(s.drop_first().len() == 0);
        reveal_with_fuel(first_of, 2);
    } else if ps[0].kind() == p.kind() {
        let s = seq![p] + ps.drop_first();
        assert(s.drop_first() =~= ps.drop_first());
    } else {
        let r = with_param(ps.drop_first(), p);
        let s = seq![ps[0]] + r;
        assert(s.drop_first() =~= r);
        lemma_first_of_with_param(ps.drop_first(), p, t);
    }
}

/// The value that an update leaves in force: the last update of a type decides, and a type that
/// no update names keeps its value.
pub open spec fn last_of(us: Seq<MessageParameter>, t: MessageParameterType) -> Option<
    MessageParameter,
>
    decreases us.len(),
{
    if us.len() == 0 {
        None
    } else if us.last().kind() == t {
        Some(us.last())
    } else {
        last_of(us.drop_last(), t)
    }
}

proof fn lemma_with_updates_push(
    ps: Seq<MessageParameter>,
    us: Seq<MessageParameter>,
    u: MessageParameter,
)
    ensures
        with_updates(ps, us.push(u)) == with_param(with_updates(ps, us), u),
    decreases us.len(),
{
    if us.len() == 0 {
        assert(us.push(u).drop_first().len() == 0);
        reveal_with_fuel(with_updates, 2);
    } else {
        assert(us.push(u).drop_first() =~= us.drop_first().push(u));
        assert(us.push(u)[0] == us[0]);
        lemma_with_updates_push(with_param(ps, us[0]), us.drop_first(), u);
    }
}

/// An update of parameters changes what it names and nothing else.
pub proof fn law_update_keeps_what_it_does_not_name(
    ps: Seq<MessageParameter>,
    us: Seq<MessageParameter>,
    t: MessageParameterType,
)
    ensures
        first_of(with_updates(ps, us), t) == (match last_of(us, t) {
            Some(u) => Some(u),
            None => first_of(ps, t),
        }),
    decreases us.len(),
{
    if us.len() > 0 {
        let init = us.drop_last();
        assert(init.push(us.last()) =~= us);
        lemma_with_updates_push(ps, init, us.last());
        lemma_first_of_with_param(with_updates(ps, init), us.last(), t);
        law_update_keeps_what_it_does_not_name(ps, init, t);
    }
}

/// A list with every parameter of type `t` taken out.
pub open spec fn without(ps: Seq<MessageParameter>, t: MessageParameterType) -> Seq<
    MessageParameter,
> {
    ps.filter(|p: MessageParameter| p.kind() != t)
}

/// Copies a list, leaving the parameters of type `t` out.
pub fn copy_without(ps: &Vec<MessageParameter>, t: MessageParameterType) -> (r: Vec<
    MessageParameter,
>)
    ensures
        r@ == without(ps@, t),
{
    let mut r: Vec<MessageParameter> = Vec::new();
    let mut i: usize = 0;
    let ghost keep = |p: MessageParameter| p.kind() != t;
    proof {
        reveal(Seq::filter);
    }
    assert(ps@.take(0).filter(keep) =~= Seq::<MessageParameter>::empty());
    while i < ps.len()
        invariant
            i <= ps@.len(),
            keep == (|p: MessageParameter| p.kind() != t),
            r@ == ps@.take(i as int).filter(keep),
        decreases ps@.len() - i,
    {
        proof {
            reveal(Seq::filter);
            assert(ps@.take(i + 1).drop_last() =~= ps@.take(i as int));
        }
        let p = ps[i];
        if p.param_type() != t {
            r.push(p);
        }
        i = i + 1;
    }
    assert(ps@.take(i as int) =~= ps@);
    r
}

pub fn copy_params(ps: &Vec<MessageParameter>) -> (r: Vec<MessageParameter>)
    ensures
        r@ == ps@,
{
    let mut r: Vec<MessageParameter> = Vec::new();
    let mut i: usize = 0;
    while i < ps.len()
        invariant
            i <= ps@.len(),
            r@ == ps@.take(i as int),
        decreases ps@.len() - i,
    {
        assert(ps@.take(i + 1) =~= ps@.take(i as int).push(ps@[i as int]));
        r.push(ps[i]);
        i = i + 1;
    }
    assert(ps@.take(i as int) =~= ps@);
    r
}

/// What is found of a type is its first parameter in the list, and nothing is found exactly where
/// the list holds none.
pub proof fn law_first_parameter_is_found(
    ps: Seq<MessageParameter>,
    t: MessageParameterType,
    k: int,
)
    requires
        0 <= k < ps.len(),
    ensures
        ps[k].kind() == t && (forall|j: int| 0 <= j < k ==> (#[trigger] ps[j]).kind() != t)
            ==> first_of(ps, t) == Some(ps[k]),
        first_of(ps, t) is None ==> ps[k].kind() != t,
        first_of(ps, t) matches Some(p) ==> p.kind() == t && ps.contains(p),
        (forall|j: int| 0 <= j < ps.len() ==> (#[trigger] ps[j]).kind() != t) ==> first_of(
            ps,
            t,
        ) is None,
{
    if ps[k].kind() == t && (forall|j: int| 0 <= j < k ==> (#[trigger] ps[j]).kind() != t) {
        lemma_first_of(ps, t, k);
    }
    if forall|j: int| 0 <= j < ps.len() ==> (#[trigger] ps[j]).kind() != t {
        lemma_first_of_none(ps, t);
    }
    lemma_first_of_found(ps, t);
}

proof fn lemma_first_of_found(ps: Seq<MessageParameter>, t: MessageParameterType)
    ensures
        first_of(ps, t) matches Some(p) ==> p.kind() == t && ps.contains(p),
        first_of(ps, t) is None ==> forall|j: int|
            0 <= j < ps.len() ==> (#[trigger] ps[j]).kind() != t,
    decreases ps.len(),
{
    if ps.len() > 0 {
        let r = ps.drop_first();
        lemma_first_of_found(r, t);
        if ps[0].kind() == t {
            assert(ps.contains(ps[0]));
        } else {
            if let Some(p) = first_of(r, t) {
                let j = choose|j: int| 0 <= j < r.len() && r[j] == p;
                assert(ps[j + 1] == p);
            } else {
                assert forall|j: int| 0 <= j < ps.len() implies (#[trigger] ps[j]).kind() != t by {
                    if j > 0 {
                        assert(r[j - 1] == ps[j]);
                    }
                }
            }
        }
    }
}

/// A parameter's type is the one whose name it has.
pub proof fn law_types_of_parameters(p: MessageParameter)
    ensures
        p.kind() is DeliveryTimeout <==> p is DeliveryTimeout,
        p.kind() is AuthorizationToken <==> p is AuthorizationToken,
        p.kind() is Expires <==> p is Expires,
        p.kind() is LargestObject <==> p is LargestObject,
        p.kind() is Forward <==> p is Forward,
        p.kind() is SubscriberPriority <==> p is SubscriberPriority,
        p.kind() is GroupOrder <==> p is GroupOrder,
        p.kind() is SubscriptionFilter <==> p is SubscriptionFilter,
        p.kind() is NewGroupRequest <==> p is NewGroupRequest,
{
}

/// The last parameter of a type in a series is the one with none of its type behind it.
pub proof fn law_last_parameter_decides(
    us: Seq<MessageParameter>,
    t: MessageParameterType,
    k: int,
)
    requires
        0 <= k < us.len(),
        us[k].kind() == t,
        forall|j: int| k < j < us.len() ==> (#[trigger] us[j]).kind() != t,
    ensures
        last_of(us, t) == Some(us[k]),
    decreases us.len(),
{
    if k < us.len() - 1 {
        assert(us[us.len() - 1].kind() != t);
        let init = us.drop_last();
        assert forall|j: int| k < j < init.len() implies (#[trigger] init[j]).kind() != t by {
            assert(init[j] == us[j]);
        }
        law_last_parameter_decides(init, t, k);
    }
}

/// To set a parameter changes at most one place of the list: its length grows by one exactly where
/// no parameter of the type stood there, and every parameter of another type stays in its place.
pub proof fn law_setting_changes_one_parameter(
    ps: Seq<MessageParameter>,
    p: MessageParameter,
    k: int,
)
    requires
        0 <= k < ps.len(),
    ensures
        with_param(ps, p).contains(p),
        with_param(ps, p).len() == if first_of(ps, p.kind()) is None {
            ps.len() + 1
        } else {
            ps.len()
        },
        ps[k].kind() != p.kind() ==> with_param(ps, p)[k] == ps[k],
    decreases ps.len(),
{
    let r = ps.drop_first();
    let w = with_param(ps, p);
    if ps[0].kind() == p.kind() {
        assert(w[0] == p);
        if k > 0 {
            assert(w[k] == r[k - 1]);
        }
    } else {
        let v = with_param(r, p);
        if r.len() > 0 {
            law_setting_changes_one_parameter(
                r,
                p,
                if k > 0 {
                    k - 1
                } else {
                    0
                },
            );
        } else {
            assert(v[0] == p);
        }
        let j = choose|j: int| 0 <= j < v.len() && v[j] == p;
        assert(w[j + 1] == p);
        if k > 0 {
            assert(w[k] == v[k - 1]);
            assert(r[k - 1] == ps[k]);
        }
    }
}

/// To leave a type out leaves out all of it and nothing else, and keeps the order: what stands
/// before and behind a parameter is dealt with on its own.
pub proof fn law_leaving_out_a_type(
    before: Seq<MessageParameter>,
    p: MessageParameter,
    behind: Seq<MessageParameter>,
    t: MessageParameterType,
)
    ensures
        without(Seq::empty(), t) == Seq::<MessageParameter>::empty(),
        p.kind() == t ==> without(before.push(p) + behind, t) == without(before, t) + without(
            behind,
            t,
        ),
        p.kind() != t ==> without(before.push(p) + behind, t) == without(before, t).push(p)
            + without(behind, t),
{
    let keep = |q: MessageParameter| q.kind() != t;
    reveal(Seq::filter);
    Seq::filter_distributes_over_add(before.push(p), behind, keep);
    assert(before.push(p).drop_last() =~= before);
}

/// No two reasons for the end of a session share a code, and the code of no error is zero.
pub proof fn law_termination_codes_are_told_apart(a: TerminationCode, b: TerminationCode)
    ensures
        a.code() == b.code() <==> a == b,
        a.code() == 0 <==> a is NoError,
        a.code() <= 0x1a && !(0x9 < a.code() < 0x10),
{
}

} // verus!
