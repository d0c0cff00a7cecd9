//! The command line of the client: what its values mean, and the job that they describe.
use crate::message::GroupOrder;
use crate::outside::random_u64;
use crate::publisher::{
    choose_alias, PublishConfig, PublishMultiConfig, PublishNamespaceConfig, TrackSpec,
};
use crate::publisher;
use crate::stats::PlayoutConfig;
use crate::subscriber::SubscribeConfig;
use crate::switcher::{SwitchMethod, SwitchTestConfig};
use crate::text;
use vstd::prelude::*;
use vstd::std_specs::convert::FromSpecImpl;

verus! {

#[derive(Debug, Clone, Copy, PartialEq, Eq, Structural)]
pub enum CliGroupOrder {
    Original,
    Ascending,
    Descending,
}

impl CliGroupOrder {
    pub open spec fn order(self) -> GroupOrder {
        match self {
            CliGroupOrder::Original => GroupOrder::Original,
            CliGroupOrder::Ascending => GroupOrder::Ascending,
            CliGroupOrder::Descending => GroupOrder::Descending,
        }
    }
}

impl FromSpecImpl<CliGroupOrder> for GroupOrder {
    open spec fn obeys_from_spec() -> bool {
        true
    }

    open spec fn from_spec(o: CliGroupOrder) -> GroupOrder {
        o.order()
    }
}

impl From<CliGroupOrder> for GroupOrder {
    fn from(o: CliGroupOrder) -> (r: Self) {
        match o {
            CliGroupOrder::Original => GroupOrder::Original,
            CliGroupOrder::Ascending => GroupOrder::Ascending,
            CliGroupOrder::Descending => GroupOrder::Descending,
        }
    }
}

/// How objects are sent and received.
#[derive(Debug, Clone, Copy, PartialEq, Eq, Structural)]
pub enum DeliveryMode {
    /// On streams with subgroup headers.
    Subgroup,
    /// As datagrams.
    Datagram,
}

#[derive(Debug, Clone, Copy, PartialEq, Eq, Structural)]
pub enum CliSwitchMethod {
    /// The relay switches when it gets a SWITCH message.
    SwitchMessage,
    /// The new track is subscribed to beforehand and enabled when the time comes.
    SubUpdateForward,
    /// The new track is warmed up with a joining fetch.
    JoiningFetch,
}

impl CliSwitchMethod {
    pub open spec fn method(self) -> SwitchMethod {
        match self {
            CliSwitchMethod::SwitchMessage => SwitchMethod::Switch,
            CliSwitchMethod::SubUpdateForward => SwitchMethod::SubUpdateForward,
            CliSwitchMethod::JoiningFetch => SwitchMethod::JoiningFetch,
        }
    }
}

impl FromSpecImpl<CliSwitchMethod> for SwitchMethod {
    open spec fn obeys_from_spec() -> bool {
        true
    }

    open spec fn from_spec(m: CliSwitchMethod) -> SwitchMethod {
        m.method()
    }
}

impl From<CliSwitchMethod> for SwitchMethod {
    fn from(m: CliSwitchMethod) -> (r: Self) {
        match m {
            CliSwitchMethod::SwitchMessage => SwitchMethod::Switch,
            CliSwitchMethod::SubUpdateForward => SwitchMethod::SubUpdateForward,
            CliSwitchMethod::JoiningFetch => SwitchMethod::JoiningFetch,
        }
    }
}

#[derive(Debug, Clone, Copy, PartialEq, Eq, Structural)]
pub enum Command {
    /// Publish objects to a track.
    Publish,
    /// Publish a namespace and answer subscriptions with test data.
    PublishNamespace,
    /// Publish several tracks at once.
    PublishMulti,
    /// Subscribe to a track and receive objects.
    Subscribe,
    /// Fetch a range of objects of a track.
    Fetch,
    /// Run a track-switching experiment.
    SwitchTest,
}

/// What a command line says.
#[derive(Debug)]
pub struct Cli {
    pub command: Command,
    pub server: String,
    pub namespace: String,
    pub track_name: String,
    pub no_cert_validation: bool,
    pub delivery_mode: DeliveryMode,
    pub group_count: u64,
    /// Milliseconds between objects.
    pub interval: u64,
    pub objects_per_group: u64,
    pub payload_size: usize,
    pub track_alias: Option<u64>,
    /// Seconds to listen; 0 for as long as the connection lasts.
    pub duration: u64,
    pub start_group: u64,
    pub start_object: u64,
    pub end_group: u64,
    pub end_object: u64,
    pub cancel_after: u64,
    pub subscriber_priority: u8,
    pub publisher_priority: u8,
    pub group_order: CliGroupOrder,
    /// A second track to subscribe to: `name:priority`.
    pub extra_track: Option<String>,
    /// Tracks to publish: `name:bytes[:p_ratio[:delay_ms]]`, with commas between them.
    pub tracks: String,
    pub track_a: String,
    pub track_b: String,
    /// Track names with commas between them.
    pub track_sequence: String,
    pub method: CliSwitchMethod,
    /// Milliseconds that each track is received before the next switch.
    pub switch_after: u64,
    pub bandwidth_cap_bps: u64,
    pub output_json: Option<String>,
    pub jitter_buffer_ms: u64,
}

/// A range of objects to fetch.
#[derive(Debug)]
pub struct FetchConfig {
    pub namespace: String,
    pub track_name: String,
    pub start_group: u64,
    pub start_object: u64,
    pub end_group: u64,
    pub end_object: u64,
    pub cancel_after: u64,
}

/// How the size ratio that stands in a track's entry was found, once read as a number.
#[derive(Debug)]
pub enum RatioVerdict {
    /// It is no number.
    Unreadable,
    /// It is not above 0 and at most 1. Carries the number as it is shown.
    OutOfRange { shown: String },
    Usable,
}

/// Why a list of tracks is refused.
#[derive(Debug)]
pub enum TrackError {
    PayloadSize { text: String, entry: String },
    Ratio { text: String, entry: String },
    RatioRange { shown: String, entry: String },
    StartDelay { text: String, entry: String },
    Shape { entry: String },
}

#[verifier::ext_equal]
pub enum RatioVerdictView {
    Unreadable,
    OutOfRange { shown: Seq<char> },
    Usable,
}

#[verifier::ext_equal]
pub enum TrackErrorView {
    PayloadSize { text: Seq<char>, entry: Seq<char> },
    Ratio { text: Seq<char>, entry: Seq<char> },
    RatioRange { shown: Seq<char>, entry: Seq<char> },
    StartDelay { text: Seq<char>, entry: Seq<char> },
    Shape { entry: Seq<char> },
}

/// What a track's entry asks for.
#[verifier::ext_equal]
pub struct TrackSpecView {
    pub name: Seq<char>,
    pub payload_size: nat,
    pub p_ratio: Option<Seq<char>>,
    pub start_delay_ms: nat,
}

impl View for RatioVerdict {
    type V = RatioVerdictView;

    open spec fn view(&self) -> RatioVerdictView {
        match *self {
            RatioVerdict::Unreadable => RatioVerdictView::Unreadable,
            RatioVerdict::OutOfRange { shown } => RatioVerdictView::OutOfRange { shown: shown@ },
            RatioVerdict::Usable => RatioVerdictView::Usable,
        }
    }
}

impl View for TrackError {
    type V = TrackErrorView;

    open spec fn view(&self) -> TrackErrorView {
        match *self {
            TrackError::PayloadSize { text, entry } => TrackErrorView::PayloadSize {
                text: text@,
                entry: entry@,
            },
            TrackError::Ratio { text, entry } => TrackErrorView::Ratio {
                text: text@,
                entry: entry@,
            },
            TrackError::RatioRange { shown, entry } => TrackErrorView::RatioRange {
                shown: shown@,
                entry: entry@,
            },
            TrackError::StartDelay { text, entry } => TrackErrorView::StartDelay {
                text: text@,
                entry: entry@,
            },
            TrackError::Shape { entry } => TrackErrorView::Shape { entry: entry@ },
        }
    }
}

impl View for TrackSpec {
    type V = TrackSpecView;

    open spec fn view(&self) -> TrackSpecView {
        TrackSpecView {
            name: self.name@,
            payload_size: self.payload_size as nat,
            p_ratio: match self.p_ratio {
                Some(t) => Some(t@),
                None => None,
            },
            start_delay_ms: self.start_delay_ms as nat,
        }
    }
}

impl TrackErrorView {
    /// What a user is told.
    pub open spec fn told(self) -> Seq<char> {
        match self {
            TrackErrorView::PayloadSize { text, entry } => "invalid payload size '"@ + text
                + "' in '"@ + entry + "'"@,
            TrackErrorView::Ratio { text, entry } => "invalid p_ratio '"@ + text + "' in '"@ + entry
                + "'"@,
            TrackErrorView::RatioRange { shown, entry } => "p_ratio must be in (0, 1], got "@
                + shown + " in '"@ + entry + "'"@,
            TrackErrorView::StartDelay { text, entry } => "invalid start_delay_ms '"@ + text
                + "' in '"@ + entry + "'"@,
            TrackErrorView::Shape { entry } => "invalid track spec '"@ + entry
                + "'; expected 'name:bytes', 'name:bytes:p_ratio', or 'name:bytes:p_ratio:delay_ms'"@,
        }
    }
}

fn quoted(before: &str, text: &str, between: &str, entry: &str) -> (r: String)
    ensures
        r@ == before@ + text@ + between@ + entry@ + "'"@,
{
    let mut r = before.to_owned();
    r.append(text);
    r.append(between);
    r.append(entry);
    r.append("'");
    r
}

impl TrackError {
    /// What a user is told.
    pub fn message(&self) -> (r: String)
        ensures
            r@ == self@.told(),
    {
        match self {
            TrackError::PayloadSize { text, entry } => quoted(
                "invalid payload size '",
                text.as_str(),
                "' in '",
                entry.as_str(),
            ),
            TrackError::Ratio { text, entry } => quoted(
                "invalid p_ratio '",
                text.as_str(),
                "' in '",
                entry.as_str(),
            ),
            TrackError::RatioRange { shown, entry } => quoted(
                "p_ratio must be in (0, 1], got ",
                shown.as_str(),
                " in '",
                entry.as_str(),
            ),
            TrackError::StartDelay { text, entry } => quoted(
                "invalid start_delay_ms '",
                text.as_str(),
                "' in '",
                entry.as_str(),
            ),
            TrackError::Shape { entry } => {
                let mut r = "invalid track spec '".to_owned();
                r.append(entry.as_str());
                r.append(
                    "'; expected 'name:bytes', 'name:bytes:p_ratio', or 'name:bytes:p_ratio:delay_ms'",
                );
                r
            },
        }
    }
}

/// The entries of a list of tracks.
pub open spec fn entries(s: Seq<char>) -> Seq<Seq<char>> {
    text::split(s, ',').map_values(|e: Seq<char>| text::trimmed(e))
}

/// The fields of an entry: the name, the size, the ratio and the delay.
pub open spec fn fields(entry: Seq<char>) -> Seq<Seq<char>> {
    text::split_n(entry, ':', 4)
}

/// The number that a field says, if it is at most `max`.
pub open spec fn number_up_to(s: Seq<char>, max: nat) -> Option<nat> {
    match text::number(s) {
        Some(v) if v <= max => Some(v),
        _ => None,
    }
}

/// What an entry asks for. The first fault, from the left, is the one that is told; what was found
/// of the ratio matters only where the entry has one.
pub open spec fn entry_spec(entry: Seq<char>, ratio: RatioVerdictView) -> Result<
    TrackSpecView,
    TrackErrorView,
> {
    let f = fields(entry);
    if f.len() < 2 {
        Err(TrackErrorView::Shape { entry })
    } else {
        match number_up_to(f[1], usize::MAX as nat) {
            None => Err(TrackErrorView::PayloadSize { text: f[1], entry }),
            Some(payload_size) => if f.len() == 2 {
                Ok(
                    TrackSpecView {
                        name: text::trimmed(f[0]),
                        payload_size,
                        p_ratio: None,
                        start_delay_ms: 0,
                    },
                )
            } else {
                match ratio {
                    RatioVerdictView::Unreadable => Err(
                        TrackErrorView::Ratio { text: f[2], entry },
                    ),
                    RatioVerdictView::OutOfRange { shown } => Err(
                        TrackErrorView::RatioRange { shown, entry },
                    ),
                    RatioVerdictView::Usable => {
                        let delay = if f.len() == 3 {
                            Some(0nat)
                        } else {
                            number_up_to(f[3], u64::MAX as nat)
                        };
                        match delay {
                            None => Err(TrackErrorView::StartDelay { text: f[3], entry }),
                            Some(start_delay_ms) => Ok(
                                TrackSpecView {
                                    name: text::trimmed(f[0]),
                                    payload_size,
                                    p_ratio: Some(f[2]),
                                    start_delay_ms,
                                },
                            ),
                        }
                    },
                }
            },
        }
    }
}

proof fn lemma_fields(entry: Seq<char>, n: nat)
    requires
        n > 0,
    ensures
        1 <= text::split_n(entry, ':', n).len() <= n,
    decreases entry.len(),
{
    let i = text::index_of(entry, ':');
    if i < entry.len() && n > 1 {
        lemma_fields(entry.skip(i as int + 1), (n - 1) as nat);
    }
}

fn parse_entry(entry: &String, ratio: &RatioVerdict) -> (r: Result<TrackSpec, TrackError>)
    ensures
        match r {
            Ok(t) => entry_spec(entry@, ratio@) == Ok::<TrackSpecView, TrackErrorView>(t@),
            Err(e) => entry_spec(entry@, ratio@) == Err::<TrackSpecView, TrackErrorView>(e@),
        },
{
    let f = text::split_into(entry.as_str(), ':', 4);
    let ghost parts = fields(entry@);
    proof {
        lemma_fields(entry@, 4);
        assert(text::texts(f@) == parts);
        assert(f@.len() == parts.len());
        assert forall|i: int| 0 <= i < f@.len() implies (#[trigger] f@[i])@ == parts[i] by {
            assert(text::texts(f@)[i] == f@[i]@);
        }
    }
    if f.len() < 2 {
        return Err(TrackError::Shape { entry: entry.clone() });
    }
    let payload_size: usize = match text::parse_number(f[1].as_str(), usize::MAX as u64) {
        Some(n) => n as usize,
        None => {
            return Err(TrackError::PayloadSize { text: f[1].clone(), entry: entry.clone() });
        },
    };
    let name = text::trim(f[0].as_str());
    if f.len() == 2 {
        return Ok(TrackSpec::new(name, payload_size));
    }
    match ratio {
        RatioVerdict::Unreadable => {
            return Err(TrackError::Ratio { text: f[2].clone(), entry: entry.clone() });
        },
        RatioVerdict::OutOfRange { shown } => {
            return Err(TrackError::RatioRange { shown: shown.clone(), entry: entry.clone() });
        },
        RatioVerdict::Usable => {},
    }
    let start_delay_ms: u64 = if f.len() == 3 {
        0
    } else {
        match text::parse_number(f[3].as_str(), u64::MAX) {
            Some(n) => n,
            None => {
                return Err(TrackError::StartDelay { text: f[3].clone(), entry: entry.clone() });
            },
        }
    };
    Ok(TrackSpec { name, payload_size, p_ratio: Some(f[2].clone()), start_delay_ms })
}

fn list_entries(s: &str) -> (v: Vec<String>)
    requires
        s@.len() < usize::MAX,
    ensures
        text::texts(v@) == entries(s@),
{
    let pieces = text::split_all(s, ',');
    let ghost all = text::split(s@, ',');
    let mut v: Vec<String> = Vec::new();
    let mut i: usize = 0;
    while i < pieces.len()
        invariant
            text::texts(pieces@) == all,
            i <= pieces@.len(),
            v@.len() == i,
            forall|j: int| 0 <= j < i ==> (#[trigger] v@[j])@ == text::trimmed(all[j]),
        decreases pieces@.len() - i,
    {
        assert(all[i as int] == pieces@[i as int]@);
        v.push(text::trim(pieces[i].as_str()));
        i = i + 1;
    }
    assert(text::texts(v@) =~= entries(s@));
    v
}

/// The ratios that stand in the entries of a list of tracks, for whoever reads them as numbers.
pub fn ratio_fields(s: &str) -> (v: Vec<Option<String>>)
    requires
        s@.len() < usize::MAX,
    ensures
        v@.len() == entries(s@).len(),
        forall|i: int|
            0 <= i < v@.len() ==> match #[trigger] v@[i] {
                Some(t) => fields(entries(s@)[i]).len() > 2 && t@ == fields(entries(s@)[i])[2],
                None => fields(entries(s@)[i]).len() <= 2,
            },
{
    let es = list_entries(s);
    let ghost all = entries(s@);
    let mut v: Vec<Option<String>> = Vec::new();
    let mut i: usize = 0;
    while i < es.len()
        invariant
            text::texts(es@) == all,
            i <= es@.len(),
            v@.len() == i,
            forall|j: int|
                0 <= j < i ==> match #[trigger] v@[j] {
                    Some(t) => fields(all[j]).len() > 2 && t@ == fields(all[j])[2],
                    None => fields(all[j]).len() <= 2,
                },
        decreases es@.len() - i,
    {
        let f = text::split_into(es[i].as_str(), ':', 4);
        proof {
            assert(all[i as int] == es@[i as int]@);
            assert(text::texts(f@).len() == f@.len());
            if f@.len() > 2 {
                assert(text::texts(f@)[2] == f@[2]@);
            }
        }
        if f.len() > 2 {
            v.push(Some(f[2].clone()));
        } else {
            v.push(None);
        }
        i = i + 1;
    }
    v
}

/// Reads a list of tracks, given what was found of the ratio of each entry. The first entry with a
/// fault is the one that is told.
pub fn parse_tracks(s: &str, ratios: &Vec<RatioVerdict>) -> (r: Result<Vec<TrackSpec>, TrackError>)
    requires
        s@.len() < usize::MAX,
        ratios@.len() == entries(s@).len(),
    ensures
        match r {
            Ok(ts) => ts@.len() == entries(s@).len() && forall|i: int|
                0 <= i < ts@.len() ==> entry_spec(entries(s@)[i], ratios@[i]@) == Ok::<
                    TrackSpecView,
                    TrackErrorView,
                >((#[trigger] ts@[i])@),
            Err(e) => exists|i: int|
                {
                    &&& 0 <= i < entries(s@).len()
                    &&& #[trigger] entry_spec(entries(s@)[i], ratios@[i]@) == Err::<
                        TrackSpecView,
                        TrackErrorView,
                    >(e@)
                    &&& forall|j: int|
                        0 <= j < i ==> #[trigger] entry_spec(entries(s@)[j], ratios@[j]@) is Ok
                },
        },
{
    let es = list_entries(s);
    let ghost all = entries(s@);
    let mut ts: Vec<TrackSpec> = Vec::new();
    let mut i: usize = 0;
    while i < es.len()
        invariant
            text::texts(es@) == all,
            all == entries(s@),
            ratios@.len() == all.len(),
            i <= es@.len(),
            ts@.len() == i,
            forall|j: int|
                0 <= j < i ==> entry_spec(all[j], ratios@[j]@) == Ok::<TrackSpecView, TrackErrorView>(
                    (#[trigger] ts@[j])@,
                ),
        decreases es@.len() - i,
    {
        assert(all[i as int] == es@[i as int]@);
        match parse_entry(&es[i], &ratios[i]) {
            Ok(t) => {
                ts.push(t);
            },
            Err(e) => {
                proof {
                    assert(entry_spec(all[i as int], ratios@[i as int]@) == Err::<
                        TrackSpecView,
                        TrackErrorView,
                    >(e@));
                    assert forall|j: int| 0 <= j < i implies #[trigger] entry_spec(
                        all[j],
                        ratios@[j]@,
                    ) is Ok by {
                        assert(ts@[j]@ == ts@[j]@);
                    }
                }
                return Err(e);
            },
        }
        i = i + 1;
    }
    Ok(ts)
}

/// The second track of a subscriber and its priority: what stands around the last colon. `None`
/// where there is no colon or no priority behind it.
pub open spec fn extra_of(s: Seq<char>) -> Option<(Seq<char>, nat)> {
    match text::last_index_of(s, ':') {
        Some(i) => match number_up_to(s.skip(i as int + 1), u8::MAX as nat) {
            Some(p) => Some((s.take(i as int), p)),
            None => None,
        },
        None => None,
    }
}

pub fn parse_extra_track(s: &Option<String>) -> (r: Option<(String, u8)>)
    ensures
        match (*s, r) {
            (Some(t), Some((name, priority))) => extra_of(t@) == Some((name@, priority as nat)),
            (Some(t), None) => extra_of(t@) is None,
            (None, r) => r is None,
        },
{
    match s {
        None => None,
        Some(t) => match text::split_last(t.as_str(), ':') {
            None => None,
            Some((name, priority)) => match text::parse_number(priority.as_str(), 255) {
                Some(p) => Some((name, p as u8)),
                None => None,
            },
        },
    }
}

/// The names of a list, without those that are empty.
pub open spec fn names_of(es: Seq<Seq<char>>) -> Seq<Seq<char>> {
    es.filter(|e: Seq<char>| e.len() > 0)
}

/// Reads a list of track names.
pub fn parse_track_sequence(s: &str) -> (v: Vec<String>)
    requires
        s@.len() < usize::MAX,
    ensures
        text::texts(v@) == names_of(entries(s@)),
{
    let es = list_entries(s);
    let ghost all = entries(s@);
    let ghost p = |e: Seq<char>| e.len() > 0;
    let mut v: Vec<String> = Vec::new();
    let mut i: usize = 0;
    proof {
        reveal(Seq::filter);
        assert(all.take(0).filter(p) =~= Seq::empty());
        assert(text::texts(v@) =~= Seq::empty());
    }
    while i < es.len()
        invariant
            p == |e: Seq<char>| e.len() > 0,
            text::texts(es@) == all,
            i <= es@.len(),
            text::texts(v@) == all.take(i as int).filter(p),
        decreases es@.len() - i,
    {
        let ghost before = v@;
        proof {
            reveal(Seq::filter);
            assert(all[i as int] == es@[i as int]@);
            assert(all.take(i + 1).drop_last() =~= all.take(i as int));
            assert(all.take(i + 1).last() == all[i as int]);
        }
        if es[i].as_str().unicode_len() > 0 {
            v.push(es[i].clone());
            assert(text::texts(v@) =~= text::texts(before).push(all[i as int]));
        }
        i = i + 1;
    }
    assert(all.take(i as int) =~= all);
    v
}

/// What the client does.
#[derive(Debug)]
pub enum Job {
    Publish(PublishConfig),
    PublishNamespace(PublishNamespaceConfig),
    PublishMulti(PublishMultiConfig),
    Subscribe(SubscribeConfig),
    Fetch(FetchConfig),
    SwitchTest(SwitchTestConfig),
}

/// Whether a job, or the fault that keeps it from being done, is what a command line asks for. A
/// random number serves for the alias that is not given.
pub open spec fn asked_for(
    cli: Cli,
    ratios: Seq<RatioVerdict>,
    random: u64,
    r: Result<Job, TrackError>,
) -> bool {
    match cli.command {
        Command::Publish => r == Ok::<Job, TrackError>(
            Job::Publish(
                PublishConfig {
                    namespace: cli.namespace,
                    track_name: cli.track_name,
                    delivery_mode: cli.delivery_mode,
                    group_count: cli.group_count,
                    interval: cli.interval,
                    objects_per_group: cli.objects_per_group,
                    payload_size: cli.payload_size,
                    track_alias: publisher::alias_from(cli.track_alias, random),
                    publisher_priority: cli.publisher_priority,
                    group_order: cli.group_order.order(),
                },
            ),
        ),
        Command::PublishNamespace => r == Ok::<Job, TrackError>(
            Job::PublishNamespace(
                PublishNamespaceConfig {
                    namespace: cli.namespace,
                    delivery_mode: cli.delivery_mode,
                    group_count: cli.group_count,
                    interval: cli.interval,
                    objects_per_group: cli.objects_per_group,
                    payload_size: cli.payload_size,
                    publisher_priority: cli.publisher_priority,
                },
            ),
        ),
        Command::PublishMulti => {
            let es = entries(cli.tracks@);
            match r {
                Ok(job) => {
                    &&& job matches Job::PublishMulti(c)
                    &&& c == (PublishMultiConfig {
                        namespace: cli.namespace,
                        tracks: c.tracks,
                        objects_per_group: cli.objects_per_group,
                        interval_ms: cli.interval,
                        group_count: cli.group_count,
                        publisher_priority: cli.publisher_priority,
                    })
                    &&& c.tracks@.len() == es.len()
                    &&& forall|i: int|
                        0 <= i < es.len() ==> entry_spec(es[i], ratios[i]@) == Ok::<
                            TrackSpecView,
                            TrackErrorView,
                        >((#[trigger] c.tracks@[i])@)
                },
                Err(e) => exists|i: int|
                    {
                        &&& 0 <= i < es.len()
                        &&& #[trigger] entry_spec(es[i], ratios[i]@) == Err::<
                            TrackSpecView,
                            TrackErrorView,
                        >(e@)
                        &&& forall|j: int|
                            0 <= j < i ==> #[trigger] entry_spec(es[j], ratios[j]@) is Ok
                    },
            }
        },
        Command::Subscribe => {
            &&& r matches Ok(Job::Subscribe(c))
            &&& c == (SubscribeConfig {
                namespace: cli.namespace,
                track_name: cli.track_name,
                delivery_mode: cli.delivery_mode,
                duration: cli.duration,
                subscriber_priority: cli.subscriber_priority,
                group_order: cli.group_order.order(),
                extra_track: c.extra_track,
            })
            &&& match (cli.extra_track, c.extra_track) {
                (Some(t), Some((name, priority))) => extra_of(t@) == Some((name@, priority as nat)),
                (Some(t), None) => extra_of(t@) is None,
                (None, x) => x is None,
            }
        },
        Command::Fetch => r == Ok::<Job, TrackError>(
            Job::Fetch(
                FetchConfig {
                    namespace: cli.namespace,
                    track_name: cli.track_name,
                    start_group: cli.start_group,
                    start_object: cli.start_object,
                    end_group: cli.end_group,
                    end_object: cli.end_object,
                    cancel_after: cli.cancel_after,
                },
            ),
        ),
        Command::SwitchTest => {
            &&& r matches Ok(Job::SwitchTest(c))
            &&& c == (SwitchTestConfig {
                namespace: cli.namespace,
                track_sequence: c.track_sequence,
                track_a: cli.track_a,
                track_b: cli.track_b,
                method: cli.method.method(),
                switch_after_ms: cli.switch_after,
                bandwidth_cap_bps: cli.bandwidth_cap_bps,
                output_json: cli.output_json,
                playout: PlayoutConfig {
                    frame_interval_ms: cli.interval,
                    objects_per_group: cli.objects_per_group,
                    jitter_buffer_ms: cli.jitter_buffer_ms,
                },
            })
            &&& text::texts(c.track_sequence@) == names_of(entries(cli.track_sequence@))
        },
    }
}

/// The job that a command line asks for, with a random number at hand.
pub fn job_with(cli: Cli, ratios: &Vec<RatioVerdict>, random: u64) -> (r: Result<Job, TrackError>)
    requires
        cli.tracks@.len() < usize::MAX,
        cli.track_sequence@.len() < usize::MAX,
        ratios@.len() == entries(cli.tracks@).len(),
    ensures
        asked_for(cli, ratios@, random, r),
{
    match cli.command {
        Command::Publish => Ok(
            Job::Publish(
                PublishConfig {
                    namespace: cli.namespace,
                    track_name: cli.track_name,
                    delivery_mode: cli.delivery_mode,
                    group_count: cli.group_count,
                    interval: cli.interval,
                    objects_per_group: cli.objects_per_group,
                    payload_size: cli.payload_size,
                    track_alias: choose_alias(cli.track_alias, random),
                    publisher_priority: cli.publisher_priority,
                    group_order: GroupOrder::from(cli.group_order),
                },
            ),
        ),
        Command::PublishNamespace => Ok(
            Job::PublishNamespace(
                PublishNamespaceConfig {
                    namespace: cli.namespace,
                    delivery_mode: cli.delivery_mode,
                    group_count: cli.group_count,
                    interval: cli.interval,
                    objects_per_group: cli.objects_per_group,
                    payload_size: cli.payload_size,
                    publisher_priority: cli.publisher_priority,
                },
            ),
        ),
        Command::PublishMulti => match parse_tracks(cli.tracks.as_str(), ratios) {
            Ok(tracks) => Ok(
                Job::PublishMulti(
                    PublishMultiConfig {
                        namespace: cli.namespace,
                        tracks,
                        objects_per_group: cli.objects_per_group,
                        interval_ms: cli.interval,
                        group_count: cli.group_count,
                        publisher_priority: cli.publisher_priority,
                    },
                ),
            ),
            Err(e) => Err(e),
        },
        Command::Subscribe => {
            let extra_track = parse_extra_track(&cli.extra_track);
            Ok(
                Job::Subscribe(
                    SubscribeConfig {
                        namespace: cli.namespace,
                        track_name: cli.track_name,
                        delivery_mode: cli.delivery_mode,
                        duration: cli.duration,
                        subscriber_priority: cli.subscriber_priority,
                        group_order: GroupOrder::from(cli.group_order),
                        extra_track,
                    },
                ),
            )
        },
        Command::Fetch => Ok(
            Job::Fetch(
                FetchConfig {
                    namespace: cli.namespace,
                    track_name: cli.track_name,
                    start_group: cli.start_group,
                    start_object: cli.start_object,
                    end_group: cli.end_group,
                    end_object: cli.end_object,
                    cancel_after: cli.cancel_after,
                },
            ),
        ),
        Command::SwitchTest => {
            let track_sequence = parse_track_sequence(cli.track_sequence.as_str());
            Ok(
                Job::SwitchTest(
                    SwitchTestConfig {
                        namespace: cli.namespace,
                        track_sequence,
                        track_a: cli.track_a,
                        track_b: cli.track_b,
                        method: SwitchMethod::from(cli.method),
                        switch_after_ms: cli.switch_after,
                        bandwidth_cap_bps: cli.bandwidth_cap_bps,
                        output_json: cli.output_json,
                        playout: PlayoutConfig {
                            frame_interval_ms: cli.interval,
                            objects_per_group: cli.objects_per_group,
                            jitter_buffer_ms: cli.jitter_buffer_ms,
                        },
                    },
                ),
            )
        },
    }
}

/// The job that a command line asks for.
pub fn job(cli: Cli, ratios: &Vec<RatioVerdict>) -> (r: Result<Job, TrackError>)
    requires
        cli.tracks@.len() < usize::MAX,
        cli.track_sequence@.len() < usize::MAX,
        ratios@.len() == entries(cli.tracks@).len(),
    ensures
        exists|random: u64| asked_for(cli, ratios@, random, r),
{
    let random: u64 = random_u64();
    job_with(cli, ratios, random)
}

/// Lists are read entry by entry: a comma between two lists makes one of both, and each entry is
/// what stands between commas without the white space around it. Names that are empty are left out
/// and the others keep their order.
pub proof fn law_lists_are_read_entry_by_entry(a: Seq<char>, b: Seq<char>)
    ensures
        entries(a + seq![','] + b) == entries(a) + entries(b),
        !a.contains(',') ==> entries(a) == seq![text::trimmed(a)],
        names_of(entries(a + seq![','] + b)) == names_of(entries(a)) + names_of(entries(b)),
        forall|i: int|
            0 <= i < names_of(entries(a)).len() ==> (#[trigger] names_of(entries(a))[i]).len() > 0,
{
    text::lemma_split_halves(a, ',', b);
    assert(entries(a + seq![','] + b) =~= entries(a) + entries(b));
    if !a.contains(',') {
        text::lemma_split_of_one(a, ',');
        assert(entries(a) =~= seq![text::trimmed(a)]);
    }
    let some = |e: Seq<char>| e.len() > 0;
    Seq::filter_distributes_over_add(entries(a), entries(b), some);
    assert forall|i: int| 0 <= i < names_of(entries(a)).len() implies (#[trigger] names_of(
        entries(a),
    )[i]).len() > 0 by {
        entries(a).lemma_filter_pred(some, i);
    }
}

/// A track's entry reads back what was written into it: its name and its size, and where they are
/// given the ratio, as it stands there, and the delay; without them it has no ratio and no delay.
pub proof fn law_track_entries_read_back(
    name: Seq<char>,
    size: nat,
    ratio: Seq<char>,
    delay: nat,
    verdict: RatioVerdictView,
)
    requires
        !name.contains(':'),
        !ratio.contains(':'),
        size <= usize::MAX,
        delay <= u64::MAX,
    ensures
        ({
            let short = name + seq![':'] + text::dec(size);
            let with_ratio = name + seq![':'] + (text::dec(size) + seq![':'] + ratio);
            let full = name + seq![':'] + (text::dec(size) + seq![':'] + (ratio + seq![':']
                + text::dec(delay)));
            &&& entry_spec(short, verdict) == Ok::<TrackSpecView, TrackErrorView>(
                TrackSpecView {
                    name: text::trimmed(name),
                    payload_size: size,
                    p_ratio: None,
                    start_delay_ms: 0,
                },
            )
            &&& verdict is Usable ==> entry_spec(with_ratio, verdict) == Ok::<
                TrackSpecView,
                TrackErrorView,
            >(
                TrackSpecView {
                    name: text::trimmed(name),
                    payload_size: size,
                    p_ratio: Some(ratio),
                    start_delay_ms: 0,
                },
            )
            &&& verdict is Usable ==> entry_spec(full, verdict) == Ok::<
                TrackSpecView,
                TrackErrorView,
            >(
                TrackSpecView {
                    name: text::trimmed(name),
                    payload_size: size,
                    p_ratio: Some(ratio),
                    start_delay_ms: delay,
                },
            )
            &&& verdict is Unreadable ==> entry_spec(full, verdict) == Err::<
                TrackSpecView,
                TrackErrorView,
            >(TrackErrorView::Ratio { text: ratio, entry: full })
            &&& verdict matches RatioVerdictView::OutOfRange { shown } ==> entry_spec(full, verdict)
                == Err::<TrackSpecView, TrackErrorView>(
                TrackErrorView::RatioRange { shown, entry: full },
            )
            &&& entry_spec(name, verdict) == Err::<TrackSpecView, TrackErrorView>(
                TrackErrorView::Shape { entry: name },
            )
        }),
{
    let s = text::dec(size);
    let d = text::dec(delay);
    text::law_decimal_reads_back(size);
    text::law_decimal_reads_back(delay);
    lemma_no_colon(size);
    lemma_no_colon(delay);
    let short = name + seq![':'] + s;
    let behind = s + seq![':'] + ratio;
    let with_ratio = name + seq![':'] + behind;
    let last = ratio + seq![':'] + d;
    let rest = s + seq![':'] + last;
    let full = name + seq![':'] + rest;
    text::lemma_split_n_front(name, ':', s, 4);
    text::lemma_split_n_of_one(s, ':', 3);
    assert(fields(short) =~= seq![name, s]);
    text::lemma_split_n_front(name, ':', behind, 4);
    text::lemma_split_n_front(s, ':', ratio, 3);
    text::lemma_split_n_of_one(ratio, ':', 2);
    assert(fields(with_ratio) =~= seq![name, s, ratio]);
    text::lemma_split_n_front(name, ':', rest, 4);
    text::lemma_split_n_front(s, ':', last, 3);
    text::lemma_split_n_front(ratio, ':', d, 2);
    text::lemma_split_n_of_one(d, ':', 1);
    assert(fields(full) =~= seq![name, s, ratio, d]);
    text::lemma_split_n_of_one(name, ':', 4);
    assert(fields(name) =~= seq![name]);
}

proof fn lemma_no_colon(n: nat)
    ensures
        !text::dec(n).contains(':'),
{
    text::law_decimal_holds_digits(n as int, n as int);
}

/// The second track reads back its name, which may hold colons, and its priority; a priority that
/// does not fit, or none, makes it no second track.
pub proof fn law_the_second_track_reads_back(name: Seq<char>, priority: nat)
    ensures
        priority <= 255 ==> extra_of(name + seq![':'] + text::dec(priority)) == Some(
            (name, priority),
        ),
        priority > 255 ==> extra_of(name + seq![':'] + text::dec(priority)) is None,
        !name.contains(':') ==> extra_of(name) is None,
        extra_of(name + seq![':']) is None,
{
    let p = text::dec(priority);
    let s = name + seq![':'] + p;
    let n = name.len() as int;
    text::law_decimal_reads_back(priority);
    text::law_decimal_holds_digits(priority as int, priority as int);
    text::law_the_last_place_of_a_character(s, ':');
    assert(s[n] == ':');
    assert(s.contains(':'));
    assert forall|j: int| n < j < s.len() implies s[j] != ':' by {
        assert(s[j] == p[j - n - 1]);
    }
    assert(text::last_index_of(s, ':') == Some(n as nat));
    assert(s.take(n) =~= name);
    assert(s.skip(n + 1) =~= p);
    text::law_the_last_place_of_a_character(name, ':');
    let e = name + seq![':'];
    text::law_the_last_place_of_a_character(e, ':');
    assert(e[n] == ':');
    assert(e.contains(':'));
    assert(e.skip(n + 1).len() == 0);
}

/// What the command line says is what the job does: each count, size, time and priority goes where
/// it belongs, and the names go with them.
pub proof fn law_jobs_do_what_the_command_line_says(
    cli: Cli,
    ratios: Seq<RatioVerdict>,
    random: u64,
    r: Result<Job, TrackError>,
)
    requires
        asked_for(cli, ratios, random, r),
    ensures
        r is Err ==> cli.command is PublishMulti,
        r matches Ok(Job::Publish(c)) ==> {
            &&& cli.command is Publish
            &&& c.namespace@ == cli.namespace@ && c.track_name@ == cli.track_name@
            &&& c.group_count == cli.group_count && c.interval == cli.interval
            &&& c.objects_per_group == cli.objects_per_group && c.payload_size == cli.payload_size
            &&& c.publisher_priority == cli.publisher_priority
            &&& cli.track_alias matches Some(a) ==> c.track_alias == a
            &&& c.delivery_mode == cli.delivery_mode
        },
        r matches Ok(Job::PublishNamespace(c)) ==> {
            &&& cli.command is PublishNamespace
            &&& c.namespace@ == cli.namespace@
            &&& c.group_count == cli.group_count && c.interval == cli.interval
            &&& c.objects_per_group == cli.objects_per_group && c.payload_size == cli.payload_size
            &&& c.publisher_priority == cli.publisher_priority
        },
        r matches Ok(Job::PublishMulti(c)) ==> {
            &&& cli.command is PublishMulti
            &&& c.namespace@ == cli.namespace@
            &&& c.group_count == cli.group_count && c.interval_ms == cli.interval
            &&& c.objects_per_group == cli.objects_per_group
            &&& c.publisher_priority == cli.publisher_priority
            &&& c.tracks@.len() == entries(cli.tracks@).len()
        },
        r matches Ok(Job::Subscribe(c)) ==> {
            &&& cli.command is Subscribe
            &&& c.namespace@ == cli.namespace@ && c.track_name@ == cli.track_name@
            &&& c.duration == cli.duration && c.subscriber_priority == cli.subscriber_priority
            &&& c.delivery_mode == cli.delivery_mode
            &&& cli.extra_track is None ==> c.extra_track is None
        },
        r matches Ok(Job::Fetch(c)) ==> {
            &&& cli.command is Fetch
            &&& c.namespace@ == cli.namespace@ && c.track_name@ == cli.track_name@
            &&& c.start_group == cli.start_group && c.start_object == cli.start_object
            &&& c.end_group == cli.end_group && c.end_object == cli.end_object
            &&& c.cancel_after == cli.cancel_after
        },
        r matches Ok(Job::SwitchTest(c)) ==> {
            &&& cli.command is SwitchTest
            &&& c.namespace@ == cli.namespace@
            &&& c.track_a@ == cli.track_a@ && c.track_b@ == cli.track_b@
            &&& c.switch_after_ms == cli.switch_after
            &&& c.bandwidth_cap_bps == cli.bandwidth_cap_bps
            &&& c.playout.frame_interval_ms == cli.interval
            &&& c.playout.objects_per_group == cli.objects_per_group
            &&& c.playout.jitter_buffer_ms == cli.jitter_buffer_ms
        },
{
}

/// No two orders and no two methods of the command line mean the same.
pub proof fn law_choices_are_told_apart(
    a: CliGroupOrder,
    b: CliGroupOrder,
    m: CliSwitchMethod,
    n: CliSwitchMethod,
)
    ensures
        a.order() == b.order() <==> a == b,
        a.order() is Descending <==> a is Descending,
        a.order() is Ascending <==> a is Ascending,
        m.method() == n.method() <==> m == n,
        m.method() is Switch <==> m is SwitchMessage,
        m.method() is JoiningFetch <==> m is JoiningFetch,
{
}

/// A fault is told with the entry that it is in, and with the text at fault.
pub proof fn law_faults_are_told_with_their_entry(text: Seq<char>, entry: Seq<char>)
    ensures
        ({
            let n = text.len() as int;
            let m = entry.len() as int;
            let size = TrackErrorView::PayloadSize { text, entry }.told();
            let ratio = TrackErrorView::Ratio { text, entry }.told();
            let range = TrackErrorView::RatioRange { shown: text, entry }.told();
            let delay = TrackErrorView::StartDelay { text, entry }.told();
            let shape = TrackErrorView::Shape { entry }.told();
            &&& size.subrange(22, 22 + n) == text && size.subrange(28 + n, 28 + n + m) == entry
            &&& ratio.subrange(17, 17 + n) == text && ratio.subrange(23 + n, 23 + n + m) == entry
            &&& range.subrange(31, 31 + n) == text && range.subrange(36 + n, 36 + n + m) == entry
            &&& delay.subrange(24, 24 + n) == text && delay.subrange(30 + n, 30 + n + m) == entry
            &&& shape.subrange(20, 20 + m) == entry
        }),
{
    reveal_strlit("invalid payload size '");
    reveal_strlit("invalid p_ratio '");
    reveal_strlit("p_ratio must be in (0, 1], got ");
    reveal_strlit("invalid start_delay_ms '");
    reveal_strlit("invalid track spec '");
    reveal_strlit("' in '");
    reveal_strlit(" in '");
    reveal_strlit("'");
    let n = text.len() as int;
    let m = entry.len() as int;
    let size = TrackErrorView::PayloadSize { text, entry }.told();
    let ratio = TrackErrorView::Ratio { text, entry }.told();
    let range = TrackErrorView::RatioRange { shown: text, entry }.told();
    let delay = TrackErrorView::StartDelay { text, entry }.told();
    let shape = TrackErrorView::Shape { entry }.told();
    assert(size.subrange(22, 22 + n) =~= text);
    assert(size.subrange(28 + n, 28 + n + m) =~= entry);
    assert(ratio.subrange(17, 17 + n) =~= text);
    assert(ratio.subrange(23 + n, 23 + n + m) =~= entry);
    assert(range.subrange(31, 31 + n) =~= text);
    assert(range.subrange(36 + n, 36 + n + m) =~= entry);
    assert(delay.subrange(24, 24 + n) =~= text);
    assert(delay.subrange(30 + n, 30 + n + m) =~= entry);
    assert(shape.subrange(20, 20 + m) =~= entry);
}

} // verus!
