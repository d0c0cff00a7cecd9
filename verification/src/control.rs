//! The control messages that the relay and the client exchange, and the records of requests.
use crate::location::Location;
use crate::message::{
    copy_params, FetchType, FilterType, MessageParameter, PublishDoneStatusCode, RequestErrorCode,
};
use crate::message;
use crate::names::{FullTrackName, TrackName};
use crate::pairs::{KeyValuePair, PairView};
use crate::pairs;
use vstd::prelude::*;

verus! {

/// A track-level extension. A list of immutable extensions and an unknown extension stand here by
/// the number under which their holder keeps them.
#[derive(Debug, Clone, Copy, PartialEq, Eq, Structural)]
pub enum TrackExtension {
    DeliveryTimeout { timeout_ms: u64 },
    MaxCacheDuration { duration_ms: u64 },
    ImmutableExtensions { kept_as: u64 },
    DefaultPublisherPriority { priority: u8 },
    DefaultPublisherGroupOrder { order: message::GroupOrder },
    DynamicGroups { enabled: bool },
    Unknown { kept_as: u64 },
}

pub fn copy_extensions(es: &Vec<TrackExtension>) -> (r: Vec<TrackExtension>)
    ensures
        r@ == es@,
{
    let mut r: Vec<TrackExtension> = Vec::new();
    let mut i: usize = 0;
    while i < es.len()
        invariant
            i <= es@.len(),
            r@ == es@.take(i as int),
        decreases es@.len() - i,
    {
        assert(es@.take(i + 1) =~= es@.take(i as int).push(es@[i as int]));
        r.push(es[i]);
        i = i + 1;
    }
    assert(es@.take(i as int) =~= es@);
    r
}

#[derive(Debug)]
pub struct Subscribe {
    pub request_id: u64,
    pub track: FullTrackName,
    pub subscribe_parameters: Vec<MessageParameter>,
}

#[verifier::ext_equal]
pub struct SubscribeView {
    pub request_id: u64,
    pub track: TrackName,
    pub parameters: Seq<MessageParameter>,
}

impl View for Subscribe {
    type V = SubscribeView;

    open spec fn view(&self) -> SubscribeView {
        SubscribeView {
            request_id: self.request_id,
            track: self.track@,
            parameters: self.subscribe_parameters@,
        }
    }
}

/// The filter that asks for what a track publishes from now on.
pub open spec fn latest_object() -> MessageParameter {
    MessageParameter::SubscriptionFilter {
        filter_type: FilterType::LatestObject,
        start_location: None,
        end_group: None,
    }
}

/// The filter that asks for a track from a given position on.
pub open spec fn absolute_start(start: Location) -> MessageParameter {
    MessageParameter::SubscriptionFilter {
        filter_type: FilterType::AbsoluteStart,
        start_location: Some(start),
        end_group: None,
    }
}

impl Subscribe {
    pub fn new_latest_object(
        request_id: u64,
        track: FullTrackName,
        subscribe_parameters: Vec<MessageParameter>,
    ) -> (s: Self)
        ensures
            s@ == (SubscribeView {
                request_id,
                track: track@,
                parameters: subscribe_parameters@.push(latest_object()),
            }),
    {
        let mut subscribe_parameters = subscribe_parameters;
        subscribe_parameters.push(
            MessageParameter::SubscriptionFilter {
                filter_type: FilterType::LatestObject,
                start_location: None,
                end_group: None,
            },
        );
        Subscribe { request_id, track, subscribe_parameters }
    }

    pub fn new_absolute_start(
        request_id: u64,
        track: FullTrackName,
        start_location: Location,
        subscribe_parameters: Vec<MessageParameter>,
    ) -> (s: Self)
        ensures
            s@ == (SubscribeView {
                request_id,
                track: track@,
                parameters: subscribe_parameters@.push(absolute_start(start_location)),
            }),
    {
        let mut subscribe_parameters = subscribe_parameters;
        subscribe_parameters.push(
            MessageParameter::SubscriptionFilter {
                filter_type: FilterType::AbsoluteStart,
                start_location: Some(start_location),
                end_group: None,
            },
        );
        Subscribe { request_id, track, subscribe_parameters }
    }

    pub fn copy(&self) -> (r: Subscribe)
        ensures
            r@ == self@,
    {
        Subscribe {
            request_id: self.request_id,
            track: self.track.copy(),
            subscribe_parameters: copy_params(&self.subscribe_parameters),
        }
    }
}

#[derive(Debug)]
pub struct Publish {
    pub request_id: u64,
    pub track: FullTrackName,
    pub track_alias: u64,
    pub parameters: Vec<MessageParameter>,
    pub track_extensions: Vec<TrackExtension>,
}

#[derive(Debug)]
pub struct SubscribeOk {
    pub request_id: u64,
    pub track_alias: u64,
    pub subscribe_parameters: Vec<MessageParameter>,
    pub track_extensions: Vec<TrackExtension>,
}

#[verifier::ext_equal]
pub struct SubscribeOkView {
    pub request_id: u64,
    pub track_alias: u64,
    pub parameters: Seq<MessageParameter>,
    pub extensions: Seq<TrackExtension>,
}

impl View for SubscribeOk {
    type V = SubscribeOkView;

    open spec fn view(&self) -> SubscribeOkView {
        SubscribeOkView {
            request_id: self.request_id,
            track_alias: self.track_alias,
            parameters: self.subscribe_parameters@,
            extensions: self.track_extensions@,
        }
    }
}

#[derive(Debug)]
pub struct RequestError {
    pub request_id: u64,
    pub error_code: RequestErrorCode,
    pub retry_interval: u64,
    pub reason_phrase: String,
}

#[verifier::ext_equal]
pub struct RequestErrorView {
    pub request_id: u64,
    pub error_code: RequestErrorCode,
    pub retry_interval: u64,
    pub reason: Seq<char>,
}

impl View for RequestError {
    type V = RequestErrorView;

    open spec fn view(&self) -> RequestErrorView {
        RequestErrorView {
            request_id: self.request_id,
            error_code: self.error_code,
            retry_interval: self.retry_interval,
            reason: self.reason_phrase@,
        }
    }
}

/// A refusal of request `request_id` that names no time to retry after.
pub open spec fn refusal(request_id: u64, code: RequestErrorCode, reason: Seq<char>) -> ControlView {
    ControlView::RequestError(
        RequestErrorView { request_id, error_code: code, retry_interval: 0, reason },
    )
}

#[derive(Debug)]
pub struct RequestUpdate {
    pub request_id: u64,
    pub existing_request_id: u64,
    pub parameters: Vec<MessageParameter>,
}

#[derive(Debug)]
pub struct Switch {
    pub request_id: u64,
    pub track: FullTrackName,
    pub subscription_request_id: u64,
    /// The parameters as they came.
    pub subscribe_parameters: Vec<KeyValuePair>,
}

#[derive(Debug)]
pub struct StandaloneFetchProps {
    pub track: FullTrackName,
    pub start_location: Location,
    pub end_location: Location,
}

#[derive(Debug, Clone, Copy, PartialEq, Eq, Structural)]
pub struct JoiningFetchProps {
    pub joining_request_id: u64,
    pub joining_start: u64,
}

#[derive(Debug)]
pub struct Fetch {
    pub request_id: u64,
    pub fetch_type: FetchType,
    pub standalone_fetch_props: Option<StandaloneFetchProps>,
    pub joining_fetch_props: Option<JoiningFetchProps>,
    pub parameters: Vec<MessageParameter>,
}

#[verifier::ext_equal]
pub struct FetchView {
    pub request_id: u64,
    pub fetch_type: FetchType,
    pub standalone: Option<(TrackName, Location, Location)>,
    pub joining: Option<JoiningFetchProps>,
    pub parameters: Seq<MessageParameter>,
}

impl View for Fetch {
    type V = FetchView;

    open spec fn view(&self) -> FetchView {
        FetchView {
            request_id: self.request_id,
            fetch_type: self.fetch_type,
            standalone: match self.standalone_fetch_props {
                Some(p) => Some((p.track@, p.start_location, p.end_location)),
                None => None,
            },
            joining: self.joining_fetch_props,
            parameters: self.parameters@,
        }
    }
}

impl Fetch {
    pub fn new_standalone(
        request_id: u64,
        track: FullTrackName,
        start_location: Location,
        end_location: Location,
        parameters: Vec<MessageParameter>,
    ) -> (f: Self)
        ensures
            f@ == (FetchView {
                request_id,
                fetch_type: FetchType::Standalone,
                standalone: Some((track@, start_location, end_location)),
                joining: None,
                parameters: parameters@,
            }),
    {
        Fetch {
            request_id,
            fetch_type: FetchType::Standalone,
            standalone_fetch_props: Some(
                StandaloneFetchProps { track, start_location, end_location },
            ),
            joining_fetch_props: None,
            parameters,
        }
    }

    /// A fetch that joins the subscription made by `joining_request_id`; `None` for a fetch type
    /// that joins nothing.
    pub fn new_joining(
        request_id: u64,
        fetch_type: FetchType,
        joining_request_id: u64,
        joining_start: u64,
        parameters: Vec<MessageParameter>,
    ) -> (r: Option<Self>)
        ensures
            r is None <==> fetch_type is Standalone,
            r matches Some(f) ==> f@ == (FetchView {
                request_id,
                fetch_type,
                standalone: None,
                joining: Some(JoiningFetchProps { joining_request_id, joining_start }),
                parameters: parameters@,
            }),
    {
        match fetch_type {
            FetchType::Standalone => None,
            _ => Some(
                Fetch {
                    request_id,
                    fetch_type,
                    standalone_fetch_props: None,
                    joining_fetch_props: Some(
                        JoiningFetchProps { joining_request_id, joining_start },
                    ),
                    parameters,
                },
            ),
        }
    }

    pub fn copy(&self) -> (r: Fetch)
        ensures
            r@ == self@,
    {
        let standalone_fetch_props = match &self.standalone_fetch_props {
            Some(p) => Some(
                StandaloneFetchProps {
                    track: p.track.copy(),
                    start_location: p.start_location,
                    end_location: p.end_location,
                },
            ),
            None => None,
        };
        Fetch {
            request_id: self.request_id,
            fetch_type: self.fetch_type,
            standalone_fetch_props,
            joining_fetch_props: self.joining_fetch_props,
            parameters: copy_params(&self.parameters),
        }
    }
}

#[derive(Debug, Clone, Copy, PartialEq, Eq, Structural)]
pub struct FetchOk {
    pub request_id: u64,
    pub end_of_track: bool,
    pub end_location: Location,
}

#[derive(Debug)]
pub struct PublishDone {
    pub request_id: u64,
    pub status_code: PublishDoneStatusCode,
    pub stream_count: u64,
    pub reason_phrase: String,
}

/// A control message, as far as the relay and the client act on it.
#[derive(Debug)]
pub enum ControlMessage {
    Subscribe(Subscribe),
    SubscribeOk(SubscribeOk),
    RequestError(RequestError),
    RequestOk { request_id: u64 },
    RequestUpdate(RequestUpdate),
    Unsubscribe { request_id: u64 },
    Switch(Switch),
    Fetch(Fetch),
    FetchOk(FetchOk),
    FetchCancel { request_id: u64 },
    Publish(Publish),
    PublishOk { request_id: u64 },
    PublishDone(PublishDone),
    ClientSetup,
    SubscribeNamespace { request_id: u64 },
    Other,
}

/// What a control message says.
#[verifier::ext_equal]
pub enum ControlView {
    Subscribe(SubscribeView),
    SubscribeOk(SubscribeOkView),
    RequestError(RequestErrorView),
    RequestOk(u64),
    RequestUpdate { request_id: u64, existing_request_id: u64, parameters: Seq<MessageParameter> },
    Unsubscribe(u64),
    Switch {
        request_id: u64,
        track: TrackName,
        subscription_request_id: u64,
        pairs: Seq<PairView>,
    },
    Fetch(FetchView),
    FetchOk(FetchOk),
    FetchCancel(u64),
    Publish {
        request_id: u64,
        track: TrackName,
        track_alias: u64,
        parameters: Seq<MessageParameter>,
        extensions: Seq<TrackExtension>,
    },
    PublishOk(u64),
    PublishDone {
        request_id: u64,
        status_code: PublishDoneStatusCode,
        stream_count: u64,
        reason: Seq<char>,
    },
    ClientSetup,
    SubscribeNamespace(u64),
    Other,
}

impl View for ControlMessage {
    type V = ControlView;

    open spec fn view(&self) -> ControlView {
        match self {
            ControlMessage::Subscribe(m) => ControlView::Subscribe(m@),
            ControlMessage::SubscribeOk(m) => ControlView::SubscribeOk(m@),
            ControlMessage::RequestError(m) => ControlView::RequestError(m@),
            ControlMessage::RequestOk { request_id } => ControlView::RequestOk(*request_id),
            ControlMessage::RequestUpdate(m) => ControlView::RequestUpdate {
                request_id: m.request_id,
                existing_request_id: m.existing_request_id,
                parameters: m.parameters@,
            },
            ControlMessage::Unsubscribe { request_id } => ControlView::Unsubscribe(*request_id),
            ControlMessage::Switch(m) => ControlView::Switch {
                request_id: m.request_id,
                track: m.track@,
                subscription_request_id: m.subscription_request_id,
                pairs: pairs::pairs_view(m.subscribe_parameters@),
            },
            ControlMessage::Fetch(m) => ControlView::Fetch(m@),
            ControlMessage::FetchOk(m) => ControlView::FetchOk(*m),
            ControlMessage::FetchCancel { request_id } => ControlView::FetchCancel(*request_id),
            ControlMessage::Publish(m) => ControlView::Publish {
                request_id: m.request_id,
                track: m.track@,
                track_alias: m.track_alias,
                parameters: m.parameters@,
                extensions: m.track_extensions@,
            },
            ControlMessage::PublishOk { request_id } => ControlView::PublishOk(*request_id),
            ControlMessage::PublishDone(m) => ControlView::PublishDone {
                request_id: m.request_id,
                status_code: m.status_code,
                stream_count: m.stream_count,
                reason: m.reason_phrase@,
            },
            ControlMessage::ClientSetup => ControlView::ClientSetup,
            ControlMessage::SubscribeNamespace { request_id } => ControlView::SubscribeNamespace(
                *request_id,
            ),
            ControlMessage::Other => ControlView::Other,
        }
    }
}

/// A subscribe request as the relay keeps it.
#[derive(Debug)]
pub struct SubscribeRequest {
    pub original_request_id: u64,
    pub requested_by: usize,
    pub original_subscribe_request: Subscribe,
    pub subscribe_request_to_publisher: Option<Subscribe>,
}

#[verifier::ext_equal]
pub struct SubscribeRequestView {
    pub original_request_id: u64,
    pub requested_by: usize,
    pub original: SubscribeView,
    pub to_publisher: Option<SubscribeView>,
}

impl View for SubscribeRequest {
    type V = SubscribeRequestView;

    open spec fn view(&self) -> SubscribeRequestView {
        SubscribeRequestView {
            original_request_id: self.original_request_id,
            requested_by: self.requested_by,
            original: self.original_subscribe_request@,
            to_publisher: match self.subscribe_request_to_publisher {
                Some(s) => Some(s@),
                None => None,
            },
        }
    }
}

/// A fetch request as the relay keeps it.
#[derive(Debug)]
pub struct FetchRequest {
    pub original_request_id: u64,
    pub requested_by: usize,
    pub fetch_request: Fetch,
    pub track_alias: u64,
}

#[verifier::ext_equal]
pub struct FetchRequestView {
    pub original_request_id: u64,
    pub requested_by: usize,
    pub fetch: FetchView,
    pub track_alias: u64,
}

impl View for FetchRequest {
    type V = FetchRequestView;

    open spec fn view(&self) -> FetchRequestView {
        FetchRequestView {
            original_request_id: self.original_request_id,
            requested_by: self.requested_by,
            fetch: self.fetch_request@,
            track_alias: self.track_alias,
        }
    }
}

} // verus!
