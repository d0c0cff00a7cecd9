//! How the relay handles fetches: which objects are asked for, and where they are to be had.
use crate::client::MOQTClient;
use crate::control::{
    ControlMessage, ControlView, Fetch, FetchOk, FetchRequest, FetchRequestView, FetchView,
    RequestError,
};
use crate::control;
use crate::location::Location;
use crate::message::{copy_params, FetchType, MessageParameter, RequestErrorCode, TerminationCode};
use crate::names::TrackName;
use crate::session_context::{
    PendingRequest, PendingView, RequestMaps, SessionContext, UpstreamFetchEvent,
};
use crate::session_context;
use crate::track::Track;
use crate::track_manager::TrackManager;
use vstd::prelude::*;

verus! {

/// The messages that wait for a client.
pub open spec fn queued(client: MOQTClient) -> Seq<ControlView> {
    Seq::new(client.message_queue@.len(), |i: int| client.message_queue@[i]@)
}

/// What a fetch asks for.
pub enum FetchVerdict {
    /// No track that the relay knows.
    UnknownTrack,
    /// A range that starts behind the end of the track.
    BadRange,
    /// The objects from `start` up to and without `end`.
    Range { relay_track_id: u64, start: Location, end: Location },
}

/// The range of a fetch that joins a subscription to a track: up to the largest object, from a
/// group that is named or counted back from the largest.
pub open spec fn joining_range(t: Track, fetch_type: FetchType, joining_start: u64) -> FetchVerdict {
    let largest = t.largest_location;
    if largest.group < joining_start {
        FetchVerdict::BadRange
    } else {
        FetchVerdict::Range {
            relay_track_id: t.relay_track_id,
            start: Location {
                group: if fetch_type is RelativeFetch {
                    (largest.group - joining_start) as u64
                } else {
                    joining_start
                },
                object: 0,
            },
            end: Location { group: largest.group, object: (largest.object + 1) as u64 },
        }
    }
}

pub open spec fn fetch_verdict(client: MOQTClient, tracks: TrackManager, f: FetchView) -> FetchVerdict {
    match f.joining {
        Some(j) => {
            let name = client.subscribe_requests@[j.joining_request_id]@.original.track;
            if client.subscribe_requests@.contains_key(j.joining_request_id)
                && tracks.tracks@.contains_key(name) {
                joining_range(tracks.tracks@[name], f.fetch_type, j.joining_start)
            } else {
                FetchVerdict::UnknownTrack
            }
        },
        None => match f.standalone {
            Some((name, start, end)) => if tracks.tracks@.contains_key(name) {
                FetchVerdict::Range {
                    relay_track_id: tracks.tracks@[name].relay_track_id,
                    start,
                    end,
                }
            } else {
                FetchVerdict::UnknownTrack
            },
            None => FetchVerdict::UnknownTrack,
        },
    }
}

/// Every known track leaves room for an object after its largest.
pub open spec fn room_for_objects(tracks: TrackManager) -> bool {
    forall|n: TrackName| #[trigger]
        tracks.tracks@.contains_key(n) ==> tracks.tracks@[n].largest_location.object < u64::MAX
}

/// The delivery of the objects of one fetch.
pub struct FetchDelivery {
    pub request_id: u64,
    pub relay_track_id: u64,
    pub start: Location,
    pub end: Location,
    /// The group to be served next.
    pub group_id: u64,
    pub object_count: u64,
    pub upstream_gap_count: u64,
    pub max_upstream_fetch_gaps: u64,
    pub cancelled: bool,
}

fn refuse(client: &mut MOQTClient, request_id: u64, error_code: RequestErrorCode, reason: &str)
    requires
        old(client).wf(),
    ensures
        final(client).wf(),
        queued(*final(client)) == queued(*old(client)).push(
            control::refusal(request_id, error_code, reason@),
        ),
        final(client).inbound_requests@ == old(client).inbound_requests@.remove(request_id),
        final(client).incoming_fetch_requests@ == old(client).incoming_fetch_requests@.remove(
            request_id,
        ),
        *final(client) == (MOQTClient {
            message_queue: final(client).message_queue,
            inbound_requests: final(client).inbound_requests,
            incoming_fetch_requests: final(client).incoming_fetch_requests,
            ..*old(client)
        }),
{
    let error = RequestError {
        request_id,
        error_code,
        retry_interval: 0,
        reason_phrase: reason.to_owned(),
    };
    client.queue_message(ControlMessage::RequestError(error));
    assert(queued(*client) =~= queued(*old(client)).push(
        control::refusal(request_id, error_code, reason@),
    ));
    client.inbound_requests.remove(&request_id);
    client.incoming_fetch_requests.remove(&request_id);
}

/// A fetch that is refused: the client is told, and the request forgotten.
pub open spec fn fetch_refused(
    old_client: MOQTClient,
    client: MOQTClient,
    request_id: u64,
    told: Seq<ControlView>,
) -> bool {
    &&& queued(client) == queued(old_client) + told
    &&& client.inbound_requests@ == old_client.inbound_requests@.remove(request_id)
    &&& client.incoming_fetch_requests@ == old_client.incoming_fetch_requests@.remove(request_id)
    &&& client == (MOQTClient {
        message_queue: client.message_queue,
        inbound_requests: client.inbound_requests,
        incoming_fetch_requests: client.incoming_fetch_requests,
        ..old_client
    })
}

/// A fetch request as it is kept.
pub open spec fn kept_fetch(f: FetchView, connection_id: usize, track_alias: u64) -> FetchRequestView {
    FetchRequestView {
        original_request_id: f.request_id,
        requested_by: connection_id,
        fetch: f,
        track_alias,
    }
}

/// A fetch that is accepted: the client is told where it ends, and the request is kept under the
/// relay's id of the track until it is done or cancelled.
pub open spec fn fetch_accepted(
    old_client: MOQTClient,
    client: MOQTClient,
    f: FetchView,
    connection_id: usize,
    relay_track_id: u64,
    end: Location,
) -> bool {
    let id = f.request_id;
    &&& queued(client) == queued(old_client).push(
        ControlView::FetchOk(FetchOk { request_id: id, end_of_track: false, end_location: end }),
    )
    &&& client.incoming_fetch_requests@ == old_client.incoming_fetch_requests@.insert(
        id,
        client.incoming_fetch_requests@[id],
    )
    &&& client.incoming_fetch_requests@[id]@ == kept_fetch(f, connection_id, relay_track_id)
    &&& client.inbound_requests@ == old_client.inbound_requests@.insert(
        id,
        client.inbound_requests@[id],
    )
    &&& client.inbound_requests@[id]@ == PendingView::Fetch(
        kept_fetch(f, connection_id, relay_track_id),
    )
    &&& client.fetch_cancel_senders@ == old_client.fetch_cancel_senders@.insert(id, ())
    &&& client == (MOQTClient {
        message_queue: client.message_queue,
        incoming_fetch_requests: client.incoming_fetch_requests,
        inbound_requests: client.inbound_requests,
        fetch_cancel_senders: client.fetch_cancel_senders,
        ..old_client
    })
}

/// What the handling of a fetch does.
pub open spec fn fetch_handled(
    old_client: MOQTClient,
    client: MOQTClient,
    tracks: TrackManager,
    context: SessionContext,
    f: FetchView,
    max_upstream_fetch_gaps: u64,
    r: Result<Option<FetchDelivery>, TerminationCode>,
) -> bool {
    let unknown = control::refusal(
        f.request_id,
        RequestErrorCode::DoesNotExist,
        "Track does not exist"@,
    );
    if f.request_id >= context.max_request_id {
        r == Err::<Option<FetchDelivery>, TerminationCode>(TerminationCode::TooManyRequests)
            && client == old_client
    } else {
        match fetch_verdict(old_client, tracks, f) {
            FetchVerdict::UnknownTrack => r matches Ok(None) && fetch_refused(
                old_client,
                client,
                f.request_id,
                seq![unknown],
            ),
            FetchVerdict::BadRange => r matches Ok(None) && fetch_refused(
                old_client,
                client,
                f.request_id,
                seq![
                    control::refusal(
                        f.request_id,
                        RequestErrorCode::InvalidRange,
                        "Invalid range"@,
                    ),
                    unknown,
                ],
            ),
            FetchVerdict::Range { relay_track_id, start, end } => {
                &&& r matches Ok(Some(d)) && d == (FetchDelivery {
                    request_id: f.request_id,
                    relay_track_id,
                    start,
                    end,
                    group_id: start.group,
                    object_count: 0,
                    upstream_gap_count: 0,
                    max_upstream_fetch_gaps,
                    cancelled: false,
                })
                &&& fetch_accepted(
                    old_client,
                    client,
                    f,
                    old_client.connection_id,
                    relay_track_id,
                    end,
                )
            },
        }
    }
}

/// The track that a fetch names, with the range asked for; and whether the range is a bad one.
fn resolve(client: &MOQTClient, tracks: &TrackManager, fetch: &Fetch) -> (r: (
    bool,
    Option<(u64, Location, Location)>,
))
    requires
        client.wf(),
        tracks.wf(),
        room_for_objects(*tracks),
    ensures
        match fetch_verdict(*client, *tracks, fetch@) {
            FetchVerdict::UnknownTrack => r == (false, None::<(u64, Location, Location)>),
            FetchVerdict::BadRange => r == (true, None::<(u64, Location, Location)>),
            FetchVerdict::Range { relay_track_id, start, end } => r == (
                false,
                Some((relay_track_id, start, end)),
            ),
        },
{
    match &fetch.joining_fetch_props {
        Some(j) => {
            let name = match client.subscribe_requests.get(&j.joining_request_id) {
                Some(req) => &req.original_subscribe_request.track,
                None => {
                    return (false, None);
                },
            };
            match tracks.get_track(name) {
                Some(track) => {
                    let largest = track.largest_location;
                    if largest.group < j.joining_start {
                        return (true, None);
                    }
                    let start_group: u64 = if fetch.fetch_type == FetchType::RelativeFetch {
                        largest.group - j.joining_start
                    } else {
                        j.joining_start
                    };
                    let start = Location::new(start_group, 0);
                    let end = Location::new(largest.group, largest.object + 1);
                    (false, Some((track.relay_track_id, start, end)))
                },
                None => (false, None),
            }
        },
        None => match &fetch.standalone_fetch_props {
            Some(props) => match tracks.get_track(&props.track) {
                Some(track) => (
                    false,
                    Some((track.relay_track_id, props.start_location, props.end_location)),
                ),
                None => (false, None),
            },
            None => (false, None),
        },
    }
}

/// Handles a fetch. A fetch of a track that the relay does not know, or of a range behind the
/// track's end, is refused; any other is accepted and its delivery can begin.
pub fn handle_fetch_message(
    client: &mut MOQTClient,
    tracks: &TrackManager,
    context: &SessionContext,
    fetch: &Fetch,
    max_upstream_fetch_gaps: u64,
) -> (r: Result<Option<FetchDelivery>, TerminationCode>)
    requires
        old(client).wf(),
        tracks.wf(),
        room_for_objects(*tracks),
        fetch@.joining is Some || fetch@.standalone is Some,
    ensures
        final(client).wf(),
        fetch_handled(
            *old(client),
            *final(client),
            *tracks,
            *context,
            fetch@,
            max_upstream_fetch_gaps,
            r,
        ),
{
    let request_id: u64 = fetch.request_id;
    if request_id >= context.max_request_id {
        return Err(TerminationCode::TooManyRequests);
    }
    let (bad_range, range) = resolve(client, tracks, fetch);
    let (relay_track_id, start, end): (u64, Location, Location) = match range {
        Some(x) => x,
        None => {
            if bad_range {
                refuse(client, request_id, RequestErrorCode::InvalidRange, "Invalid range");
            }
            let ghost mid = *client;
            refuse(client, request_id, RequestErrorCode::DoesNotExist, "Track does not exist");
            proof {
                let unknown = control::refusal(
                    request_id,
                    RequestErrorCode::DoesNotExist,
                    "Track does not exist"@,
                );
                let invalid = control::refusal(
                    request_id,
                    RequestErrorCode::InvalidRange,
                    "Invalid range"@,
                );
                if bad_range {
                    assert(queued(*client) =~= queued(*old(client)) + seq![invalid, unknown]);
                    assert(client.inbound_requests@ =~= old(client).inbound_requests@.remove(
                        request_id,
                    ));
                    assert(client.incoming_fetch_requests@
                        =~= old(client).incoming_fetch_requests@.remove(request_id));
                } else {
                    assert(queued(*client) =~= queued(*old(client)) + seq![unknown]);
                }
            }
            return Ok(None);
        },
    };
    let request = FetchRequest {
        original_request_id: request_id,
        requested_by: client.connection_id,
        fetch_request: fetch.copy(),
        track_alias: relay_track_id,
    };
    let same = FetchRequest {
        original_request_id: request_id,
        requested_by: client.connection_id,
        fetch_request: fetch.copy(),
        track_alias: relay_track_id,
    };
    client.incoming_fetch_requests.insert(request_id, request);
    client.inbound_requests.insert(request_id, PendingRequest::Fetch(same));
    let ok = FetchOk { request_id, end_of_track: false, end_location: end };
    client.queue_message(ControlMessage::FetchOk(ok));
    assert(queued(*client) =~= queued(*old(client)).push(ControlView::FetchOk(ok)));
    client.fetch_cancel_senders.insert(request_id, ());
    Ok(
        Some(
            FetchDelivery {
                request_id,
                relay_track_id,
                start,
                end,
                group_id: start.group,
                object_count: 0,
                upstream_gap_count: 0,
                max_upstream_fetch_gaps,
                cancelled: false,
            },
        ),
    )
}

/// A step in the delivery of a fetch.
#[derive(Debug, Clone, Copy, PartialEq, Eq, Structural)]
pub enum DeliveryStep {
    /// The client has cancelled the fetch.
    Cancelled,
    /// The objects of this group are in the cache.
    ServeGroup { group_id: u64 },
    /// These groups are not in the cache; their publisher is asked for them.
    FetchUpstream { gap_start: u64, gap_end: u64 },
    /// These groups are not in the cache, and the publisher was asked often enough.
    SkipGap { gap_start: u64, gap_end: u64 },
    /// Every group was dealt with.
    Finished,
}

/// `last` is the last group of the run of groups from `first` on that ends before the next cached
/// one, or at `end`.
pub open spec fn gap_ends_at(cached: Seq<u64>, first: u64, end: u64, last: u64) -> bool {
    &&& first <= last <= end
    &&& forall|g: u64| first < g <= last ==> !#[trigger] cached.contains(g)
    &&& last == end || cached.contains((last + 1) as u64)
}

/// The step that comes next, and what it makes of the delivery.
pub open spec fn delivery_step(
    d: FetchDelivery,
    cached: Seq<u64>,
    cancel: bool,
    after: FetchDelivery,
    step: DeliveryStep,
) -> bool {
    if d.group_id > d.end.group {
        step is Finished && after == d
    } else if cancel {
        step is Cancelled && after == (FetchDelivery { cancelled: true, ..d })
    } else if cached.contains(d.group_id) {
        &&& step == (DeliveryStep::ServeGroup { group_id: d.group_id })
        &&& after == (FetchDelivery { group_id: (d.group_id + 1) as u64, ..d })
    } else if d.upstream_gap_count >= d.max_upstream_fetch_gaps {
        &&& step matches DeliveryStep::SkipGap { gap_start, gap_end } && gap_start == d.group_id
            && gap_ends_at(cached, d.group_id, d.end.group, gap_end) && after == (FetchDelivery {
            group_id: (gap_end + 1) as u64,
            ..d
        })
    } else {
        &&& step matches DeliveryStep::FetchUpstream { gap_start, gap_end } && gap_start
            == d.group_id && gap_ends_at(cached, d.group_id, d.end.group, gap_end) && after == (
        FetchDelivery {
            group_id: (gap_end + 1) as u64,
            upstream_gap_count: (d.upstream_gap_count + 1) as u64,
            ..d
        })
    }
}

/// Whether a step deals with a group.
pub open spec fn deals_with(step: DeliveryStep, g: u64) -> bool {
    match step {
        DeliveryStep::ServeGroup { group_id } => g == group_id,
        DeliveryStep::FetchUpstream { gap_start, gap_end } => gap_start <= g <= gap_end,
        DeliveryStep::SkipGap { gap_start, gap_end } => gap_start <= g <= gap_end,
        _ => false,
    }
}

/// How a fetch ends.
#[derive(Debug, Clone, Copy, PartialEq, Eq, Structural)]
pub enum FetchEnding {
    /// The stream, if one was opened, is closed: the client has cancelled.
    CloseCancelled,
    /// Nothing lay in the range: a stream is opened and closed without an object.
    OpenAndClose,
    /// The stream is closed: everything was sent.
    Close,
}

/// Whether object `id` of a group lies before the start of a range.
pub open spec fn too_early(start: Location, group_id: u64, id: u64) -> bool {
    group_id == start.group && id < start.object
}

/// Whether object `id` of a group lies behind the end of a range.
pub open spec fn too_late(end: Location, group_id: u64, id: u64) -> bool {
    group_id == end.group && id >= end.object
}

/// The objects of a cached group that are sent, by position: those not before the start, up to
/// the first of them that lies behind the end.
pub open spec fn chosen(start: Location, end: Location, group_id: u64, ids: Seq<u64>) -> Seq<int>
    decreases ids.len(),
{
    if ids.len() == 0 {
        Seq::empty()
    } else {
        let before = chosen(start, end, group_id, ids.drop_last());
        let i = ids.len() - 1;
        if stopped(start, end, group_id, ids.drop_last()) || too_early(start, group_id, ids.last())
            || too_late(end, group_id, ids.last()) {
            before
        } else {
            before.push(i)
        }
    }
}

/// Whether one of these objects lies behind the end without lying before the start.
pub open spec fn stopped(start: Location, end: Location, group_id: u64, ids: Seq<u64>) -> bool {
    exists|k: int|
        0 <= k < ids.len() && !too_early(start, group_id, #[trigger] ids[k]) && too_late(
            end,
            group_id,
            ids[k],
        )
}

fn holds(groups: &Vec<u64>, g: u64) -> (b: bool)
    ensures
        b == groups@.contains(g),
{
    let mut i: usize = 0;
    while i < groups.len()
        invariant
            i <= groups@.len(),
            forall|j: int| 0 <= j < i ==> groups@[j] != g,
        decreases groups@.len() - i,
    {
        if groups[i] == g {
            return true;
        }
        i = i + 1;
    }
    false
}

impl FetchDelivery {
    /// What is done next, given which groups the cache holds and whether the client has cancelled.
    pub fn next_step(&mut self, cached: &Vec<u64>, cancel: bool) -> (step: DeliveryStep)
        requires
            old(self).end.group < u64::MAX,
        ensures
            delivery_step(*old(self), cached@, cancel, *final(self), step),
    {
        if self.group_id > self.end.group {
            return DeliveryStep::Finished;
        }
        if cancel {
            self.cancelled = true;
            return DeliveryStep::Cancelled;
        }
        let gap_start: u64 = self.group_id;
        if holds(cached, gap_start) {
            self.group_id = gap_start + 1;
            return DeliveryStep::ServeGroup { group_id: gap_start };
        }
        let mut gap_end: u64 = gap_start;
        while gap_end < self.end.group && !holds(cached, gap_end + 1)
            invariant
                gap_start <= gap_end <= self.end.group,
                self.end.group < u64::MAX,
                *self == *old(self),
                forall|g: u64| gap_start < g <= gap_end ==> !#[trigger] cached@.contains(g),
            decreases self.end.group - gap_end,
        {
            gap_end = gap_end + 1;
        }
        self.group_id = gap_end + 1;
        if self.upstream_gap_count >= self.max_upstream_fetch_gaps {
            return DeliveryStep::SkipGap { gap_start, gap_end };
        }
        self.upstream_gap_count = self.upstream_gap_count + 1;
        DeliveryStep::FetchUpstream { gap_start, gap_end }
    }

    /// The objects of a cached group that are sent, by their places in the group.
    pub fn objects_to_send(&self, group_id: u64, ids: &Vec<u64>) -> (places: Vec<usize>)
        ensures
            places@.map_values(|p: usize| p as int) == chosen(
                self.start,
                self.end,
                group_id,
                ids@,
            ),
    {
        let mut places: Vec<usize> = Vec::new();
        let ghost as_int = |p: usize| p as int;
        let mut i: usize = 0;
        assert(places@.map_values(as_int) =~= chosen(self.start, self.end, group_id, ids@.take(0)));
        while i < ids.len()
            invariant
                i <= ids@.len(),
                as_int == (|p: usize| p as int),
                places@.map_values(as_int) == chosen(
                    self.start,
                    self.end,
                    group_id,
                    ids@.take(i as int),
                ),
                !stopped(self.start, self.end, group_id, ids@.take(i as int)),
            decreases ids@.len() - i,
        {
            let id: u64 = ids[i];
            let ghost done = places@;
            proof {
                assert(ids@.take(i + 1).drop_last() =~= ids@.take(i as int));
                assert(ids@.take(i + 1).last() == id);
            }
            let early = group_id == self.start.group && id < self.start.object;
            let late = group_id == self.end.group && id >= self.end.object;
            if !early && late {
                proof {
                    let cut = ids@.take(i + 1);
                    assert(cut[i as int] == id);
                    assert(stopped(self.start, self.end, group_id, cut));
                    assert(places@.map_values(as_int) == chosen(
                        self.start,
                        self.end,
                        group_id,
                        cut,
                    ));
                    lemma_chosen_stopped(self.start, self.end, group_id, ids@, i + 1);
                }
                return places;
            }
            if !early {
                places.push(i);
                proof {
                    assert(places@.map_values(as_int) =~= done.map_values(as_int).push(i as int));
                }
            }
            proof {
                let now = ids@.take(i + 1);
                if stopped(self.start, self.end, group_id, now) {
                    let k = choose|k: int|
                        0 <= k < now.len() && !too_early(
                            self.start,
                            group_id,
                            #[trigger] now[k],
                        ) && too_late(self.end, group_id, now[k]);
                    if k < i {
                        assert(ids@.take(i as int)[k] == now[k]);
                        assert(stopped(self.start, self.end, group_id, ids@.take(i as int)));
                    }
                }
            }
            i = i + 1;
        }
        assert(ids@.take(i as int) =~= ids@);
        places
    }

    /// Whether a stream has yet to be opened: it is, with the first object.
    pub fn needs_stream(&self) -> (b: bool)
        ensures
            b == (self.object_count == 0),
    {
        self.object_count == 0
    }

    /// Counts an object that was sent.
    pub fn object_sent(&mut self)
        requires
            old(self).object_count < u64::MAX,
        ensures
            *final(self) == (FetchDelivery {
                object_count: (old(self).object_count + 1) as u64,
                ..*old(self)
            }),
    {
        self.object_count = self.object_count + 1;
    }

    /// Takes in what came of an upstream fetch, or that the client has cancelled. Says whether an
    /// object came, to be sent on; with anything else the upstream fetch is over.
    pub fn upstream_event(&mut self, event: UpstreamFetchEvent, cancel: bool) -> (send: bool)
        ensures
            send == (!cancel && event is Object),
            *final(self) == (FetchDelivery {
                cancelled: old(self).cancelled || cancel,
                ..*old(self)
            }),
    {
        if cancel {
            self.cancelled = true;
            return false;
        }
        match event {
            UpstreamFetchEvent::Object(_) => true,
            _ => false,
        }
    }

    /// How the fetch ends.
    pub open spec fn ending(&self) -> FetchEnding {
        if self.cancelled {
            FetchEnding::CloseCancelled
        } else if self.object_count == 0 {
            FetchEnding::OpenAndClose
        } else {
            FetchEnding::Close
        }
    }
}

proof fn lemma_chosen_stopped(start: Location, end: Location, group_id: u64, ids: Seq<u64>, n: int)
    requires
        0 <= n <= ids.len(),
        stopped(start, end, group_id, ids.take(n)),
    ensures
        chosen(start, end, group_id, ids) == chosen(start, end, group_id, ids.take(n)),
    decreases ids.len() - n,
{
    if n == ids.len() {
        assert(ids.take(n) =~= ids);
    } else {
        let next = ids.take(n + 1);
        assert(next.drop_last() =~= ids.take(n));
        let k = choose|k: int|
            0 <= k < ids.take(n).len() && !too_early(
                start,
                group_id,
                #[trigger] ids.take(n)[k],
            ) && too_late(end, group_id, ids.take(n)[k]);
        assert(next[k] == ids.take(n)[k]);
        assert(stopped(start, end, group_id, next));
        lemma_chosen_stopped(start, end, group_id, ids, n + 1);
    }
}

/// Ends the delivery of a fetch: a range without an object is acknowledged once more, up to where
/// it starts, and the request is forgotten.
pub fn conclude_fetch(client: &mut MOQTClient, delivery: &FetchDelivery) -> (ending: FetchEnding)
    requires
        old(client).wf(),
    ensures
        final(client).wf(),
        ending == delivery.ending(),
        ending is OpenAndClose ==> (queued(*final(client)).last() matches ControlView::FetchOk(ok)
            && ok.request_id == delivery.request_id && forall|l: Location| #[trigger]
            l.before(ok.end_location) ==> l.before(delivery.start)),
        queued(*final(client)) == if ending is OpenAndClose {
            queued(*old(client)).push(
                ControlView::FetchOk(
                    FetchOk {
                        request_id: delivery.request_id,
                        end_of_track: false,
                        end_location: delivery.start,
                    },
                ),
            )
        } else {
            queued(*old(client))
        },
        final(client).inbound_requests@ == old(client).inbound_requests@.remove(
            delivery.request_id,
        ),
        final(client).incoming_fetch_requests@ == old(client).incoming_fetch_requests@.remove(
            delivery.request_id,
        ),
        final(client).fetch_cancel_senders@ == old(client).fetch_cancel_senders@.remove(
            delivery.request_id,
        ),
        *final(client) == (MOQTClient {
            message_queue: final(client).message_queue,
            inbound_requests: final(client).inbound_requests,
            incoming_fetch_requests: final(client).incoming_fetch_requests,
            fetch_cancel_senders: final(client).fetch_cancel_senders,
            ..*old(client)
        }),
{
    let ending = if delivery.cancelled {
        FetchEnding::CloseCancelled
    } else if delivery.object_count == 0 {
        let ok = FetchOk {
            request_id: delivery.request_id,
            end_of_track: false,
            end_location: delivery.start,
        };
        client.queue_message(ControlMessage::FetchOk(ok));
        assert(queued(*client) =~= queued(*old(client)).push(ControlView::FetchOk(ok)));
        FetchEnding::OpenAndClose
    } else {
        FetchEnding::Close
    };
    client.inbound_requests.remove(&delivery.request_id);
    client.incoming_fetch_requests.remove(&delivery.request_id);
    client.fetch_cancel_senders.remove(&delivery.request_id);
    ending
}

/// What the cancelling of a fetch does: the request is forgotten, and its delivery, if there is
/// one, is told to stop.
pub open spec fn cancel_handled(
    old_client: MOQTClient,
    client: MOQTClient,
    request_id: u64,
    signal: bool,
) -> bool {
    &&& signal == old_client.fetch_cancel_senders@.contains_key(request_id)
    &&& client.fetch_cancel_senders@ == old_client.fetch_cancel_senders@.remove(request_id)
    &&& client.inbound_requests@ == old_client.inbound_requests@.remove(request_id)
    &&& client.incoming_fetch_requests@ == old_client.incoming_fetch_requests@.remove(request_id)
    &&& client == (MOQTClient {
        fetch_cancel_senders: client.fetch_cancel_senders,
        inbound_requests: client.inbound_requests,
        incoming_fetch_requests: client.incoming_fetch_requests,
        ..old_client
    })
}

/// Handles the cancelling of a fetch. Says whether a delivery is to be told.
pub fn handle_fetch_cancel(client: &mut MOQTClient, request_id: u64) -> (signal: bool)
    requires
        old(client).wf(),
    ensures
        final(client).wf(),
        cancel_handled(*old(client), *final(client), request_id, signal),
{
    let signal = client.fetch_cancel_senders.remove(&request_id).is_some();
    client.inbound_requests.remove(&request_id);
    client.incoming_fetch_requests.remove(&request_id);
    signal
}

/// Handles a publisher's acceptance of a fetch: one that the relay never sent is an error.
pub fn handle_fetch_ok(requests: &RequestMaps, request_id: u64) -> (r: Result<(), TerminationCode>)
    requires
        requests.wf(),
    ensures
        r == if requests.relay_pending_requests@.contains_key(request_id) {
            Ok::<(), TerminationCode>(())
        } else {
            Err(TerminationCode::InternalError)
        },
{
    if requests.relay_pending_requests.contains_key(&request_id) {
        Ok(())
    } else {
        Err(TerminationCode::InternalError)
    }
}

/// The fetch that the relay sends to a publisher for the groups of a gap.
pub open spec fn upstream_fetch(
    relay_id: u64,
    name: TrackName,
    gap_start: u64,
    gap_end: u64,
    parameters: Seq<MessageParameter>,
) -> FetchView {
    FetchView {
        request_id: relay_id,
        fetch_type: FetchType::Standalone,
        standalone: Some(
            (
                name,
                Location { group: gap_start, object: 0 },
                Location { group: gap_end, object: 0 },
            ),
        ),
        joining: None,
        parameters,
    }
}

/// Asks a publisher for the groups of a gap, on behalf of a client. The publisher must have told
/// under which alias it sends the track; the relay's request id is used up either way.
pub fn send_upstream_fetch_for_range(
    publisher: &mut MOQTClient,
    requests: &mut RequestMaps,
    track: &Track,
    client_connection_id: usize,
    original_fetch: &Fetch,
    gap_start: u64,
    gap_end: u64,
) -> (r: Option<u64>)
    requires
        old(publisher).wf(),
        old(requests).wf(),
        track.wf(),
    ensures
        final(publisher).wf(),
        final(requests).wf(),
        final(requests).relay_next_request_id == session_context::next_id(
            old(requests).relay_next_request_id,
        ),
        ({
            let id = old(requests).relay_next_request_id;
            let c = old(publisher).connection_id;
            let f = upstream_fetch(
                id,
                track.full_track_name@,
                gap_start,
                gap_end,
                original_fetch@.parameters,
            );
            if track.publisher_aliases@.contains_key(c) {
                let kept = kept_fetch(f, client_connection_id, track.publisher_aliases@[c]);
                &&& r == Some(id)
                &&& queued(*final(publisher)) == queued(*old(publisher)).push(ControlView::Fetch(f))
                &&& final(publisher).outgoing_fetch_requests@ == old(publisher).outgoing_fetch_requests@.insert(
                    id,
                    final(publisher).outgoing_fetch_requests@[id],
                )
                &&& final(publisher).outgoing_fetch_requests@[id]@ == kept
                &&& *final(publisher) == (MOQTClient {
                    message_queue: final(publisher).message_queue,
                    outgoing_fetch_requests: final(publisher).outgoing_fetch_requests,
                    ..*old(publisher)
                })
                &&& final(requests).relay_pending_requests@ == old(requests).relay_pending_requests@.insert(id, final(requests).relay_pending_requests@[id])
                &&& final(requests).relay_pending_requests@[id]@ == PendingView::Fetch(kept)
                &&& final(requests).upstream_fetch_senders@ == old(requests).upstream_fetch_senders@.insert(id, client_connection_id)
            } else {
                &&& r is None
                &&& *final(publisher) == *old(publisher)
                &&& final(requests).relay_pending_requests == old(requests).relay_pending_requests
                &&& final(requests).upstream_fetch_senders == old(requests).upstream_fetch_senders
            }
        }),
{
    let id: u64 = requests.get_next_relay_request_id();
    let track_alias: u64 = match track.publisher_aliases.get(&publisher.connection_id) {
        Some(a) => *a,
        None => {
            return None;
        },
    };
    let start = Location::new(gap_start, 0);
    let end = Location::new(gap_end, 0);
    let fetch = Fetch::new_standalone(
        id,
        track.full_track_name.copy(),
        start,
        end,
        copy_params(&original_fetch.parameters),
    );
    let kept = FetchRequest {
        original_request_id: id,
        requested_by: client_connection_id,
        fetch_request: fetch.copy(),
        track_alias,
    };
    let same = FetchRequest {
        original_request_id: id,
        requested_by: client_connection_id,
        fetch_request: fetch.copy(),
        track_alias,
    };
    publisher.outgoing_fetch_requests.insert(id, kept);
    requests.relay_pending_requests.insert(id, PendingRequest::Fetch(same));
    requests.upstream_fetch_senders.insert(id, client_connection_id);
    let ghost sent = fetch@;
    publisher.queue_message(ControlMessage::Fetch(fetch));
    assert(queued(*publisher) =~= queued(*old(publisher)).push(ControlView::Fetch(sent)));
    Some(id)
}

/// Forgets an upstream fetch that is over.
pub fn end_upstream_fetch(publisher: &mut MOQTClient, requests: &mut RequestMaps, id: u64)
    requires
        old(publisher).wf(),
        old(requests).wf(),
    ensures
        final(publisher).wf(),
        final(requests).wf(),
        final(publisher).outgoing_fetch_requests@ == old(publisher).outgoing_fetch_requests@.remove(id),
        *final(publisher) == (MOQTClient {
            outgoing_fetch_requests: final(publisher).outgoing_fetch_requests,
            ..*old(publisher)
        }),
        final(requests).relay_pending_requests@ == old(requests).relay_pending_requests@.remove(id),
        final(requests).upstream_fetch_senders@ == old(requests).upstream_fetch_senders@.remove(id),
        final(requests).relay_next_request_id == old(requests).relay_next_request_id,
{
    requests.upstream_fetch_senders.remove(&id);
    requests.relay_pending_requests.remove(&id);
    publisher.outgoing_fetch_requests.remove(&id);
}

/// What the handling of a message asks for.
pub enum FetchOutcome {
    /// Objects are to be delivered.
    Deliver(FetchDelivery),
    /// The delivery of this request is told to stop.
    Stop { request_id: u64 },
    Nothing,
}

/// Handles a message that concerns fetches, and passes any other over.
pub fn handle(
    client: &mut MOQTClient,
    tracks: &TrackManager,
    requests: &RequestMaps,
    context: &SessionContext,
    msg: &ControlMessage,
    max_upstream_fetch_gaps: u64,
) -> (r: Result<FetchOutcome, TerminationCode>)
    requires
        old(client).wf(),
        tracks.wf(),
        requests.wf(),
        room_for_objects(*tracks),
        *msg matches ControlMessage::Fetch(f) ==> f@.joining is Some || f@.standalone is Some,
    ensures
        final(client).wf(),
        match *msg {
            ControlMessage::Fetch(f) => exists|s: Result<Option<FetchDelivery>, TerminationCode>|
                {
                    &&& #[trigger] fetch_handled(
                        *old(client),
                        *final(client),
                        *tracks,
                        *context,
                        f@,
                        max_upstream_fetch_gaps,
                        s,
                    )
                    &&& match s {
                        Ok(Some(d)) => r matches Ok(FetchOutcome::Deliver(e)) && d == e,
                        Ok(None) => r matches Ok(FetchOutcome::Nothing),
                        Err(e) => r matches Err(f) && e == f,
                    }
                },
            ControlMessage::FetchCancel { request_id } => {
                let signal = old(client).fetch_cancel_senders@.contains_key(request_id);
                &&& cancel_handled(*old(client), *final(client), request_id, signal)
                &&& if signal {
                    r matches Ok(FetchOutcome::Stop { request_id: id }) && id == request_id
                } else {
                    r matches Ok(FetchOutcome::Nothing)
                }
            },
            ControlMessage::FetchOk(m) => {
                &&& *final(client) == *old(client)
                &&& if requests.relay_pending_requests@.contains_key(m.request_id) {
                    r matches Ok(FetchOutcome::Nothing)
                } else {
                    r matches Err(e) && e is InternalError
                }
            },
            _ => *final(client) == *old(client) && r matches Ok(FetchOutcome::Nothing),
        },
{
    match msg {
        ControlMessage::Fetch(f) => {
            let s = handle_fetch_message(client, tracks, context, f, max_upstream_fetch_gaps);
            match s {
                Ok(Some(d)) => Ok(FetchOutcome::Deliver(d)),
                Ok(None) => Ok(FetchOutcome::Nothing),
                Err(e) => Err(e),
            }
        },
        ControlMessage::FetchCancel { request_id } => {
            if handle_fetch_cancel(client, *request_id) {
                Ok(FetchOutcome::Stop { request_id: *request_id })
            } else {
                Ok(FetchOutcome::Nothing)
            }
        },
        ControlMessage::FetchOk(m) => match handle_fetch_ok(requests, m.request_id) {
            Ok(()) => Ok(FetchOutcome::Nothing),
            Err(e) => Err(e),
        },
        _ => Ok(FetchOutcome::Nothing),
    }
}

/// A step of a delivery that is not cancelled deals with the groups from where the delivery stood
/// to where it stands afterwards, and with no others: successive steps leave no group out and take
/// none twice. It asks a publisher at most as often as it may.
pub proof fn law_delivery_takes_every_group_once(
    d: FetchDelivery,
    cached: Seq<u64>,
    after: FetchDelivery,
    step: DeliveryStep,
    g: u64,
)
    requires
        d.end.group < u64::MAX,
        delivery_step(d, cached, false, after, step),
        d.upstream_gap_count <= d.max_upstream_fetch_gaps,
    ensures
        deals_with(step, g) <==> d.group_id <= g < after.group_id,
        step is Finished <==> d.group_id > d.end.group,
        !(step is Finished) ==> d.group_id < after.group_id <= d.end.group + 1,
        step is ServeGroup ==> cached.contains(d.group_id),
        step is FetchUpstream || step is SkipGap ==> (deals_with(step, g) ==> !cached.contains(g)),
        after.upstream_gap_count <= after.max_upstream_fetch_gaps,
{
}

/// Of a cached group whose objects stand in order, exactly those in the range are sent.
pub proof fn law_sent_objects_are_those_in_the_range(
    start: Location,
    end: Location,
    group_id: u64,
    ids: Seq<u64>,
    i: int,
)
    requires
        0 <= i < ids.len(),
        start.group <= group_id <= end.group,
        forall|a: int, b: int| 0 <= a < b < ids.len() ==> ids[a] < ids[b],
    ensures
        ({
            let l = Location { group: group_id, object: ids[i] };
            chosen(start, end, group_id, ids).contains(i) <==> !l.before(start) && l.before(end)
        }),
    decreases ids.len(),
{
    let init = ids.drop_last();
    let before = chosen(start, end, group_id, init);
    let last = ids.len() - 1;
    lemma_chosen_places(start, end, group_id, init);
    if i < last {
        assert(init[i] == ids[i]);
        assert forall|a: int, b: int| 0 <= a < b < init.len() implies init[a] < init[b] by {
            assert(ids[a] < ids[b]);
        }
        law_sent_objects_are_those_in_the_range(start, end, group_id, init, i);
        if before.contains(i) {
            let k = choose|k: int| 0 <= k < before.len() && before[k] == i;
            assert(before.push(last)[k] == i);
        }
        if before.push(last).contains(i) {
            let k = choose|k: int| 0 <= k < before.push(last).len() && before.push(last)[k] == i;
            assert(before[k] == i);
        }
    } else {
        assert(!before.contains(last)) by {
            if before.contains(last) {
                let k = choose|k: int| 0 <= k < before.len() && before[k] == last;
                assert(before[k] < init.len());
            }
        }
        assert(before.push(last)[before.len() as int] == last);
        assert(before.push(last).contains(last));
        if stopped(start, end, group_id, init) {
            let k = choose|k: int|
                0 <= k < init.len() && !too_early(start, group_id, #[trigger] init[k]) && too_late(
                    end,
                    group_id,
                    init[k],
                );
            assert(ids[k] < ids[last]);
        }
    }
}

proof fn lemma_chosen_places(start: Location, end: Location, group_id: u64, ids: Seq<u64>)
    ensures
        forall|k: int|
            0 <= k < chosen(start, end, group_id, ids).len() ==> 0 <= #[trigger] chosen(
                start,
                end,
                group_id,
                ids,
            )[k] < ids.len(),
    decreases ids.len(),
{
    if ids.len() > 0 {
        lemma_chosen_places(start, end, group_id, ids.drop_last());
        let before = chosen(start, end, group_id, ids.drop_last());
        let now = chosen(start, end, group_id, ids);
        assert forall|k: int| 0 <= k < now.len() implies 0 <= #[trigger] now[k] < ids.len() by {
            if k < before.len() {
                assert(before[k] == now[k]);
            }
        }
    }
}

/// A fetch that joins the current group of a subscription, counted back by none, asks for exactly
/// what the group holds so far: from its first object to the largest one.
pub proof fn law_joining_the_current_group(t: Track, l: Location)
    requires
        t.largest_location.object < u64::MAX,
    ensures
        joining_range(t, FetchType::RelativeFetch, 0) matches FetchVerdict::Range {
            relay_track_id,
            start,
            end,
        } && relay_track_id == t.relay_track_id && (!l.before(start) && l.before(end) <==> l.group
            == t.largest_location.group && l.object <= t.largest_location.object),
{
}

/// A fetch that joins a subscription is refused exactly where it starts behind the largest group;
/// any other, of either kind, asks for every position from the first object of its start group up
/// to and with the largest object, and for no other. The start group is the one that is named, or
/// lies as many groups before the largest one as the number says.
pub proof fn law_joining_reaches_the_largest_object(
    t: Track,
    fetch_type: FetchType,
    joining_start: u64,
    l: Location,
)
    requires
        t.largest_location.object < u64::MAX,
    ensures
        ({
            let largest = t.largest_location;
            let r = joining_range(t, fetch_type, joining_start);
            &&& !(r is UnknownTrack)
            &&& r is BadRange <==> joining_start > largest.group
            &&& r matches FetchVerdict::Range { relay_track_id, start, end } ==> {
                &&& relay_track_id == t.relay_track_id
                &&& fetch_type is RelativeFetch ==> start.group + joining_start == largest.group
                &&& !(fetch_type is RelativeFetch) ==> start.group == joining_start
                &&& !l.before(start) && l.before(end) <==> l.group >= start.group && (l.group
                    < largest.group || l.group == largest.group && l.object <= largest.object)
                &&& !largest.before(start) && largest.before(end)
            }
        }),
{
}

/// Whether a joining fetch names its first group or counts back to it makes no difference to where
/// it ends, and where both mean the same group, none at all.
pub proof fn law_joining_ends_alike(t: Track, named: u64, back: u64)
    requires
        t.largest_location.object < u64::MAX,
        named <= t.largest_location.group,
        back <= t.largest_location.group,
    ensures
        joining_range(t, FetchType::AbsoluteFetch, named) matches FetchVerdict::Range {
            end: a,
            start: x,
            ..
        } && joining_range(t, FetchType::RelativeFetch, back) matches FetchVerdict::Range {
            end: b,
            start: y,
            ..
        } && a == b && (named + back == t.largest_location.group ==> x == y),
{
}

/// What a fetch asks for is found by what it names: a fetch that joins goes by the track of the
/// subscription that it joins, another by the track and the range in it, which it gets as it is. A
/// track that the relay does not know makes the fetch fail, and nothing else does but a bad range.
pub proof fn law_fetch_goes_by_the_track_it_names(
    client: MOQTClient,
    tracks: TrackManager,
    f: FetchView,
    name: TrackName,
)
    ensures
        f.joining is None ==> (f.standalone matches Some(x) ==> x.0 == name ==> {
            let v = fetch_verdict(client, tracks, f);
            &&& !tracks.tracks@.contains_key(name) ==> v is UnknownTrack
            &&& tracks.tracks@.contains_key(name) ==> (v matches FetchVerdict::Range {
                relay_track_id,
                start,
                end,
            } && relay_track_id == tracks.tracks@[name].relay_track_id && start == x.1 && end
                == x.2)
        }),
        f.joining matches Some(j) ==> {
            let known = client.subscribe_requests@.contains_key(j.joining_request_id);
            let joined = client.subscribe_requests@[j.joining_request_id]@.original.track;
            &&& !known ==> fetch_verdict(client, tracks, f) is UnknownTrack
            &&& known && joined == name && !tracks.tracks@.contains_key(name) ==> fetch_verdict(
                client,
                tracks,
                f,
            ) is UnknownTrack
            &&& known && joined == name && tracks.tracks@.contains_key(name) ==> fetch_verdict(
                client,
                tracks,
                f,
            ) == joining_range(tracks.tracks@[name], f.fetch_type, j.joining_start)
        },
{
}

/// A fetch is turned away only for its request id; every other is either delivered or refused, and
/// not both. One that is delivered has its range told to the client once and its delivery begins
/// at the range's first group with nothing counted; the request is kept as the client's own, so it
/// can be cancelled.
pub proof fn law_a_fetch_is_delivered_or_refused(
    old_client: MOQTClient,
    client: MOQTClient,
    tracks: TrackManager,
    context: SessionContext,
    f: FetchView,
    gaps: u64,
    r: Result<Option<FetchDelivery>, TerminationCode>,
)
    requires
        fetch_handled(old_client, client, tracks, context, f, gaps, r),
    ensures
        r is Err <==> f.request_id >= context.max_request_id,
        r matches Err(e) ==> e is TooManyRequests && client == old_client,
        r matches Ok(Some(d)) ==> {
            &&& d.request_id == f.request_id
            &&& d.group_id == d.start.group
            &&& d.object_count == 0 && d.upstream_gap_count == 0 && !d.cancelled
            &&& d.max_upstream_fetch_gaps == gaps
            &&& queued(client).len() == queued(old_client).len() + 1
            &&& queued(client).last() matches ControlView::FetchOk(ok) && ok.request_id
                == f.request_id && ok.end_location == d.end && !ok.end_of_track
            &&& client.fetch_cancel_senders@.contains_key(f.request_id)
            &&& client.incoming_fetch_requests@.contains_key(f.request_id)
            &&& client.incoming_fetch_requests@[f.request_id]@.fetch == f
            &&& client.incoming_fetch_requests@[f.request_id]@.requested_by
                == old_client.connection_id
            &&& client.incoming_fetch_requests@[f.request_id]@.track_alias == d.relay_track_id
            &&& client.inbound_requests@.contains_key(f.request_id)
        },
        r matches Ok(None) ==> {
            &&& queued(client).len() > queued(old_client).len()
            &&& queued(client).last() matches ControlView::RequestError(e) && e.request_id
                == f.request_id && e.error_code is DoesNotExist
            &&& !client.incoming_fetch_requests@.contains_key(f.request_id)
            &&& !client.inbound_requests@.contains_key(f.request_id)
            &&& client.fetch_cancel_senders@ == old_client.fetch_cancel_senders@
        },
        r is Ok && fetch_verdict(old_client, tracks, f) is UnknownTrack ==> r == Ok::<
            Option<FetchDelivery>,
            TerminationCode,
        >(None) && queued(client).len() == queued(old_client).len() + 1,
        r is Ok && fetch_verdict(old_client, tracks, f) is BadRange ==> r == Ok::<
            Option<FetchDelivery>,
            TerminationCode,
        >(None) && queued(client).len() == queued(old_client).len() + 2 && (queued(client)[queued(
            old_client,
        ).len() as int] matches ControlView::RequestError(e) && e.request_id == f.request_id
            && e.error_code is InvalidRange),
        queued(old_client).is_prefix_of(queued(client)),
        forall|id: u64|
            id != f.request_id ==> (#[trigger] client.inbound_requests@.contains_key(id)
                <==> old_client.inbound_requests@.contains_key(id)),
        forall|id: u64|
            id != f.request_id ==> (#[trigger] client.fetch_cancel_senders@.contains_key(id)
                <==> old_client.fetch_cancel_senders@.contains_key(id)),
{
    reveal_strlit("Track does not exist");
    reveal_strlit("Invalid range");
}

/// A fetch that was accepted is told to stop when it is cancelled, and afterwards nothing of it is
/// left; cancelling one more time tells nobody.
pub proof fn law_cancelling_undoes_a_fetch(
    c0: MOQTClient,
    c1: MOQTClient,
    c2: MOQTClient,
    c3: MOQTClient,
    tracks: TrackManager,
    context: SessionContext,
    f: FetchView,
    gaps: u64,
    d: FetchDelivery,
    first: bool,
    again: bool,
)
    requires
        fetch_handled(c0, c1, tracks, context, f, gaps, Ok(Some(d))),
        cancel_handled(c1, c2, f.request_id, first),
        cancel_handled(c2, c3, f.request_id, again),
    ensures
        first,
        !again,
        c2.fetch_cancel_senders@ == c0.fetch_cancel_senders@.remove(f.request_id),
        c2.inbound_requests@ == c0.inbound_requests@.remove(f.request_id),
        c2.incoming_fetch_requests@ == c0.incoming_fetch_requests@.remove(f.request_id),
        c3.fetch_cancel_senders@ == c2.fetch_cancel_senders@,
{
    let id = f.request_id;
    assert(c2.fetch_cancel_senders@ =~= c0.fetch_cancel_senders@.remove(id));
    assert(c2.inbound_requests@ =~= c0.inbound_requests@.remove(id));
    assert(c2.incoming_fetch_requests@ =~= c0.incoming_fetch_requests@.remove(id));
    assert(c3.fetch_cancel_senders@ =~= c2.fetch_cancel_senders@);
}

/// A step of a delivery never moves its range; it serves a group that is cached and asks for one
/// that is not, as long as it may ask; it takes the whole run up to the next cached group or the
/// end; and it is cancelled exactly where the client has cancelled before the last group was dealt
/// with.
pub proof fn law_delivery_serves_what_is_cached_and_asks_for_the_rest(
    d: FetchDelivery,
    cached: Seq<u64>,
    cancel: bool,
    after: FetchDelivery,
    step: DeliveryStep,
)
    requires
        d.end.group < u64::MAX,
        delivery_step(d, cached, cancel, after, step),
    ensures
        after.start == d.start && after.end == d.end,
        after.request_id == d.request_id && after.relay_track_id == d.relay_track_id,
        after.object_count == d.object_count,
        after.max_upstream_fetch_gaps == d.max_upstream_fetch_gaps,
        step is Cancelled <==> cancel && d.group_id <= d.end.group,
        after.cancelled <==> d.cancelled || step is Cancelled,
        step is Cancelled || step is Finished ==> after.group_id == d.group_id,
        step is ServeGroup <==> !cancel && d.group_id <= d.end.group && cached.contains(d.group_id),
        step is SkipGap ==> d.upstream_gap_count >= d.max_upstream_fetch_gaps
            && after.upstream_gap_count == d.upstream_gap_count,
        step is FetchUpstream ==> d.upstream_gap_count < d.max_upstream_fetch_gaps
            && after.upstream_gap_count == d.upstream_gap_count + 1,
        step is ServeGroup ==> after.upstream_gap_count == d.upstream_gap_count,
        step is FetchUpstream || step is SkipGap ==> after.group_id == d.end.group + 1
            || cached.contains(after.group_id),
{
}

/// The objects that are sent of a group are sent in the group's order, each at most once.
pub proof fn law_sent_objects_keep_their_order(
    start: Location,
    end: Location,
    group_id: u64,
    ids: Seq<u64>,
)
    ensures
        forall|a: int, b: int|
            0 <= a < b < chosen(start, end, group_id, ids).len() ==> 0 <= #[trigger] chosen(
                start,
                end,
                group_id,
                ids,
            )[a] < #[trigger] chosen(start, end, group_id, ids)[b] < ids.len(),
    decreases ids.len(),
{
    if ids.len() > 0 {
        let init = ids.drop_last();
        law_sent_objects_keep_their_order(start, end, group_id, init);
        lemma_chosen_places(start, end, group_id, init);
        let before = chosen(start, end, group_id, init);
        let now = chosen(start, end, group_id, ids);
        assert forall|a: int, b: int| 0 <= a < b < now.len() implies 0 <= #[trigger] now[a]
            < #[trigger] now[b] < ids.len() by {
            assert(before[a] == now[a]);
            if b < before.len() {
                assert(before[b] == now[b]);
            }
        }
    }
}

/// A delivery that was cancelled is only closed; one that sent nothing still opens a stream, and
/// one that sent something does not open another.
pub proof fn law_endings_of_a_delivery(d: FetchDelivery)
    ensures
        d.ending() is CloseCancelled <==> d.cancelled,
        d.ending() is OpenAndClose ==> d.object_count == 0,
        d.ending() is Close ==> d.object_count > 0,
{
}

/// What the relay asks a publisher for in a gap is a fetch of that very track, from the first
/// object of the gap's first group to the gap's last group, under the relay's own request id and
/// with the client's parameters; what it keeps of it says on whose behalf it asked and under which
/// alias the objects will come.
pub proof fn law_upstream_fetch_asks_for_the_gap(
    relay_id: u64,
    name: TrackName,
    gap_start: u64,
    gap_end: u64,
    parameters: Seq<MessageParameter>,
    connection_id: usize,
    track_alias: u64,
)
    ensures
        ({
            let f = upstream_fetch(relay_id, name, gap_start, gap_end, parameters);
            let kept = kept_fetch(f, connection_id, track_alias);
            &&& f.request_id == relay_id
            &&& f.fetch_type is Standalone && f.joining is None
            &&& f.parameters == parameters
            &&& f.standalone matches Some((n, start, end)) && n == name && start.group == gap_start
                && start.object == 0 && end.group == gap_end && end.object == 0
            &&& kept.original_request_id == relay_id
            &&& kept.requested_by == connection_id
            &&& kept.track_alias == track_alias
            &&& kept.fetch == f
        }),
{
}

/// The messages that wait for a client are those of its queue, in their order.
pub proof fn law_messages_wait_in_order(client: MOQTClient, i: int)
    requires
        0 <= i < client.message_queue@.len(),
    ensures
        queued(client).len() == client.message_queue@.len(),
        queued(client)[i] == client.message_queue@[i]@,
{
}

/// The cancelling of a fetch tells its delivery exactly where one still runs: one that was concluded
/// before is not told. Nothing is kept of the request, and no other request feels it.
pub proof fn law_cancelling_tells_a_delivery_that_runs(
    old_client: MOQTClient,
    client: MOQTClient,
    request_id: u64,
    signal: bool,
    other: u64,
)
    requires
        cancel_handled(old_client, client, request_id, signal),
        other != request_id,
    ensures
        !signal ==> client.fetch_cancel_senders@ == old_client.fetch_cancel_senders@,
        signal ==> client.fetch_cancel_senders@.insert(request_id, ())
            == old_client.fetch_cancel_senders@,
        !client.fetch_cancel_senders@.contains_key(request_id),
        !client.inbound_requests@.contains_key(request_id),
        !client.incoming_fetch_requests@.contains_key(request_id),
        client.fetch_cancel_senders@.contains_key(other)
            <==> old_client.fetch_cancel_senders@.contains_key(other),
        client.inbound_requests@.contains_key(other) <==> old_client.inbound_requests@.contains_key(
            other,
        ),
        queued(client) == queued(old_client),
{
    let before = old_client.fetch_cancel_senders@;
    if signal {
        assert(client.fetch_cancel_senders@.insert(request_id, ()) =~= before);
    } else {
        assert(client.fetch_cancel_senders@ =~= before);
    }
}

} // verus!
