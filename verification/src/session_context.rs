//! What a session knows of itself, and the requests that the relay has under way.
use crate::control::{FetchRequest, FetchRequestView, SubscribeRequest, SubscribeRequestView};
use crate::subscription::CachedObject;
use crate::table::Table;
use vstd::prelude::*;

verus! {

/// A request that awaits its answer.
#[derive(Debug)]
pub enum PendingRequest {
    Fetch(FetchRequest),
    Subscribe(SubscribeRequest),
    TrackStatus(SubscribeRequest),
    PublishNamespace { client_connection_id: usize, original_request_id: u64 },
    SubscribeNamespace { client_connection_id: usize, original_request_id: u64 },
    Publish { publisher_connection_id: usize, original_request_id: u64 },
    RequestUpdate { client_connection_id: usize, original_request_id: u64 },
}

/// What a pending request says.
#[verifier::ext_equal]
pub enum PendingView {
    Fetch(FetchRequestView),
    Subscribe(SubscribeRequestView),
    TrackStatus(SubscribeRequestView),
    PublishNamespace(usize, u64),
    SubscribeNamespace(usize, u64),
    Publish(usize, u64),
    RequestUpdate(usize, u64),
}

impl View for PendingRequest {
    type V = PendingView;

    open spec fn view(&self) -> PendingView {
        match self {
            PendingRequest::Fetch(r) => PendingView::Fetch(r@),
            PendingRequest::Subscribe(r) => PendingView::Subscribe(r@),
            PendingRequest::TrackStatus(r) => PendingView::TrackStatus(r@),
            PendingRequest::PublishNamespace {
                client_connection_id,
                original_request_id,
            } => PendingView::PublishNamespace(*client_connection_id, *original_request_id),
            PendingRequest::SubscribeNamespace {
                client_connection_id,
                original_request_id,
            } => PendingView::SubscribeNamespace(*client_connection_id, *original_request_id),
            PendingRequest::Publish {
                publisher_connection_id,
                original_request_id,
            } => PendingView::Publish(*publisher_connection_id, *original_request_id),
            PendingRequest::RequestUpdate {
                client_connection_id,
                original_request_id,
            } => PendingView::RequestUpdate(*client_connection_id, *original_request_id),
        }
    }
}

/// What comes back from a fetch that the relay sent to a publisher.
#[derive(Debug, Clone, Copy, PartialEq, Eq, Structural)]
pub enum UpstreamFetchEvent {
    Object(CachedObject),
    StreamClosed,
    Error,
    /// The channel is gone.
    Dropped,
    /// Nothing came in time.
    TimedOut,
}

/// The requests that the relay has sent, by the request ids that it gave them.
pub struct RequestMaps {
    pub relay_pending_requests: Table<u64, PendingRequest>,
    /// The upstream fetches whose objects are awaited, with the client that they are for.
    pub upstream_fetch_senders: Table<u64, usize>,
    /// The id of the next request that the relay sends.
    pub relay_next_request_id: u64,
}

impl RequestMaps {
    pub open spec fn wf(&self) -> bool {
        self.relay_pending_requests.wf() && self.upstream_fetch_senders.wf()
    }

    pub fn new(relay_next_request_id: u64) -> (m: Self)
        ensures
            m.wf(),
            m.relay_pending_requests@ == Map::<u64, PendingRequest>::empty(),
            m.upstream_fetch_senders@ == Map::<u64, usize>::empty(),
            m.relay_next_request_id == relay_next_request_id,
    {
        RequestMaps {
            relay_pending_requests: Table::new(),
            upstream_fetch_senders: Table::new(),
            relay_next_request_id,
        }
    }

    /// The id for the relay's next request. The relay's ids step by two, so that they never
    /// meet those of its peers.
    pub fn get_next_relay_request_id(&mut self) -> (id: u64)
        requires
            old(self).wf(),
        ensures
            final(self).wf(),
            id == old(self).relay_next_request_id,
            *final(self) == (RequestMaps {
                relay_next_request_id: next_id(id),
                ..*old(self)
            }),
    {
        let id: u64 = self.relay_next_request_id;
        self.relay_next_request_id = id.wrapping_add(2);
        id
    }
}

/// The relay's request id after `id`.
pub open spec fn next_id(id: u64) -> u64 {
    ((id + 2) % 0x1_0000_0000_0000_0000) as u64
}

/// The id of the `n`-th request after the one with id `first`.
pub open spec fn nth_id(first: u64, n: nat) -> u64
    decreases n,
{
    if n == 0 {
        first
    } else {
        next_id(nth_id(first, (n - 1) as nat))
    }
}

proof fn lemma_nth_id(first: u64, n: nat)
    ensures
        nth_id(first, n) == (first + 2 * n) % 0x1_0000_0000_0000_0000,
    decreases n,
{
    if n > 0 {
        lemma_nth_id(first, (n - 1) as nat);
        let m: int = 0x1_0000_0000_0000_0000;
        let x = first + 2 * (n - 1);
        vstd::arithmetic::div_mod::lemma_add_mod_noop(x, 2, m);
        assert((x % m + 2) % m == (x + 2) % m) by {
            vstd::arithmetic::div_mod::lemma_add_mod_noop(x % m, 2, m);
        }
    }
}

/// The relay's request ids keep the parity of the first one, and none comes twice within a run
/// of 2^63 requests.
pub proof fn law_relay_request_ids_are_distinct(first: u64, m: nat, n: nat)
    requires
        m < n < m + 0x8000_0000_0000_0000,
    ensures
        nth_id(first, m) != nth_id(first, n),
        nth_id(first, n) % 2 == first % 2,
{
    lemma_nth_id(first, m);
    lemma_nth_id(first, n);
    let w: int = 0x1_0000_0000_0000_0000;
    let a = first + 2 * m;
    let b = first + 2 * n;
    assert(a % w != b % w) by {
        if a % w == b % w {
            vstd::arithmetic::div_mod::lemma_mod_equivalence(b, a, w);
            assert((b - a) % w == 0);
            vstd::arithmetic::div_mod::lemma_small_mod((b - a) as nat, w as nat);
        }
    }
}

/// A session: one connection and its client.
pub struct SessionContext {
    pub connection_id: usize,
    /// Whether the client has been set up.
    pub has_client: bool,
    pub is_connection_closed: bool,
    pub max_request_id: u64,
}

impl SessionContext {
    pub fn new(connection_id: usize, initial_max_request_id: u64) -> (c: Self)
        ensures
            c == (SessionContext {
                connection_id,
                has_client: false,
                is_connection_closed: false,
                max_request_id: initial_max_request_id,
            }),
    {
        SessionContext {
            connection_id,
            has_client: false,
            is_connection_closed: false,
            max_request_id: initial_max_request_id,
        }
    }

    /// The client of this session has been set up.
    pub fn set_client(&mut self)
        ensures
            *final(self) == (SessionContext { has_client: true, ..*old(self) }),
    {
        self.has_client = true;
    }

    /// The connection of the client, once it has been set up.
    pub fn get_client(&self) -> (r: Option<usize>)
        ensures
            r == (if self.has_client {
                Some(self.connection_id)
            } else {
                None
            }),
    {
        if self.has_client {
            Some(self.connection_id)
        } else {
            None
        }
    }
}

} // verus!
