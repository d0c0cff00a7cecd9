//! A client of the relay: its requests, its streams and its share of the bandwidth.
use crate::control::{ControlMessage, FetchRequest, SubscribeRequest};
use crate::names::{copy_bytes, FullTrackName, TrackName};
use crate::session_context::PendingRequest;
use crate::stream_id::{get_partition_index, StreamId};
use crate::stream_id;
use crate::switch_context::{SwitchContext, SwitchStatus};
use crate::table::{Key, Table};
use std::collections::VecDeque;
use vstd::prelude::*;

verus! {

/// Nanoseconds in a second.
pub const NANOS: u64 = 1_000_000_000;

/// Token-bucket rate limiter. All streams of one subscriber share a single bucket so they
/// compete for bandwidth.
///
/// Tokens are counted in billionths of a byte, so that every instant in nanoseconds gives a whole
/// number of them.
#[derive(Debug)]
pub struct TokenBucket {
    pub rate_bytes_per_sec: u128,
    pub tokens: u128,
    /// When the bucket was last filled, in nanoseconds.
    pub last_refill: u64,
}

impl TokenBucket {
    /// The bucket never holds more than one second's worth.
    pub open spec fn wf(&self) -> bool {
        &&& 0 < self.rate_bytes_per_sec <= u64::MAX * 125
        &&& self.tokens <= self.rate_bytes_per_sec * NANOS
    }

    /// The tokens at the instant `now`, before anything is taken.
    pub open spec fn filled(&self, now: u64) -> int {
        let elapsed: int = if now >= self.last_refill {
            now - self.last_refill
        } else {
            0
        };
        let sum = self.tokens + elapsed * self.rate_bytes_per_sec;
        if sum <= self.rate_bytes_per_sec * NANOS {
            sum
        } else {
            self.rate_bytes_per_sec * NANOS
        }
    }

    /// A full bucket for a rate in kilobits per second.
    pub fn new(rate_kbps: u64, now: u64) -> (b: Self)
        requires
            rate_kbps > 0,
        ensures
            b.wf(),
            b.rate_bytes_per_sec == rate_kbps * 125,
            b.tokens == b.rate_bytes_per_sec * NANOS,
            b.last_refill == now,
    {
        let rate: u128 = rate_kbps as u128 * 125;
        TokenBucket { rate_bytes_per_sec: rate, tokens: rate * 1_000_000_000, last_refill: now }
    }

    /// Takes the tokens for `bytes` bytes out at the instant `now`, and says how many nanoseconds
    /// to wait before they may be written: none where the bucket holds enough, else, to the
    /// nearest one, the time that the missing tokens take to come. The bucket is then empty.
    pub fn consume(&mut self, now: u64, bytes: usize) -> (wait: u128)
        requires
            old(self).wf(),
        ensures
            final(self).wf(),
            final(self).rate_bytes_per_sec == old(self).rate_bytes_per_sec,
            final(self).last_refill == now,
            ({
                let have = old(self).filled(now);
                let need = bytes * NANOS;
                if have >= need {
                    wait == 0 && final(self).tokens == have - need
                } else {
                    wait == (2 * (need - have) + old(self).rate_bytes_per_sec) / (2 * old(
                        self,
                    ).rate_bytes_per_sec as int) && final(self).tokens == 0
                }
            }),
            old(self).filled(now) < bytes * NANOS ==> {
                let missing = bytes * NANOS - old(self).filled(now);
                let rate = old(self).rate_bytes_per_sec;
                2 * missing - rate <= 2 * (wait * rate) <= 2 * missing + rate
            },
    {
        let rate: u128 = self.rate_bytes_per_sec;
        let cap: u128 = rate * 1_000_000_000;
        let elapsed: u64 = if now >= self.last_refill {
            now - self.last_refill
        } else {
            0
        };
        let ghost have = self.filled(now);
        let full: u128 = if elapsed >= 1_000_000_000 {
            proof {
                assert(elapsed * rate >= NANOS * rate) by (nonlinear_arith)
                    requires
                        elapsed >= NANOS,
                        rate >= 0,
                ;
                assert(NANOS * rate == rate * NANOS) by (nonlinear_arith);
            }
            cap
        } else {
            proof {
                assert(elapsed * rate <= NANOS * rate) by (nonlinear_arith)
                    requires
                        elapsed <= NANOS,
                        rate >= 0,
                ;
            }
            let sum: u128 = self.tokens + elapsed as u128 * rate;
            if sum <= cap {
                sum
            } else {
                cap
            }
        };
        assert(full == have);
        self.last_refill = now;
        let needed: u128 = bytes as u128 * 1_000_000_000;
        if full < needed {
            let deficit: u128 = needed - full;
            self.tokens = 0;
            proof {
                let x = 2 * deficit + rate;
                let w = x / (2 * rate);
                vstd::arithmetic::div_mod::lemma_fundamental_div_mod(x, 2 * rate);
                vstd::arithmetic::div_mod::lemma_mod_bound(x, 2 * rate);
                assert(2 * rate * w == 2 * (w * rate)) by (nonlinear_arith);
            }
            (2 * deficit + rate) / (2 * rate)
        } else {
            self.tokens = full - needed;
            0
        }
    }
}

/// What a bucket lets through in one call is paid for: by the tokens that it held, by those that
/// time brought, and by the wait that the call imposes. The time of that wait fills the bucket for
/// the next call as well.
pub proof fn law_one_call_is_paid_for(b: TokenBucket, now: u64, bytes: usize, wait: int)
    requires
        b.wf(),
        b.filled(now) < bytes * NANOS,
        wait == (2 * (bytes * NANOS - b.filled(now)) + b.rate_bytes_per_sec) / (2
            * b.rate_bytes_per_sec as int),
    ensures
        2 * (bytes * NANOS) <= 2 * (b.filled(now) + wait * b.rate_bytes_per_sec)
            + b.rate_bytes_per_sec,
        b.filled(now) <= b.rate_bytes_per_sec * NANOS,
{
    let r = b.rate_bytes_per_sec as int;
    let d = bytes * NANOS - b.filled(now);
    let x = 2 * d + r;
    vstd::arithmetic::div_mod::lemma_fundamental_div_mod(x, 2 * r);
    vstd::arithmetic::div_mod::lemma_mod_bound(x, 2 * r);
    assert(x < 2 * r * wait + 2 * r);
    assert(2 * r * wait == 2 * (wait * r)) by (nonlinear_arith);
}

/// A bucket fills with time at its rate, and never beyond one second's worth: it keeps what it held
/// while no time passes, gains one second's worth in a second, and is full from then on. The longer
/// it is left, the more it holds.
pub proof fn law_a_bucket_fills_at_its_rate(b: TokenBucket, now: u64, later: u64)
    requires
        b.wf(),
        now <= later,
    ensures
        now <= b.last_refill ==> b.filled(now) == b.tokens,
        b.filled(now) <= b.filled(later),
        0 <= b.filled(now) <= b.rate_bytes_per_sec * NANOS,
        b.last_refill <= now && b.filled(later) < b.rate_bytes_per_sec * NANOS ==> b.filled(later)
            - b.filled(now) == (later - now) * b.rate_bytes_per_sec,
        later >= b.last_refill + NANOS ==> b.filled(later) == b.rate_bytes_per_sec * NANOS,
{
    let r = b.rate_bytes_per_sec as int;
    let e = if now >= b.last_refill {
        now - b.last_refill
    } else {
        0
    };
    let f = if later >= b.last_refill {
        later - b.last_refill
    } else {
        0
    };
    assert(0 * r == 0);
    assert(0 <= e * r <= f * r) by (nonlinear_arith)
        requires
            0 <= e <= f,
            r >= 0,
    ;
    assert(f * r - e * r == (f - e) * r) by (nonlinear_arith);
    if later >= b.last_refill + NANOS {
        assert(f * r >= r * NANOS) by (nonlinear_arith)
            requires
                f >= NANOS,
                r >= 0,
        ;
    }
}

/// A namespace as the key of an announcement.
#[derive(Debug)]
pub struct Namespace {
    pub tuple: Vec<u8>,
}

impl Key for Namespace {
    type Id = Seq<u8>;

    open spec fn id(&self) -> Seq<u8> {
        self.tuple@
    }

    fn same(&self, other: &Self) -> (b: bool) {
        crate::names::same_bytes(&self.tuple, &other.tuple)
    }
}

/// How a stream is come by.
#[derive(Debug, Clone, Copy, PartialEq, Eq, Structural)]
pub enum OpenStep {
    /// A new stream has to be opened.
    OpenNew,
    /// This stream is open already.
    Reuse { stream: u64 },
}

/// How an object is written.
#[derive(Debug, Clone, Copy, PartialEq, Eq, Structural)]
pub struct WriteStep {
    /// The stream to write to; none where the object is passed over.
    pub stream: Option<u64>,
    /// How long to wait before writing, in nanoseconds.
    pub wait_nanos: u128,
}

/// What became of a write.
#[derive(Debug, Clone, Copy, PartialEq, Eq, Structural)]
pub enum WriteResult {
    Written,
    /// The stream was closed, or the peer has stopped it.
    ClosedOrStopped,
    OtherError,
}

/// A client. Its streams stand here by the numbers under which the transport keeps them.
pub struct MOQTClient {
    pub connection_id: usize,
    /// The namespaces that the client announced.
    pub announced_track_namespaces: Vec<Vec<u8>>,
    /// The request ids under which namespaces were announced to the client.
    pub outbound_announcements: Table<Namespace, u64>,
    /// The tracks that the client publishes, by request id.
    pub published_tracks: Table<u64, FullTrackName>,
    pub subscribers: Vec<usize>,
    /// The control messages that wait to be sent to the client.
    pub message_queue: VecDeque<ControlMessage>,
    /// The streams open to the client, spread over buckets.
    pub send_streams: Vec<Table<StreamId, u64>>,
    /// Fetch requests that this client sent to the relay.
    pub incoming_fetch_requests: Table<u64, FetchRequest>,
    /// Fetch requests that the relay sent to this client.
    pub outgoing_fetch_requests: Table<u64, FetchRequest>,
    /// The subscribe requests of the client, by their own ids.
    pub subscribe_requests: Table<u64, SubscribeRequest>,
    /// All requests of the client, by their own ids.
    pub inbound_requests: Table<u64, PendingRequest>,
    /// The fetches that can be cancelled.
    pub fetch_cancel_senders: Table<u64, ()>,
    /// The tracks that the client is subscribed to, with the relay's id of each.
    pub subscriptions: Table<FullTrackName, u64>,
    pub switch_context: SwitchContext,
    pub rate_limiter: Option<TokenBucket>,
}

impl MOQTClient {
    pub open spec fn wf(&self) -> bool {
        &&& self.outbound_announcements.wf()
        &&& self.published_tracks.wf()
        &&& self.streams_wf()
        &&& self.incoming_fetch_requests.wf()
        &&& self.outgoing_fetch_requests.wf()
        &&& self.subscribe_requests.wf()
        &&& forall|id: u64| #[trigger]
            self.subscribe_requests@.contains_key(id)
                ==> self.subscribe_requests@[id].original_request_id == id
        &&& self.inbound_requests.wf()
        &&& self.fetch_cancel_senders.wf()
        &&& self.subscriptions.wf()
        &&& self.switch_context.wf()
        &&& self.rate_limiter matches Some(b) ==> b.wf()
    }

    pub open spec fn streams_wf(&self) -> bool {
        &&& self.send_streams@.len() == stream_id::SEND_STREAM_PARTITION_COUNT
        &&& forall|p: int|
            0 <= p < self.send_streams@.len() ==> (#[trigger] self.send_streams@[p]).wf()
    }

    /// The stream that is open under an identity.
    pub open spec fn stream(&self, id: StreamId) -> Option<u64> {
        let bucket = self.send_streams@[stream_id::stream_partition(id)]@;
        if bucket.contains_key(id) {
            Some(bucket[id])
        } else {
            None
        }
    }

    /// Everything but the streams is as in `other`.
    pub open spec fn same_but_streams(&self, other: MOQTClient) -> bool {
        *self == (MOQTClient { send_streams: self.send_streams, ..other })
    }

    pub fn new(connection_id: usize, write_kbps_limit: u64, now: u64) -> (c: Self)
        ensures
            c.wf(),
            c.connection_id == connection_id,
            c.announced_track_namespaces@.len() == 0,
            c.outbound_announcements@ == Map::<Seq<u8>, u64>::empty(),
            c.published_tracks@ == Map::<u64, FullTrackName>::empty(),
            c.subscribers@.len() == 0,
            c.message_queue@.len() == 0,
            forall|id: StreamId| #[trigger] c.stream(id) is None,
            c.incoming_fetch_requests@ == Map::<u64, FetchRequest>::empty(),
            c.outgoing_fetch_requests@ == Map::<u64, FetchRequest>::empty(),
            c.subscribe_requests@ == Map::<u64, SubscribeRequest>::empty(),
            c.inbound_requests@ == Map::<u64, PendingRequest>::empty(),
            c.fetch_cancel_senders@ == Map::<u64, ()>::empty(),
            c.subscriptions@ == Map::<TrackName, u64>::empty(),
            c.switch_context@ == Map::<TrackName, SwitchStatus>::empty(),
            c.rate_limiter is Some <==> write_kbps_limit > 0,
            c.rate_limiter matches Some(b) ==> b.rate_bytes_per_sec == write_kbps_limit * 125
                && b.tokens == b.rate_bytes_per_sec * NANOS && b.last_refill == now,
    {
        let mut send_streams: Vec<Table<StreamId, u64>> = Vec::new();
        let mut i: usize = 0;
        while i < 16
            invariant
                i <= 16,
                send_streams@.len() == i,
                forall|p: int|
                    0 <= p < i ==> (#[trigger] send_streams@[p]).wf() && send_streams@[p]@
                        == Map::<StreamId, u64>::empty(),
            decreases 16 - i,
        {
            send_streams.push(Table::new());
            i = i + 1;
        }
        let rate_limiter = if write_kbps_limit > 0 {
            Some(TokenBucket::new(write_kbps_limit, now))
        } else {
            None
        };
        MOQTClient {
            connection_id,
            announced_track_namespaces: Vec::new(),
            outbound_announcements: Table::new(),
            published_tracks: Table::new(),
            subscribers: Vec::new(),
            message_queue: VecDeque::new(),
            send_streams,
            incoming_fetch_requests: Table::new(),
            outgoing_fetch_requests: Table::new(),
            subscribe_requests: Table::new(),
            inbound_requests: Table::new(),
            fetch_cancel_senders: Table::new(),
            subscriptions: Table::new(),
            switch_context: SwitchContext::new(),
            rate_limiter,
        }
    }

    pub fn add_announced_track_namespace(&mut self, track_namespace: Vec<u8>)
        requires
            old(self).wf(),
        ensures
            final(self).wf(),
            final(self).announced_track_namespaces@ == old(self).announced_track_namespaces@.push(
                track_namespace,
            ),
            *final(self) == (MOQTClient {
                announced_track_namespaces: final(self).announced_track_namespaces,
                ..*old(self)
            }),
    {
        self.announced_track_namespaces.push(track_namespace);
    }

    pub fn add_subscriber(&mut self, subscriber_id: usize)
        requires
            old(self).wf(),
        ensures
            final(self).wf(),
            final(self).subscribers@ == old(self).subscribers@.push(subscriber_id),
            *final(self) == (MOQTClient {
                subscribers: final(self).subscribers,
                ..*old(self)
            }),
    {
        self.subscribers.push(subscriber_id);
    }

    /// The request id under which a namespace was announced to the client.
    pub fn get_outbound_announce_id(&self, namespace: &Vec<u8>) -> (r: Option<u64>)
        requires
            self.wf(),
        ensures
            r == (if self.outbound_announcements@.contains_key(namespace@) {
                Some(self.outbound_announcements@[namespace@])
            } else {
                None
            }),
    {
        let key = Namespace { tuple: copy_bytes(namespace) };
        match self.outbound_announcements.get(&key) {
            Some(id) => Some(*id),
            None => None,
        }
    }

    pub fn add_published_track(&mut self, request_id: u64, full_track_name: FullTrackName)
        requires
            old(self).wf(),
        ensures
            final(self).wf(),
            final(self).published_tracks@ == old(self).published_tracks@.insert(
                request_id,
                full_track_name,
            ),
            *final(self) == (MOQTClient {
                published_tracks: final(self).published_tracks,
                ..*old(self)
            }),
    {
        self.published_tracks.insert(request_id, full_track_name);
    }

    /// The control message to send next: the one that has waited longest.
    pub fn next_message(&mut self) -> (m: Option<ControlMessage>)
        requires
            old(self).wf(),
        ensures
            final(self).wf(),
            old(self).message_queue@.len() == 0 ==> m is None && *final(self) == *old(self),
            old(self).message_queue@.len() > 0 ==> {
                &&& m == Some(old(self).message_queue@[0])
                &&& final(self).message_queue@ == old(self).message_queue@.drop_first()
                &&& *final(self) == (MOQTClient {
                    message_queue: final(self).message_queue,
                    ..*old(self)
                })
            },
    {
        if self.message_queue.len() == 0 {
            return None;
        }
        let m = self.message_queue.pop_front();
        assert(self.message_queue@ =~= old(self).message_queue@.drop_first());
        m
    }

    pub fn queue_message(&mut self, control_message: ControlMessage)
        requires
            old(self).wf(),
        ensures
            final(self).wf(),
            final(self).message_queue@ == old(self).message_queue@.push(control_message),
            *final(self) == (MOQTClient {
                message_queue: final(self).message_queue,
                ..*old(self)
            }),
    {
        self.message_queue.push_back(control_message);
    }

    /// The stream that is open under an identity.
    pub fn get_stream(&self, stream_id: &StreamId) -> (r: Option<u64>)
        requires
            self.wf(),
        ensures
            r == self.stream(*stream_id),
    {
        let p: usize = get_partition_index(stream_id);
        match self.send_streams[p].get(stream_id) {
            Some(s) => Some(*s),
            None => None,
        }
    }

    /// How the stream for an identity is come by: one that is open is used again.
    pub fn open_stream(&self, stream_id: &StreamId) -> (step: OpenStep)
        requires
            self.wf(),
        ensures
            step == match self.stream(*stream_id) {
                Some(stream) => OpenStep::Reuse { stream },
                None => OpenStep::OpenNew,
            },
    {
        match self.get_stream(stream_id) {
            Some(stream) => OpenStep::Reuse { stream },
            None => OpenStep::OpenNew,
        }
    }

    /// Notes a stream that was opened.
    pub fn stream_opened(&mut self, stream_id: StreamId, stream: u64)
        requires
            old(self).wf(),
        ensures
            final(self).wf(),
            final(self).same_but_streams(*old(self)),
            forall|id: StreamId| #[trigger]
                final(self).stream(id) == if id == stream_id {
                    Some(stream)
                } else {
                    old(self).stream(id)
                },
    {
        let p: usize = get_partition_index(&stream_id);
        let ghost before = *self;
        self.send_streams[p].insert(stream_id, stream);
        proof {
            assert forall|id: StreamId| #[trigger] self.stream(id) == if id == stream_id {
                Some(stream)
            } else {
                before.stream(id)
            } by {
                let q = stream_id::stream_partition(id);
                if q != p {
                    assert(self.send_streams@[q] == before.send_streams@[q]);
                }
            }
        }
    }

    /// Forgets a stream, and gives it back to whoever finishes it.
    pub fn remove_stream_by_stream_id(&mut self, stream_id: &StreamId) -> (r: Option<u64>)
        requires
            old(self).wf(),
        ensures
            final(self).wf(),
            final(self).same_but_streams(*old(self)),
            r == old(self).stream(*stream_id),
            forall|id: StreamId| #[trigger]
                final(self).stream(id) == if id == *stream_id {
                    None
                } else {
                    old(self).stream(id)
                },
    {
        let p: usize = get_partition_index(stream_id);
        let ghost before = *self;
        let r = self.send_streams[p].remove(stream_id);
        proof {
            assert forall|id: StreamId| #[trigger] self.stream(id) == if id == *stream_id {
                None
            } else {
                before.stream(id)
            } by {
                let q = stream_id::stream_partition(id);
                if q != p {
                    assert(self.send_streams@[q] == before.send_streams@[q]);
                }
            }
        }
        r
    }

    /// The stream to finish, if one is open under the identity. It is then no longer known: an
    /// identity for which nothing was forwarded has none.
    pub fn close_stream(&mut self, stream_id: &StreamId) -> (r: Option<u64>)
        requires
            old(self).wf(),
        ensures
            final(self).wf(),
            final(self).same_but_streams(*old(self)),
            r == old(self).stream(*stream_id),
            forall|id: StreamId| #[trigger]
                final(self).stream(id) == if id == *stream_id {
                    None
                } else {
                    old(self).stream(id)
                },
    {
        self.remove_stream_by_stream_id(stream_id)
    }

    /// How an object of `object_len` bytes is written at the instant `now`: on the stream given,
    /// else on the one open under the identity, and after the wait that the rate limit imposes.
    /// The limit counts an object that is passed over as well.
    pub fn write_stream_object(
        &mut self,
        stream_id: &StreamId,
        object_len: usize,
        the_stream: Option<u64>,
        now: u64,
    ) -> (step: WriteStep)
        requires
            old(self).wf(),
        ensures
            final(self).wf(),
            *final(self) == (MOQTClient {
                rate_limiter: final(self).rate_limiter,
                ..*old(self)
            }),
            step.stream == (match the_stream {
                Some(s) => Some(s),
                None => old(self).stream(*stream_id),
            }),
            match old(self).rate_limiter {
                None => step.wait_nanos == 0 && final(self).rate_limiter is None,
                Some(b) => final(self).rate_limiter matches Some(c) && {
                    let have = b.filled(now);
                    let need = object_len * NANOS;
                    &&& c.rate_bytes_per_sec == b.rate_bytes_per_sec
                    &&& c.last_refill == now
                    &&& if have >= need {
                        step.wait_nanos == 0 && c.tokens == have - need
                    } else {
                        step.wait_nanos == (2 * (need - have) + b.rate_bytes_per_sec) / (2
                            * b.rate_bytes_per_sec as int) && c.tokens == 0
                    }
                },
            },
            old(self).rate_limiter matches Some(b) ==> (b.filled(now) < object_len * NANOS ==> {
                let missing = object_len * NANOS - b.filled(now);
                let rate = b.rate_bytes_per_sec;
                2 * missing - rate <= 2 * (step.wait_nanos * rate) <= 2 * missing + rate
            }),
    {
        let stream = match the_stream {
            Some(s) => Some(s),
            None => self.get_stream(stream_id),
        };
        let mut wait_nanos: u128 = 0;
        if let Some(b) = self.rate_limiter.take() {
            let mut b = b;
            wait_nanos = b.consume(now, object_len);
            self.rate_limiter = Some(b);
        }
        WriteStep { stream, wait_nanos }
    }

    /// Takes in how a write ended: a stream that is closed or stopped is forgotten.
    pub fn object_written(&mut self, stream_id: &StreamId, result: WriteResult)
        requires
            old(self).wf(),
        ensures
            final(self).wf(),
            final(self).same_but_streams(*old(self)),
            forall|id: StreamId| #[trigger]
                final(self).stream(id) == if id == *stream_id && result is ClosedOrStopped {
                    None
                } else {
                    old(self).stream(id)
                },
    {
        if result == WriteResult::ClosedOrStopped {
            self.remove_stream_by_stream_id(stream_id);
        }
    }
}

} // verus!
