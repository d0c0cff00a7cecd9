//! The subscriptions of one track.
use crate::names::FullTrackName;
use crate::stream_id::{get_subscriber_partition_index, StreamId};
use crate::stream_id;
use crate::subscription::{Subscription, SubscriptionOrigin};
use crate::subscription;
use crate::table::{Key, Table};
use crate::table;
use vstd::prelude::*;

verus! {

/// A subscriber that already has a subscription.
#[derive(Debug, Clone, Copy, PartialEq, Eq, Structural)]
pub struct SubscriberExists;

pub struct SubscriptionManager {
    pub relay_track_id: u64,
    pub full_track_name: FullTrackName,
    /// The subscriptions by connection.
    pub subscriptions: Table<usize, Subscription>,
    /// The connections that events go to, spread over buckets.
    pub subscriber_senders: Vec<Vec<usize>>,
}

/// Bucket `p` holds, once each, the connections that belong into it and have a subscription.
pub open spec fn bucket_ok(
    bucket: Seq<usize>,
    p: int,
    subscriptions: Map<usize, Subscription>,
) -> bool {
    &&& bucket.no_duplicates()
    &&& forall|id: usize| #[trigger]
        bucket.contains(id) <==> subscriptions.contains_key(id)
            && stream_id::subscriber_partition(id) == p
}

proof fn lemma_remove_at(s: Seq<usize>, i: int)
    requires
        s.no_duplicates(),
        0 <= i < s.len(),
    ensures
        s.remove(i).no_duplicates(),
        forall|x: usize| #[trigger] s.remove(i).contains(x) <==> s.contains(x) && x != s[i],
{
    let t = s.remove(i);
    assert forall|a: int, b: int| 0 <= a < b < t.len() implies t[a] != t[b] by {
        let a2 = if a < i { a } else { a + 1 };
        let b2 = if b < i { b } else { b + 1 };
        assert(t[a] == s[a2] && t[b] == s[b2]);
    }
    assert forall|x: usize| #[trigger] t.contains(x) <==> s.contains(x) && x != s[i] by {
        if t.contains(x) {
            let a = choose|a: int| 0 <= a < t.len() && t[a] == x;
            let a2 = if a < i { a } else { a + 1 };
            assert(s[a2] == x);
        }
        if s.contains(x) && x != s[i] {
            let a = choose|a: int| 0 <= a < s.len() && s[a] == x;
            let a2 = if a < i { a } else { a - 1 };
            assert(t[a2] == x);
        }
    }
}

impl SubscriptionManager {
    pub open spec fn wf(&self) -> bool {
        &&& self.subscriptions.wf()
        &&& self.subscriber_senders@.len() == stream_id::SUBSCRIBER_PARTITION_COUNT
        &&& forall|p: int|
            0 <= p < self.subscriber_senders@.len() ==> bucket_ok(
                (#[trigger] self.subscriber_senders@[p])@,
                p,
                self.subscriptions@,
            )
        &&& forall|id: usize| #[trigger]
            self.subscriptions@.contains_key(id) ==> self.subscriptions@[id].wf()
                && self.subscriptions@[id].client_connection_id == id
                && self.subscriptions@[id].relay_track_id == self.relay_track_id
                && self.subscriptions@[id].full_track_name@ == self.full_track_name@
    }

    pub fn new(relay_track_id: u64, full_track_name: FullTrackName) -> (m: Self)
        ensures
            m.wf(),
            m.relay_track_id == relay_track_id,
            m.full_track_name == full_track_name,
            m.subscriptions@ == Map::<usize, Subscription>::empty(),
    {
        let mut subscriber_senders: Vec<Vec<usize>> = Vec::new();
        let mut i: usize = 0;
        while i < 16
            invariant
                i <= 16,
                subscriber_senders@.len() == i,
                forall|p: int| 0 <= p < i ==> (#[trigger] subscriber_senders@[p])@.len() == 0,
            decreases 16 - i,
        {
            subscriber_senders.push(Vec::new());
            i = i + 1;
        }
        SubscriptionManager {
            relay_track_id,
            full_track_name,
            subscriptions: Table::new(),
            subscriber_senders,
        }
    }

    /// The connections that have a subscription, in ascending order.
    pub fn get_all_subscriptions(&self) -> (ids: Vec<usize>)
        requires
            self.wf(),
        ensures
            forall|i: int, j: int| 0 <= i < j < ids@.len() ==> ids@[i] < ids@[j],
            forall|id: usize| #[trigger]
                ids@.contains(id) <==> self.subscriptions@.contains_key(id),
    {
        let mut ids: Vec<usize> = Vec::new();
        let entries = &self.subscriptions.entries;
        let mut n: usize = 0;
        while n < entries.len()
            invariant
                self.subscriptions.wf(),
                entries == &self.subscriptions.entries,
                n <= entries@.len(),
                forall|i: int, j: int| 0 <= i < j < ids@.len() ==> ids@[i] < ids@[j],
                forall|id: usize| #[trigger]
                    ids@.contains(id) <==> exists|k: int| 0 <= k < n && entries@[k].0 == id,
            decreases entries@.len() - n,
        {
            let id = entries[n].0;
            let ghost before = ids@;
            let mut at: usize = 0;
            while at < ids.len() && ids[at] < id
                invariant
                    ids@ == before,
                    at <= ids@.len(),
                    forall|i: int, j: int| 0 <= i < j < ids@.len() ==> ids@[i] < ids@[j],
                    forall|i: int| 0 <= i < at ==> ids@[i] < id,
                decreases ids@.len() - at,
            {
                at = at + 1;
            }
            proof {
                if before.contains(id) {
                    let k = choose|k: int| 0 <= k < n && entries@[k].0 == id;
                    assert(entries@[k].0.id() != entries@[n as int].0.id());
                }
                if at < before.len() {
                    assert(before[at as int] != id);
                }
            }
            ids.insert(at, id);
            proof {
                assert forall|x: usize| #[trigger] ids@.contains(x) <==> exists|k: int|
                    0 <= k < n + 1 && entries@[k].0 == x by {
                    if ids@.contains(x) {
                        let a = choose|a: int| 0 <= a < ids@.len() && ids@[a] == x;
                        if a < at {
                            assert(before[a] == x);
                            assert(before.contains(x));
                        } else if a > at {
                            assert(before[a - 1] == x);
                            assert(before.contains(x));
                        } else {
                            assert(entries@[n as int].0 == x);
                        }
                    }
                    if exists|k: int| 0 <= k < n + 1 && entries@[k].0 == x {
                        let k = choose|k: int| 0 <= k < n + 1 && entries@[k].0 == x;
                        if k < n {
                            assert(before.contains(x));
                            let a = choose|a: int| 0 <= a < before.len() && before[a] == x;
                            if a < at {
                                assert(ids@[a] == x);
                            } else {
                                assert(ids@[a + 1] == x);
                            }
                        } else {
                            assert(ids@[at as int] == x);
                        }
                    }
                }
            }
            n = n + 1;
        }
        proof {
            assert forall|id: usize| #[trigger] ids@.contains(id)
                <==> self.subscriptions@.contains_key(id) by {
                if ids@.contains(id) {
                    let k = choose|k: int| 0 <= k < n && entries@[k].0 == id;
                    table::lemma_entry(self.subscriptions, k);
                }
                if self.subscriptions@.contains_key(id) {
                    let k = choose|k: int| table::key_at(entries@, k, id);
                    assert(table::key_at(entries@, k, id));
                    assert(entries@[k].0 == id);
                }
            }
        }
        ids
    }

    /// Adds a subscription; refused where the subscriber has one already.
    pub fn add_subscription(
        &mut self,
        connection_id: usize,
        origin_message: SubscriptionOrigin,
    ) -> (r: Result<(), SubscriberExists>)
        requires
            old(self).wf(),
        ensures
            final(self).wf(),
            r is Err <==> old(self).subscriptions@.contains_key(connection_id),
            r is Err ==> *final(self) == *old(self),
            r is Ok ==> {
                &&& final(self).relay_track_id == old(self).relay_track_id
                &&& final(self).full_track_name == old(self).full_track_name
                &&& final(self).subscriptions@ == old(self).subscriptions@.insert(
                    connection_id,
                    final(self).subscriptions@[connection_id],
                )
                &&& {
                    let s = final(self).subscriptions@[connection_id];
                    &&& s.request_id == origin_message.id()
                    &&& s.subscription_state == subscription::initial_state(
                        origin_message.parameters(),
                    )
                    &&& s.send_stream_last_object_ids@ == Map::<StreamId, Option<u64>>::empty()
                    &&& !s.finished
                    &&& !s.check_switch_context_on_next_object
                    &&& s.pending_header is None
                }
            },
    {
        if self.subscriptions.contains_key(&connection_id) {
            return Err(SubscriberExists);
        }
        let subscription = Subscription::new(
            self.relay_track_id,
            self.full_track_name.copy(),
            origin_message,
            connection_id,
        );
        let ghost before = *self;
        self.subscriptions.insert(connection_id, subscription);
        let p: usize = get_subscriber_partition_index(connection_id);
        self.subscriber_senders[p].push(connection_id);
        proof {
            assert forall|q: int| 0 <= q < self.subscriber_senders@.len() implies bucket_ok(
                (#[trigger] self.subscriber_senders@[q])@,
                q,
                self.subscriptions@,
            ) by {
                let was = before.subscriber_senders@[q]@;
                assert(bucket_ok(was, q, before.subscriptions@));
                let now = self.subscriber_senders@[q]@;
                if q == p {
                    assert(now == was.push(connection_id));
                    assert(!was.contains(connection_id));
                    assert forall|id: usize| #[trigger]
                        now.contains(id) <==> self.subscriptions@.contains_key(id)
                            && stream_id::subscriber_partition(id) == q by {
                        if was.contains(id) {
                            let a = choose|a: int| 0 <= a < was.len() && was[a] == id;
                            assert(now[a] == id);
                        }
                        if id == connection_id {
                            assert(now[was.len() as int] == id);
                        }
                        if now.contains(id) && id != connection_id {
                            let a = choose|a: int| 0 <= a < now.len() && now[a] == id;
                            assert(was[a] == id);
                            assert(was.contains(id));
                        }
                    }
                } else {
                    assert(now == was);
                    assert(was.contains(connection_id) <==> false);
                }
            }
        }
        Ok(())
    }

    /// The subscription of a client.
    pub fn get_subscription(&self, subscriber_id: usize) -> (r: Option<&Subscription>)
        requires
            self.wf(),
        ensures
            match r {
                Some(s) => self.subscriptions@.contains_key(subscriber_id)
                    && self.subscriptions@[subscriber_id] == *s,
                None => !self.subscriptions@.contains_key(subscriber_id),
            },
    {
        self.subscriptions.get(&subscriber_id)
    }

    /// Ends and removes the subscription of a client, and hands back the streams to close.
    pub fn remove_subscription(&mut self, subscriber_id: usize) -> (streams: Vec<StreamId>)
        requires
            old(self).wf(),
        ensures
            final(self).wf(),
            final(self).relay_track_id == old(self).relay_track_id,
            final(self).full_track_name == old(self).full_track_name,
            final(self).subscriptions@ == old(self).subscriptions@.remove(subscriber_id),
            ({
                let had = old(self).subscriptions@.contains_key(subscriber_id);
                let s = old(self).subscriptions@[subscriber_id];
                &&& streams@.no_duplicates()
                &&& forall|id: StreamId| #[trigger]
                    streams@.contains(id) <==> had && !s.finished
                        && s.send_stream_last_object_ids@.contains_key(id)
            }),
    {
        let ghost before = *self;
        let streams = match self.subscriptions.remove(&subscriber_id) {
            Some(s) => {
                let mut s = s;
                s.finish()
            },
            None => Vec::new(),
        };
        let p: usize = get_subscriber_partition_index(subscriber_id);
        let ghost bucket = self.subscriber_senders@[p as int]@;
        proof {
            assert(bucket_ok(before.subscriber_senders@[p as int]@, p as int, before.subscriptions@));
        }
        let mut i: usize = 0;
        let mut found: Option<usize> = None;
        while i < self.subscriber_senders[p].len()
            invariant
                p < self.subscriber_senders@.len(),
                bucket == self.subscriber_senders@[p as int]@,
                i <= bucket.len(),
                match found {
                    Some(f) => f < bucket.len() && bucket[f as int] == subscriber_id,
                    None => forall|j: int| 0 <= j < i ==> bucket[j] != subscriber_id,
                },
            decreases bucket.len() - i,
        {
            if self.subscriber_senders[p][i] == subscriber_id {
                found = Some(i);
            }
            i = i + 1;
        }
        if let Some(f) = found {
            proof {
                lemma_remove_at(bucket, f as int);
            }
            self.subscriber_senders[p].remove(f);
        }
        proof {
            assert forall|q: int| 0 <= q < self.subscriber_senders@.len() implies bucket_ok(
                (#[trigger] self.subscriber_senders@[q])@,
                q,
                self.subscriptions@,
            ) by {
                let was = before.subscriber_senders@[q]@;
                assert(bucket_ok(was, q, before.subscriptions@));
                if q != p {
                    assert(!was.contains(subscriber_id));
                } else if found is None {
                    assert(!was.contains(subscriber_id));
                }
            }
        }
        streams
    }

    /// Puts a subscription that was taken out of the table back under its connection.
    pub(crate) fn put_back(
        &mut self,
        Ghost(before): Ghost<SubscriptionManager>,
        subscriber_id: usize,
        subscription: Subscription,
    )
        requires
            before.wf(),
            before.subscriptions@.contains_key(subscriber_id),
            old(self).subscriptions.wf(),
            old(self).subscriptions@ == before.subscriptions@.remove(subscriber_id),
            old(self).relay_track_id == before.relay_track_id,
            old(self).full_track_name == before.full_track_name,
            old(self).subscriber_senders == before.subscriber_senders,
            subscription.wf(),
            subscription.client_connection_id == subscriber_id,
            subscription.relay_track_id == before.relay_track_id,
            subscription.full_track_name@ == before.full_track_name@,
        ensures
            final(self).wf(),
            final(self).relay_track_id == before.relay_track_id,
            final(self).full_track_name == before.full_track_name,
            final(self).subscriber_senders == before.subscriber_senders,
            final(self).subscriptions@ == before.subscriptions@.insert(subscriber_id, subscription),
    {
        self.subscriptions.insert(subscriber_id, subscription);
        proof {
            assert(self.subscriptions@ =~= before.subscriptions@.insert(
                subscriber_id,
                subscription,
            ));
            assert forall|q: int| 0 <= q < self.subscriber_senders@.len() implies bucket_ok(
                (#[trigger] self.subscriber_senders@[q])@,
                q,
                self.subscriptions@,
            ) by {
                assert(bucket_ok(before.subscriber_senders@[q]@, q, before.subscriptions@));
            }
        }
    }

    /// The connections that an event goes to, each once.
    pub fn recipients(&self) -> (ids: Vec<usize>)
        requires
            self.wf(),
        ensures
            ids@.no_duplicates(),
            forall|id: usize| #[trigger]
                ids@.contains(id) <==> self.subscriptions@.contains_key(id),
    {
        let mut ids: Vec<usize> = Vec::new();
        let mut p: usize = 0;
        while p < self.subscriber_senders.len()
            invariant
                self.wf(),
                p <= self.subscriber_senders@.len(),
                ids@.no_duplicates(),
                forall|id: usize| #[trigger]
                    ids@.contains(id) <==> self.subscriptions@.contains_key(id)
                        && stream_id::subscriber_partition(id) < p,
            decreases self.subscriber_senders@.len() - p,
        {
            let bucket = &self.subscriber_senders[p];
            let ghost done = ids@;
            let mut i: usize = 0;
            proof {
                assert(bucket_ok(self.subscriber_senders@[p as int]@, p as int, self.subscriptions@));
            }
            while i < bucket.len()
                invariant
                    bucket_ok(bucket@, p as int, self.subscriptions@),
                    i <= bucket@.len(),
                    done.no_duplicates(),
                    forall|id: usize| #[trigger]
                        done.contains(id) <==> self.subscriptions@.contains_key(id)
                            && stream_id::subscriber_partition(id) < p,
                    ids@ == done + bucket@.take(i as int),
                    ids@.no_duplicates(),
                decreases bucket@.len() - i,
            {
                let id = bucket[i];
                assert(bucket@.contains(id));
                assert(!ids@.contains(id)) by {
                    if ids@.contains(id) {
                        let a = choose|a: int| 0 <= a < ids@.len() && ids@[a] == id;
                        if a < done.len() {
                            assert(done[a] == id);
                            assert(done.contains(id));
                        } else {
                            assert(bucket@[a - done.len()] == id);
                        }
                    }
                }
                assert(bucket@.take(i + 1) =~= bucket@.take(i as int).push(id));
                assert(done + bucket@.take(i + 1) =~= (done + bucket@.take(i as int)).push(id));
                ids.push(id);
                i = i + 1;
            }
            assert(bucket@.take(i as int) =~= bucket@);
            assert forall|id: usize| #[trigger] ids@.contains(id) <==> self.subscriptions@.contains_key(id)
                && stream_id::subscriber_partition(id) < p + 1 by {
                if ids@.contains(id) {
                    let a = choose|a: int| 0 <= a < ids@.len() && ids@[a] == id;
                    if a < done.len() {
                        assert(done[a] == id);
                        assert(done.contains(id));
                    } else {
                        assert(bucket@[a - done.len()] == id);
                        assert(bucket@.contains(id));
                    }
                }
                if done.contains(id) {
                    let a = choose|a: int| 0 <= a < done.len() && done[a] == id;
                    assert(ids@[a] == id);
                }
                if bucket@.contains(id) {
                    let a = choose|a: int| 0 <= a < bucket@.len() && bucket@[a] == id;
                    assert(ids@[done.len() + a] == id);
                }
            }
            p = p + 1;
        }
        ids
    }

    /// Tells the connections that an event reached from those whose channel was closed: the
    /// event counts as failed for the latter, and for no one else.
    pub fn send_event_to_subscribers(&self, closed: &Vec<usize>) -> (failed: Vec<usize>)
        requires
            self.wf(),
        ensures
            failed@.no_duplicates(),
            forall|id: usize| #[trigger]
                failed@.contains(id) <==> self.subscriptions@.contains_key(id) && closed@.contains(
                    id,
                ),
    {
        let ids = self.recipients();
        let mut failed: Vec<usize> = Vec::new();
        let mut i: usize = 0;
        while i < ids.len()
            invariant
                i <= ids@.len(),
                ids@.no_duplicates(),
                failed@.no_duplicates(),
                forall|id: usize| #[trigger]
                    failed@.contains(id) <==> ids@.take(i as int).contains(id) && closed@.contains(
                        id,
                    ),
            decreases ids@.len() - i,
        {
            let id = ids[i];
            let ghost before = failed@;
            proof {
                assert(!ids@.take(i as int).contains(id));
                assert(ids@.take(i + 1) =~= ids@.take(i as int).push(id));
                assert forall|x: usize| #[trigger] ids@.take(i + 1).contains(x) <==> ids@.take(
                    i as int,
                ).contains(x) || x == id by {
                    let s = ids@.take(i as int);
                    if s.push(id).contains(x) {
                        let a = choose|a: int| 0 <= a < s.push(id).len() && s.push(id)[a] == x;
                        if a < s.len() {
                            assert(s[a] == x);
                        }
                    }
                    if s.contains(x) {
                        let a = choose|a: int| 0 <= a < s.len() && s[a] == x;
                        assert(s.push(id)[a] == x);
                    }
                    assert(s.push(id)[s.len() as int] == id);
                }
            }
            if contains_id(closed, id) {
                failed.push(id);
                proof {
                    assert forall|x: usize| #[trigger] failed@.contains(x) <==> before.contains(x)
                        || x == id by {
                        if failed@.contains(x) {
                            let a = choose|a: int| 0 <= a < failed@.len() && failed@[a] == x;
                            if a < before.len() {
                                assert(before[a] == x);
                            }
                        }
                        if before.contains(x) {
                            let a = choose|a: int| 0 <= a < before.len() && before[a] == x;
                            assert(failed@[a] == x);
                        }
                        assert(failed@[before.len() as int] == id);
                    }
                    assert(!before.contains(id));
                }
            }
            i = i + 1;
        }
        assert(ids@.take(i as int) =~= ids@);
        failed
    }
}

fn contains_id(ids: &Vec<usize>, id: usize) -> (b: bool)
    ensures
        b == ids@.contains(id),
{
    let mut i: usize = 0;
    while i < ids.len()
        invariant
            i <= ids@.len(),
            forall|j: int| 0 <= j < i ==> ids@[j] != id,
        decreases ids@.len() - i,
    {
        if ids[i] == id {
            return true;
        }
        i = i + 1;
    }
    false
}

} // verus!
