//! Identities of data streams, and the buckets that spread them.
use crate::table::Key;
use vstd::prelude::*;

verus! {

#[derive(Debug, Clone, Copy, PartialEq, Eq, Structural)]
pub enum StreamType {
    Fetch,
    Subgroup,
}

#[derive(Debug, Clone, Copy, PartialEq, Eq, Structural)]
pub struct StreamId {
    pub stream_type: StreamType,
    pub relay_track_id: u64,
    pub group_id: Option<u64>,
    pub subgroup_id: Option<u64>,
    pub fetch_request_id: Option<u64>,
}

impl Key for StreamId {
    type Id = StreamId;

    open spec fn id(&self) -> StreamId {
        *self
    }

    fn same(&self, other: &Self) -> (b: bool) {
        self.stream_type == other.stream_type && self.relay_track_id == other.relay_track_id
            && same_option(self.group_id, other.group_id) && same_option(
            self.subgroup_id,
            other.subgroup_id,
        ) && same_option(self.fetch_request_id, other.fetch_request_id)
    }
}

fn same_option(a: Option<u64>, b: Option<u64>) -> (r: bool)
    ensures
        r == (a == b),
{
    match (a, b) {
        (Some(x), Some(y)) => x == y,
        (None, None) => true,
        _ => false,
    }
}

/// The header that opens a subgroup stream.
#[derive(Debug, Clone, Copy, PartialEq, Eq, Structural)]
pub struct SubgroupHeader {
    pub track_alias: u64,
    pub group_id: u64,
    pub subgroup_id: Option<u64>,
    /// `None` where the track's default priority holds.
    pub publisher_priority: Option<u8>,
    pub has_extensions: bool,
    pub contains_end_of_group: bool,
}

/// The header that opens a data stream.
#[derive(Debug, Clone, Copy, PartialEq, Eq, Structural)]
pub enum HeaderInfo {
    Fetch { request_id: u64 },
    Subgroup { header: SubgroupHeader },
}

/// The identity of the stream that a header opens on a track.
pub open spec fn stream_id_of(relay_track_id: u64, header_info: HeaderInfo) -> StreamId {
    match header_info {
        HeaderInfo::Fetch { request_id } => StreamId {
            stream_type: StreamType::Fetch,
            relay_track_id,
            group_id: None,
            subgroup_id: None,
            fetch_request_id: Some(request_id),
        },
        HeaderInfo::Subgroup { header } => StreamId {
            stream_type: StreamType::Subgroup,
            relay_track_id,
            group_id: Some(header.group_id),
            subgroup_id: header.subgroup_id,
            fetch_request_id: None,
        },
    }
}

pub fn build_stream_id(relay_track_id: u64, header_info: &HeaderInfo) -> (id: StreamId)
    ensures
        id == stream_id_of(relay_track_id, *header_info),
{
    match *header_info {
        HeaderInfo::Fetch { request_id } => StreamId {
            stream_type: StreamType::Fetch,
            relay_track_id,
            group_id: None,
            subgroup_id: None,
            fetch_request_id: Some(request_id),
        },
        HeaderInfo::Subgroup { header } => StreamId {
            stream_type: StreamType::Subgroup,
            relay_track_id,
            group_id: Some(header.group_id),
            subgroup_id: header.subgroup_id,
            fetch_request_id: None,
        },
    }
}

/// `x` reduced to 64 bits.
pub open spec fn wrap(x: int) -> u64 {
    (x % 0x1_0000_0000_0000_0000) as u64
}

/// The 64-bit FNV-1a hash of a byte string.
pub open spec fn fnv1a(data: Seq<u8>) -> u64
    decreases data.len(),
{
    if data.len() == 0 {
        0xcbf29ce484222325
    } else {
        wrap((fnv1a(data.drop_last()) ^ (data.last() as u64)) * 0x100000001b3)
    }
}

pub fn fnv_hash(data: &Vec<u8>) -> (h: u64)
    ensures
        h == fnv1a(data@),
{
    let mut h: u64 = 0xcbf29ce484222325;
    let mut i: usize = 0;
    assert(data@.take(0).len() == 0);
    while i < data.len()
        invariant
            i <= data@.len(),
            h == fnv1a(data@.take(i as int)),
        decreases data@.len() - i,
    {
        assert(data@.take(i + 1).drop_last() =~= data@.take(i as int));
        assert(data@.take(i + 1).last() == data@[i as int]);
        let x: u64 = h ^ (data[i] as u64);
        h = x.wrapping_mul(0x100000001b3);
        i = i + 1;
    }
    assert(data@.take(i as int) =~= data@);
    h
}

/// The first `n` bytes of `value`, the lowest first.
pub open spec fn le_bytes(value: u64, n: nat) -> Seq<u8>
    decreases n,
{
    if n == 0 {
        Seq::empty()
    } else {
        seq![(value % 256) as u8] + le_bytes(value / 256, (n - 1) as nat)
    }
}

fn to_le_bytes(value: u64) -> (b: Vec<u8>)
    ensures
        b@ == le_bytes(value, 8),
{
    let mut b: Vec<u8> = Vec::new();
    let mut rest: u64 = value;
    let mut i: usize = 0;
    while i < 8
        invariant
            i <= 8,
            b@ + le_bytes(rest, (8 - i) as nat) == le_bytes(value, 8),
        decreases 8 - i,
    {
        let ghost before = b@;
        let ghost tail = le_bytes(rest / 256, (8 - i - 1) as nat);
        b.push((rest % 256) as u8);
        assert(before + (seq![(rest % 256) as u8] + tail) =~= before.push((rest % 256) as u8)
            + tail);
        rest = rest / 256;
        i = i + 1;
    }
    assert(b@ + le_bytes(rest, 0) =~= b@);
    b
}

/// The number that stands for a stream when a bucket is picked: small primes spread the parts of
/// the identity, and an absent part counts as 0.
pub open spec fn stream_number(stream_id: StreamId) -> u64 {
    match stream_id.stream_type {
        StreamType::Fetch => wrap(
            stream_id.relay_track_id + stream_id.fetch_request_id.unwrap_or(0) * 13,
        ),
        StreamType::Subgroup => wrap(
            stream_id.relay_track_id + stream_id.group_id.unwrap_or(0) * 17
                + stream_id.subgroup_id.unwrap_or(0) * 31,
        ),
    }
}

/// Number of buckets over which the send streams of a client are spread.
pub const SEND_STREAM_PARTITION_COUNT: usize = 16;

/// Number of buckets over which the subscribers of a track are spread.
pub const SUBSCRIBER_PARTITION_COUNT: usize = 16;

/// The bucket of a stream.
pub open spec fn stream_partition(stream_id: StreamId) -> int {
    (fnv1a(le_bytes(stream_number(stream_id), 8)) % 16) as int
}

/// The bucket of a subscriber.
pub open spec fn subscriber_partition(subscriber_id: usize) -> int {
    (fnv1a(le_bytes(subscriber_id as u64, 8)) % 16) as int
}

proof fn lemma_wrap_add(a: int, b: int)
    ensures
        wrap(wrap(a) + b) == wrap(a + b),
        wrap(a + wrap(b)) == wrap(a + b),
{
    vstd::arithmetic::div_mod::lemma_add_mod_noop(a, b, 0x1_0000_0000_0000_0000);
    vstd::arithmetic::div_mod::lemma_add_mod_noop(wrap(a) as int, b, 0x1_0000_0000_0000_0000);
    vstd::arithmetic::div_mod::lemma_add_mod_noop(a, wrap(b) as int, 0x1_0000_0000_0000_0000);
}

/// `a + b * m`, reduced to 64 bits.
fn wrapping_step(a: u64, b: u64, m: u64) -> (r: u64)
    ensures
        r == wrap(a + b * m),
{
    let x: u64 = b.wrapping_mul(m);
    let r: u64 = a.wrapping_add(x);
    proof {
        lemma_wrap_add(a as int, b * m);
        assert(x == wrap(b * m));
        assert(r == wrap(a + x));
    }
    r
}

/// Calculate the partition index for stream distribution across buckets.
pub fn get_partition_index(stream_id: &StreamId) -> (p: usize)
    ensures
        p == stream_partition(*stream_id),
        p < SEND_STREAM_PARTITION_COUNT,
{
    let value: u64 = match stream_id.stream_type {
        StreamType::Fetch => wrapping_step(
            stream_id.relay_track_id,
            stream_id.fetch_request_id.unwrap_or(0),
            13,
        ),
        StreamType::Subgroup => {
            let group: u64 = stream_id.group_id.unwrap_or(0);
            let subgroup: u64 = stream_id.subgroup_id.unwrap_or(0);
            let with_group: u64 = wrapping_step(stream_id.relay_track_id, group, 17);
            proof {
                lemma_wrap_add(stream_id.relay_track_id + group * 17, subgroup * 31);
            }
            wrapping_step(with_group, subgroup, 31)
        },
    };
    let value_bytes = to_le_bytes(value);
    (fnv_hash(&value_bytes) % 16) as usize
}

/// Calculate the partition index for subscriber distribution across buckets.
pub fn get_subscriber_partition_index(subscriber_id: usize) -> (p: usize)
    ensures
        p == subscriber_partition(subscriber_id),
        p < SUBSCRIBER_PARTITION_COUNT,
{
    let value_bytes = to_le_bytes(subscriber_id as u64);
    (fnv_hash(&value_bytes) % 16) as usize
}

/// Headers of one track open different streams when their groups, subgroups or request ids
/// differ, and a fetch never shares a stream with a subgroup.
pub proof fn law_stream_ids_tell_headers_apart(t: u64, a: HeaderInfo, b: HeaderInfo)
    ensures
        stream_id_of(t, a) == stream_id_of(t, b) <==> (match (a, b) {
            (HeaderInfo::Fetch { request_id: x }, HeaderInfo::Fetch { request_id: y }) => x == y,
            (
                HeaderInfo::Subgroup { header: x },
                HeaderInfo::Subgroup { header: y },
            ) => x.group_id == y.group_id && x.subgroup_id == y.subgroup_id,
            _ => false,
        }),
{
}

/// A stream's identity says on which track it is and what its header says; all headers of one
/// subgroup, whatever their priority, open the same stream.
pub proof fn law_stream_ids_say_what_the_header_says(t: u64, u: u64, h: HeaderInfo)
    ensures
        stream_id_of(t, h).relay_track_id == t,
        t != u ==> stream_id_of(t, h) != stream_id_of(u, h),
        h matches HeaderInfo::Fetch { request_id } ==> stream_id_of(t, h).stream_type is Fetch
            && stream_id_of(t, h).fetch_request_id == Some(request_id),
        h matches HeaderInfo::Subgroup { header } ==> stream_id_of(t, h).stream_type is Subgroup
            && stream_id_of(t, h).group_id == Some(header.group_id) && stream_id_of(
            t,
            h,
        ).subgroup_id == header.subgroup_id,
{
}

/// The number that bytes stand for, the lowest first.
pub open spec fn le_value(b: Seq<u8>) -> int
    decreases b.len(),
{
    if b.len() == 0 {
        0
    } else {
        b[0] + 256 * le_value(b.drop_first())
    }
}

/// Two to the power of eight times `n`.
pub open spec fn bytes_room(n: nat) -> int
    decreases n,
{
    if n == 0 {
        1
    } else {
        256 * bytes_room((n - 1) as nat)
    }
}

/// A number that fits some bytes is written in as many, and read back from them.
pub proof fn law_low_bytes_first_read_back(value: u64, n: nat)
    requires
        value < bytes_room(n),
    ensures
        le_bytes(value, n).len() == n,
        le_value(le_bytes(value, n)) == value,
    decreases n,
{
    if n > 0 {
        let rest = le_bytes(value / 256, (n - 1) as nat);
        assert(value / 256 < bytes_room((n - 1) as nat));
        law_low_bytes_first_read_back(value / 256, (n - 1) as nat);
        assert(le_bytes(value, n).drop_first() =~= rest);
    }
}

/// The last byte of a string always tells in its hash, and what came before it tells as well: two
/// strings that end in one byte have one hash only where what stands before the byte has.
pub proof fn law_each_byte_tells_in_the_hash(a: Seq<u8>, b: Seq<u8>, x: u8, y: u8)
    ensures
        fnv1a(a.push(x)) == fnv1a(a.push(y)) <==> x == y,
        fnv1a(a.push(x)) == fnv1a(b.push(x)) <==> fnv1a(a) == fnv1a(b),
{
    assert(a.push(x).drop_last() =~= a);
    assert(a.push(y).drop_last() =~= a);
    assert(b.push(x).drop_last() =~= b);
    let h = fnv1a(a);
    let g = fnv1a(b);
    lemma_step_is_reversible(h ^ (x as u64), h ^ (y as u64));
    lemma_step_is_reversible(h ^ (x as u64), g ^ (x as u64));
    assert((h ^ (x as u64)) == (h ^ (y as u64)) <==> x == y) by (bit_vector);
    assert((h ^ (x as u64)) == (g ^ (x as u64)) <==> h == g) by (bit_vector);
}

proof fn lemma_step_is_reversible(a: u64, b: u64)
    ensures
        wrap(a * 0x100000001b3) == wrap(b * 0x100000001b3) <==> a == b,
{
    if wrap(a * 0x100000001b3) == wrap(b * 0x100000001b3) {
        let m: int = 0x1_0000_0000_0000_0000;
        let p: int = 0x100000001b3;
        let q: int = 0xce965057aff6957b;
        vstd::arithmetic::div_mod::lemma_mul_mod_noop_left(a * p, q, m);
        vstd::arithmetic::div_mod::lemma_mul_mod_noop_left(b * p, q, m);
        assert(p * q == 1 + m * 0xce9650590f);
        assert((a * p) * q == a + m * (a * 0xce9650590f)) by (nonlinear_arith)
            requires
                p * q == 1 + m * 0xce9650590f,
        ;
        assert((b * p) * q == b + m * (b * 0xce9650590f)) by (nonlinear_arith)
            requires
                p * q == 1 + m * 0xce9650590f,
        ;
        vstd::arithmetic::div_mod::lemma_mod_multiples_vanish(a * 0xce9650590f, a as int, m);
        vstd::arithmetic::div_mod::lemma_mod_multiples_vanish(b * 0xce9650590f, b as int, m);
    }
}

/// Streams and subscribers are spread over the buckets that there are, and one number goes to one
/// bucket whether a stream or a subscriber has it.
pub proof fn law_buckets_are_picked_by_number(stream_id: StreamId, subscriber_id: usize)
    ensures
        0 <= stream_partition(stream_id) < SEND_STREAM_PARTITION_COUNT,
        0 <= subscriber_partition(subscriber_id) < SUBSCRIBER_PARTITION_COUNT,
        stream_number(stream_id) == subscriber_id ==> stream_partition(stream_id)
            == subscriber_partition(subscriber_id),
{
}

/// The number that stands for a stream grows by 13 with the request of a fetch, by 17 with the
/// group and by 31 with the subgroup of a subgroup stream, and by one with the track; the other
/// parts of the identity do not count.
pub proof fn law_stream_numbers_are_spread_by_primes(
    t: u64,
    group: u64,
    subgroup: u64,
    request: u64,
    other: Option<u64>,
)
    requires
        t < 0x1_0000_0000,
        group < 0x1_0000_0000,
        subgroup < 0x1_0000_0000,
        request < 0x1_0000_0000,
    ensures
        ({
            let s = StreamId {
                stream_type: StreamType::Subgroup,
                relay_track_id: t,
                group_id: Some(group),
                subgroup_id: Some(subgroup),
                fetch_request_id: other,
            };
            let f = StreamId {
                stream_type: StreamType::Fetch,
                relay_track_id: t,
                group_id: other,
                subgroup_id: other,
                fetch_request_id: Some(request),
            };
            let n = stream_number(s);
            &&& stream_number(StreamId { relay_track_id: (t + 1) as u64, ..s }) == n + 1
            &&& stream_number(StreamId { group_id: Some((group + 1) as u64), ..s }) == n + 17
            &&& stream_number(StreamId { subgroup_id: Some((subgroup + 1) as u64), ..s }) == n + 31
            &&& stream_number(StreamId { relay_track_id: (t + 1) as u64, ..f }) == stream_number(f)
                + 1
            &&& stream_number(StreamId { fetch_request_id: Some((request + 1) as u64), ..f })
                == stream_number(f) + 13
            &&& stream_number(StreamId { subgroup_id: None, ..s }) == stream_number(
                StreamId { subgroup_id: Some(0), ..s },
            )
            &&& stream_number(StreamId { group_id: Some(0), subgroup_id: Some(0), ..s }) == t
            &&& stream_number(StreamId { fetch_request_id: Some(0), ..f }) == t
        }),
{
}

} // verus!
