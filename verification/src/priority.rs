//! Stream priorities.
use crate::message::GroupOrder;
use vstd::prelude::*;

verus! {

/// How many priorities one pair of subscriber and publisher priority holds.
pub const BAND_SIZE: u64 = 65536;

/// Which band a pair of priorities falls into; 0 is the lowest of the 65536.
pub open spec fn band(sub_prio: u8, pub_prio: u8) -> int {
    (255 - sub_prio) * 256 + (255 - pub_prio)
}

/// Where a group stands inside its band, counted from the band's lowest priority.
pub open spec fn slot(group_order: GroupOrder, group_id: u64) -> int {
    match group_order {
        GroupOrder::Descending => (group_id % BAND_SIZE) as int,
        _ => BAND_SIZE - 1 - (group_id % BAND_SIZE),
    }
}

pub open spec fn stream_priority(
    sub_prio: u8,
    pub_prio: u8,
    group_order: GroupOrder,
    group_id: u64,
) -> int {
    i32::MIN + band(sub_prio, pub_prio) * BAND_SIZE + slot(group_order, group_id)
}

/// Compute QUIC stream priority from MOQT scheduling parameters.
///
/// The i32 space is divided into 65536 bands, one for each pair of subscriber and publisher
/// priority. Within a band the group decides: in ascending and original order a lower group
/// comes first, in descending order a higher one.
pub fn compute_stream_priority(
    sub_prio: u8,
    pub_prio: u8,
    group_order: GroupOrder,
    group_id: u64,
) -> (p: i32)
    ensures
        p == stream_priority(sub_prio, pub_prio, group_order, group_id),
{
    let priority_index: i64 = (255 - sub_prio as i64) * 256 + (255 - pub_prio as i64);
    let band_min: i64 = -2147483648i64 + priority_index * 65536;
    let group_slot: i64 = (group_id % BAND_SIZE) as i64;
    match group_order {
        GroupOrder::Descending => (band_min + group_slot) as i32,
        _ => (band_min + 65535 - group_slot) as i32,
    }
}

/// A lower subscriber priority number wins, whatever the publisher priorities, the group orders
/// and the groups are.
pub proof fn law_subscriber_priority_dominates(
    s1: u8,
    s2: u8,
    p1: u8,
    p2: u8,
    o1: GroupOrder,
    o2: GroupOrder,
    g1: u64,
    g2: u64,
)
    requires
        s1 < s2,
    ensures
        stream_priority(s1, p1, o1, g1) > stream_priority(s2, p2, o2, g2),
{
}

/// With equal subscriber priorities a lower publisher priority number wins.
pub proof fn law_publisher_priority_breaks_ties(
    s: u8,
    p1: u8,
    p2: u8,
    o1: GroupOrder,
    o2: GroupOrder,
    g1: u64,
    g2: u64,
)
    requires
        p1 < p2,
    ensures
        stream_priority(s, p1, o1, g1) > stream_priority(s, p2, o2, g2),
{
}

/// Inside a band, among groups that share one run of 65536, the group order decides.
pub proof fn law_group_order_inside_a_band(s: u8, p: u8, g1: u64, g2: u64)
    requires
        g1 < g2,
        g1 / BAND_SIZE == g2 / BAND_SIZE,
    ensures
        stream_priority(s, p, GroupOrder::Ascending, g1) > stream_priority(
            s,
            p,
            GroupOrder::Ascending,
            g2,
        ),
        stream_priority(s, p, GroupOrder::Descending, g1) < stream_priority(
            s,
            p,
            GroupOrder::Descending,
            g2,
        ),
{
}

/// The order `Original` schedules as the ascending one does.
pub proof fn law_original_is_ascending(s: u8, p: u8, g: u64)
    ensures
        stream_priority(s, p, GroupOrder::Original, g) == stream_priority(
            s,
            p,
            GroupOrder::Ascending,
            g,
        ),
{
}

/// Every priority fits the 32-bit range, and the two ends of the range are reached.
pub proof fn law_priorities_fill_the_range(s: u8, p: u8, o: GroupOrder, g: u64)
    ensures
        i32::MIN <= stream_priority(s, p, o, g) <= i32::MAX,
        stream_priority(0, 0, GroupOrder::Ascending, 0) == i32::MAX,
        stream_priority(255, 255, GroupOrder::Descending, 0) == i32::MIN,
{
}

/// Two streams of one order share a priority only where both priorities agree and their groups
/// are a multiple of 65536 apart.
pub proof fn law_priorities_are_distinct(
    s1: u8,
    s2: u8,
    p1: u8,
    p2: u8,
    o: GroupOrder,
    g1: u64,
    g2: u64,
)
    ensures
        stream_priority(s1, p1, o, g1) == stream_priority(s2, p2, o, g2) <==> (s1 == s2 && p1 == p2
            && g1 % BAND_SIZE == g2 % BAND_SIZE),
{
}

} // verus!
