//! Stream priorities.
use moqtail_apps::message::GroupOrder;
use moqtail_apps::priority::compute_stream_priority;

#[test]
fn test_highest_priority_near_i32_max() {
    let p = compute_stream_priority(0, 0, GroupOrder::Ascending, 0);
    assert!(
        p > 2_100_000_000,
        "highest priority should be near i32::MAX, got {p}"
    );
}

#[test]
fn test_lowest_priority_near_i32_min() {
    let p = compute_stream_priority(255, 255, GroupOrder::Ascending, 0);
    assert!(
        p < -2_100_000_000,
        "lowest priority should be near i32::MIN, got {p}"
    );
}

#[test]
fn test_ascending_lower_group_higher_priority() {
    let p0 = compute_stream_priority(0, 0, GroupOrder::Ascending, 0);
    let p1 = compute_stream_priority(0, 0, GroupOrder::Ascending, 1);
    assert!(p0 > p1, "group 0 should outrank group 1 in Ascending order");
}

#[test]
fn test_descending_higher_group_higher_priority() {
    let p0 = compute_stream_priority(0, 0, GroupOrder::Descending, 0);
    let p1 = compute_stream_priority(0, 0, GroupOrder::Descending, 1);
    assert!(
        p1 > p0,
        "group 1 should outrank group 0 in Descending order"
    );
}

#[test]
fn test_original_same_as_ascending() {
    for g in [0u64, 1, 100, 65535] {
        assert_eq!(
            compute_stream_priority(10, 20, GroupOrder::Original, g),
            compute_stream_priority(10, 20, GroupOrder::Ascending, g),
            "Original should behave like Ascending for group {g}"
        );
    }
}

#[test]
fn test_subscriber_priority_dominates() {
    // sub=0,pub=255 must outrank sub=1,pub=0 regardless of group
    let high = compute_stream_priority(0, 255, GroupOrder::Ascending, 0);
    let low = compute_stream_priority(1, 0, GroupOrder::Ascending, 0);
    assert!(
        high > low,
        "subscriber priority must dominate publisher priority"
    );
}

#[test]
fn test_publisher_priority_tie_break() {
    let high = compute_stream_priority(10, 0, GroupOrder::Ascending, 0);
    let low = compute_stream_priority(10, 1, GroupOrder::Ascending, 0);
    assert!(high > low, "lower pub_prio number = higher priority");
}

#[test]
fn test_all_values_within_i32_range() {
    for sub in [0u8, 128, 255] {
        for pub_ in [0u8, 128, 255] {
            for &order in &[
                GroupOrder::Ascending,
                GroupOrder::Descending,
                GroupOrder::Original,
            ] {
                for group in [0u64, 1, 65534, 65535, 65536, u64::MAX] {
                    let _ = compute_stream_priority(sub, pub_, order, group); // must not panic/overflow
                }
            }
        }
    }
}

#[test]
fn priorities_at_the_ends_of_their_range() {
    assert_eq!(compute_stream_priority(0, 0, GroupOrder::Ascending, 0), i32::MAX);
    assert_eq!(compute_stream_priority(0, 0, GroupOrder::Descending, 65535), i32::MAX);
    assert_eq!(compute_stream_priority(255, 255, GroupOrder::Descending, 0), i32::MIN);
    assert_eq!(compute_stream_priority(255, 255, GroupOrder::Ascending, 65535), i32::MIN);
    // Groups are told apart modulo the size of a band.
    assert_eq!(
        compute_stream_priority(128, 128, GroupOrder::Ascending, 65536 + 7),
        compute_stream_priority(128, 128, GroupOrder::Ascending, 7)
    );
    // Band 127 * 256 + 127, slot 65535 - 7.
    assert_eq!(
        compute_stream_priority(128, 128, GroupOrder::Ascending, 7) as i64,
        i32::MIN as i64 + (127 * 256 + 127) * 65536 + 65528
    );
}
