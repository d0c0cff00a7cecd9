//! The partitions that spread a client's streams.
use moqtail_apps::stream_id::{get_partition_index, StreamId, StreamType, SEND_STREAM_PARTITION_COUNT};

/// Helper function to create a Fetch stream ID
fn create_fetch_stream_id(relay_track_id: u64, fetch_request_id: u64) -> StreamId {
    StreamId {
        stream_type: StreamType::Fetch,
        relay_track_id,
        group_id: None,
        subgroup_id: None,
        fetch_request_id: Some(fetch_request_id),
    }
}

/// Helper function to create a Subgroup stream ID
fn create_subgroup_stream_id(
    relay_track_id: u64,
    group_id: Option<u64>,
    subgroup_id: Option<u64>,
) -> StreamId {
    StreamId {
        stream_type: StreamType::Subgroup,
        relay_track_id,
        group_id,
        subgroup_id,
        fetch_request_id: None,
    }
}

#[test]
fn test_get_partition_index_fetch_streams() {
    // Test basic fetch stream partitioning
    let stream_id1 = create_fetch_stream_id(100, 1);
    let partition1 = get_partition_index(&stream_id1);
    assert!(
        partition1 < SEND_STREAM_PARTITION_COUNT,
        "Partition index should be within bounds"
    );

    let stream_id2 = create_fetch_stream_id(100, 2);
    let partition2 = get_partition_index(&stream_id2);
    assert!(
        partition2 < SEND_STREAM_PARTITION_COUNT,
        "Partition index should be within bounds"
    );

    // Different fetch request IDs should potentially give different partitions
    // (though not guaranteed due to hash collisions)
    let stream_id3 = create_fetch_stream_id(100, 1000);
    let partition3 = get_partition_index(&stream_id3);
    assert!(
        partition3 < SEND_STREAM_PARTITION_COUNT,
        "Partition index should be within bounds"
    );
}

#[test]
fn test_get_partition_index_fetch_streams_consistency() {
    // Test that the same inputs always produce the same output
    let stream_id = create_fetch_stream_id(42, 123);
    let partition1 = get_partition_index(&stream_id);
    let partition2 = get_partition_index(&stream_id);
    assert_eq!(
        partition1, partition2,
        "Same input should always produce same partition"
    );
}

#[test]
fn test_get_partition_index_fetch_streams_edge_cases() {
    // Test with fetch_request_id = None (should default to 0)
    let mut stream_id = create_fetch_stream_id(100, 1);
    stream_id.fetch_request_id = None;
    let partition = get_partition_index(&stream_id);
    assert!(
        partition < SEND_STREAM_PARTITION_COUNT,
        "Partition index should be within bounds"
    );

    // Test with large values
    let stream_id_large = create_fetch_stream_id(u64::MAX, u64::MAX);
    let partition_large = get_partition_index(&stream_id_large);
    assert!(
        partition_large < SEND_STREAM_PARTITION_COUNT,
        "Partition index should be within bounds for large values"
    );

    // Test with zero values
    let stream_id_zero = create_fetch_stream_id(0, 0);
    let partition_zero = get_partition_index(&stream_id_zero);
    assert!(
        partition_zero < SEND_STREAM_PARTITION_COUNT,
        "Partition index should be within bounds for zero values"
    );
}

#[test]
fn test_get_partition_index_subgroup_streams() {
    // Test basic subgroup stream partitioning
    let stream_id1 = create_subgroup_stream_id(100, Some(1), Some(1));
    let partition1 = get_partition_index(&stream_id1);
    assert!(
        partition1 < SEND_STREAM_PARTITION_COUNT,
        "Partition index should be within bounds"
    );

    let stream_id2 = create_subgroup_stream_id(100, Some(2), Some(1));
    let partition2 = get_partition_index(&stream_id2);
    assert!(
        partition2 < SEND_STREAM_PARTITION_COUNT,
        "Partition index should be within bounds"
    );

    let stream_id3 = create_subgroup_stream_id(200, Some(1), Some(1));
    let partition3 = get_partition_index(&stream_id3);
    assert!(
        partition3 < SEND_STREAM_PARTITION_COUNT,
        "Partition index should be within bounds"
    );
}

#[test]
fn test_get_partition_index_subgroup_streams_consistency() {
    // Test that the same inputs always produce the same output
    let stream_id = create_subgroup_stream_id(42, Some(7), Some(13));
    let partition1 = get_partition_index(&stream_id);
    let partition2 = get_partition_index(&stream_id);
    assert_eq!(
        partition1, partition2,
        "Same input should always produce same partition"
    );
}

#[test]
fn test_get_partition_index_subgroup_streams_none_values() {
    // Test with None group_id and subgroup_id (should default to 0)
    let stream_id1 = create_subgroup_stream_id(100, None, None);
    let partition1 = get_partition_index(&stream_id1);
    assert!(
        partition1 < SEND_STREAM_PARTITION_COUNT,
        "Partition index should be within bounds"
    );

    // Test with Some group_id and None subgroup_id
    let stream_id2 = create_subgroup_stream_id(100, Some(5), None);
    let partition2 = get_partition_index(&stream_id2);
    assert!(
        partition2 < SEND_STREAM_PARTITION_COUNT,
        "Partition index should be within bounds"
    );

    // Test with None group_id and Some subgroup_id
    let stream_id3 = create_subgroup_stream_id(100, None, Some(3));
    let partition3 = get_partition_index(&stream_id3);
    assert!(
        partition3 < SEND_STREAM_PARTITION_COUNT,
        "Partition index should be within bounds"
    );
}

#[test]
fn test_get_partition_index_subgroup_streams_large_values() {
    // Test with large values to ensure no overflow
    let stream_id_large = create_subgroup_stream_id(u64::MAX, Some(u64::MAX), Some(u64::MAX));
    let partition_large = get_partition_index(&stream_id_large);
    assert!(
        partition_large < SEND_STREAM_PARTITION_COUNT,
        "Partition index should be within bounds for large values"
    );

    // Test with values that might cause overflow in naive implementations
    let stream_id_overflow =
        create_subgroup_stream_id(u64::MAX / 2, Some(u64::MAX / 3), Some(u64::MAX / 5));
    let partition_overflow = get_partition_index(&stream_id_overflow);
    assert!(
        partition_overflow < SEND_STREAM_PARTITION_COUNT,
        "Partition index should be within bounds for overflow-prone values"
    );
}

#[test]
fn test_get_partition_index_distribution_quality() {
    let mut distribution = [0; SEND_STREAM_PARTITION_COUNT];
    let test_count = 1000usize;

    // Test distribution quality for fetch streams
    for i in 0..test_count {
        let stream_id = create_fetch_stream_id((i % 10) as u64, i as u64);
        let partition = get_partition_index(&stream_id);
        distribution[partition] += 1;
    }

    // Check that distribution is reasonably even (no partition should be empty or overly full)
    let expected_per_partition = test_count / SEND_STREAM_PARTITION_COUNT;
    let tolerance = expected_per_partition / 2; // Allow 50% deviation

    for (i, &count) in distribution.iter().enumerate() {
        assert!(
            count > 0,
            "Partition {} should have at least one entry for good distribution",
            i
        );
        assert!(
            count < expected_per_partition + tolerance,
            "Partition {} has too many entries ({}), expected around {}",
            i,
            count,
            expected_per_partition
        );
        // print the distribution
        println!("Partition {}: {}", i, count);
    }
}

#[test]
fn test_get_partition_index_subgroup_distribution_quality() {
    let mut distribution = [0; SEND_STREAM_PARTITION_COUNT];
    let test_count = 1000usize;

    // Test distribution quality for subgroup streams
    for i in 0..test_count {
        let stream_id = create_subgroup_stream_id(
            (i % 10) as u64,       // track_alias
            Some((i / 10) as u64), // group_id
            Some((i % 5) as u64),  // subgroup_id
        );
        let partition = get_partition_index(&stream_id);
        distribution[partition] += 1;
    }

    // Check that distribution is reasonably even
    let expected_per_partition = test_count / SEND_STREAM_PARTITION_COUNT;
    let tolerance = expected_per_partition / 2; // Allow 50% deviation

    for (i, &count) in distribution.iter().enumerate() {
        assert!(
            count > 0,
            "Partition {} should have at least one entry for good distribution",
            i
        );
        assert!(
            count < expected_per_partition + tolerance,
            "Partition {} has too many entries ({}), expected around {}",
            i,
            count,
            expected_per_partition
        );
        // print out the distribution
        println!("Partition {}: {}", i, count);
    }
}

#[test]
fn test_get_partition_index_different_stream_types() {
    // Test that fetch and subgroup streams with similar parameters can have different partitions
    let fetch_stream = create_fetch_stream_id(100, 50);
    let subgroup_stream = create_subgroup_stream_id(100, Some(50), Some(0));

    let fetch_partition = get_partition_index(&fetch_stream);
    let subgroup_partition = get_partition_index(&subgroup_stream);

    // Both should be within bounds
    assert!(fetch_partition < SEND_STREAM_PARTITION_COUNT);
    assert!(subgroup_partition < SEND_STREAM_PARTITION_COUNT);

    // They should potentially be different (though not guaranteed due to hashing)
    // This test mainly ensures both algorithms work correctly
}

#[test]
fn test_get_partition_index_deterministic() {
    let test_cases = vec![
        create_fetch_stream_id(42, 123),
        create_subgroup_stream_id(42, Some(123), Some(456)),
        create_subgroup_stream_id(0, None, None),
        create_fetch_stream_id(u64::MAX, 0),
    ];

    for stream_id in test_cases {
        let partition1 = get_partition_index(&stream_id);
        let partition2 = get_partition_index(&stream_id);
        assert_eq!(
            partition1, partition2,
            "Multiple calls should produce same partition for same stream_id"
        );
    }
}

#[test]
fn partition_follows_the_hash_of_the_mixed_fields() {
    // 100 + 1 * 13 and 100 + 1 * 17 + 1 * 31, hashed and reduced.
    let fnv = |value: u64| -> usize {
        let mut h: u64 = 0xcbf29ce484222325;
        for b in value.to_le_bytes() {
            h ^= b as u64;
            h = h.wrapping_mul(0x100000001b3);
        }
        (h % SEND_STREAM_PARTITION_COUNT as u64) as usize
    };
    assert_eq!(get_partition_index(&create_fetch_stream_id(100, 1)), fnv(113));
    assert_eq!(get_partition_index(&create_subgroup_stream_id(100, Some(1), Some(1))), fnv(148));
    assert_eq!(
        get_partition_index(&create_fetch_stream_id(1, u64::MAX)),
        fnv(1u64.wrapping_sub(13))
    );
}
