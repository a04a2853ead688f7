use freshet::partition::{partition_len, partition_start};

#[test]
fn uneven_partition_tiles_range_exactly() {
    // total=10 over P=3: base=3, rem=1 -> lens [4,3,3], starts [0,4,7].
    let total = 10;
    let p = 3;
    assert_eq!(partition_len(total, p, 0), 4);
    assert_eq!(partition_len(total, p, 1), 3);
    assert_eq!(partition_len(total, p, 2), 3);
    assert_eq!(partition_start(total, p, 0), 0);
    assert_eq!(partition_start(total, p, 1), 4);
    assert_eq!(partition_start(total, p, 2), 7);
}

/// Asserts the P shards exactly tile [0, total): contiguous, no gap/overlap,
/// every shard non-empty.
fn assert_tiles(total: u64, p: u64) {
    assert_eq!(partition_start(total, p, 0), 0, "must start at 0 (total={total} p={p})");
    let mut covered = 0;
    for id in 0..p {
        let len = partition_len(total, p, id);
        assert!(len >= 1, "empty shard {id} (total={total} p={p}) — would wedge the phase");
        assert_eq!(
            partition_start(total, p, id),
            covered,
            "shard {id} start must be contiguous (total={total} p={p})"
        );
        covered += len;
    }
    assert_eq!(covered, total, "shards must cover exactly total (total={total} p={p})");
}

#[test]
fn partition_tiles_exactly_across_many_shapes() {
    for total in 1..=200u64 {
        for p in 1..=total {
            assert_tiles(total, p);
        }
    }
}

#[test]
fn edge_shapes() {
    assert_tiles(1, 1);
    assert_tiles(100, 1);
    assert_tiles(100, 100);
    assert_tiles(7, 7);
}

/// Endpoints plus a few interior shards, for totals too large to walk every shard.
fn assert_tiles_endpoints(total: u64, p: u64) {
    assert_eq!(partition_start(total, p, 0), 0);
    let last = p - 1;
    assert_eq!(
        partition_start(total, p, last) + partition_len(total, p, last),
        total,
        "last shard must reach total (total={total} p={p})"
    );
    for id in [0, p / 2, last] {
        if id + 1 < p {
            assert_eq!(
                partition_start(total, p, id) + partition_len(total, p, id),
                partition_start(total, p, id + 1),
                "contiguity at shard {id} (total={total} p={p})"
            );
        }
        assert!(partition_len(total, p, id) >= 1);
    }
}

#[test]
fn no_overflow_for_large_u64_totals() {
    let total = u64::MAX / 2 + 12345;
    for &p in &[1u64, 2, 3, 7, 1000, 999_983] {
        assert_tiles_endpoints(total, p);
    }
}

#[test]
fn partition_exact_values_for_remainder_shards() {
    // 11 over 4: base 2, rem 3 -> lens [3,3,3,2], starts [0,3,6,9].
    assert_eq!(partition_len(11, 4, 0), 3);
    assert_eq!(partition_len(11, 4, 3), 2);
    assert_eq!(partition_start(11, 4, 2), 6);
    assert_eq!(partition_start(11, 4, 3), 9);
    // shard_id at or beyond the shard count: the formula still evaluates.
    assert_eq!(partition_len(11, 4, 4), 2);
    assert_eq!(partition_start(11, 4, 4), 11);
}
