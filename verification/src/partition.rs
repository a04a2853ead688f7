//! Deterministic member-to-shard partition, computed and never stored.
//!
//! `base = total / shards`, `rem = total % shards`; shard `p` owns
//! `base + (p < rem ? 1 : 0)` members starting at `p * base + min(p, rem)`.
use vstd::prelude::*;

verus! {

/// Number of members owned by shard `id` of `shards` over `total` members.
pub open spec fn len_of(total: int, shards: int, id: int) -> int {
    total / shards + if id < total % shards { 1int } else { 0int }
}

/// First global member index owned by shard `id`.
pub open spec fn start_of(total: int, shards: int, id: int) -> int {
    id * (total / shards) + if id < total % shards { id } else { total % shards }
}

/// Number of members owned by shard `shard_id` of `shards` partitions over `total`.
pub fn partition_len(total: u64, shards: u64, shard_id: u64) -> (r: u64)
    requires
        shards > 0,
    ensures
        r == len_of(total as int, shards as int, shard_id as int),
{
    let base = total / shards;
    let rem = total % shards;
    proof {
        if rem > 0 {
            assert(shards >= 2);
            assert(base <= total / 2) by (nonlinear_arith)
                requires shards >= 2, base == total / shards;
        }
    }
    base + if shard_id < rem { 1 } else { 0 }
}

/// First global member index owned by shard `shard_id`, or `None` where it does not fit
/// in `u64` (only possible for an id at or past the shard count).
pub fn partition_start_checked(total: u64, shards: u64, shard_id: u64) -> (r: Option<u64>)
    requires
        shards > 0,
    ensures
        r == (if start_of(total as int, shards as int, shard_id as int) <= u64::MAX {
            Some(start_of(total as int, shards as int, shard_id as int) as u64)
        } else {
            None::<u64>
        }),
{
    let base = total / shards;
    let rem = total % shards;
    assert((shard_id as int) * (base as int) <= 0xffff_ffff_ffff_ffff * 0xffff_ffff_ffff_ffff)
        by (nonlinear_arith)
        requires shard_id <= 0xffff_ffff_ffff_ffffu64, base <= 0xffff_ffff_ffff_ffffu64;
    assert((shard_id as int) * (base as int) >= 0) by (nonlinear_arith);
    let prod = (shard_id as u128) * (base as u128);
    let extra: u64 = if shard_id < rem { shard_id } else { rem };
    let s = prod + extra as u128;
    if s > 0xffff_ffff_ffff_ffffu128 {
        None
    } else {
        Some(s as u64)
    }
}

/// First global member index owned by shard `shard_id`.
pub fn partition_start(total: u64, shards: u64, shard_id: u64) -> (r: u64)
    requires
        shards > 0,
        start_of(total as int, shards as int, shard_id as int) <= u64::MAX,
    ensures
        r == start_of(total as int, shards as int, shard_id as int),
{
    let base = total / shards;
    let rem = total % shards;
    assert(shard_id * base >= 0) by (nonlinear_arith);
    shard_id * base + if shard_id < rem { shard_id } else { rem }
}


/// Shard `id`'s range ends exactly where shard `id + 1` begins (no gap, no overlap).
pub proof fn lemma_partition_contiguous(total: int, shards: int, id: int)
    requires
        0 <= total,
        1 <= shards,
        0 <= id,
    ensures
        start_of(total, shards, id) + len_of(total, shards, id) == start_of(total, shards, id + 1),
{
    let b = total / shards;
    assert((id + 1) * b == id * b + b) by (nonlinear_arith);
}

/// The `shards` ranges, laid end to end from index 0, cover exactly `[0, total)`.
pub proof fn lemma_partition_bounds(total: int, shards: int)
    requires
        0 <= total,
        1 <= shards,
    ensures
        start_of(total, shards, 0) == 0,
        start_of(total, shards, shards) == total,
        start_of(total, shards, shards - 1) + len_of(total, shards, shards - 1) == total,
{
    let b = total / shards;
    let r = total % shards;
    assert(0 * b == 0) by (nonlinear_arith);
    assert(shards * b + r == total) by (nonlinear_arith)
        requires b == total / shards, r == total % shards, shards >= 1;
    assert(0 <= r < shards) by (nonlinear_arith)
        requires r == total % shards, shards >= 1;
    lemma_partition_contiguous(total, shards, shards - 1);
}

/// With at least as many members as shards, every shard owns at least one member.
pub proof fn lemma_partition_nonempty(total: int, shards: int, id: int)
    requires
        1 <= shards <= total,
    ensures
        len_of(total, shards, id) >= 1,
{
    assert(total / shards >= 1) by (nonlinear_arith)
        requires 1 <= shards <= total;
}

/// A shard owns between 0 and `total` members.
pub proof fn lemma_partition_len_bounds(total: int, shards: int, id: int)
    requires
        0 <= total,
        1 <= shards,
        0 <= id,
    ensures
        0 <= len_of(total, shards, id) <= total,
{
    let b = total / shards;
    let r = total % shards;
    assert(0 <= b && 0 <= r < shards && shards * b + r == total) by (nonlinear_arith)
        requires b == total / shards, r == total % shards, 0 <= total, 1 <= shards;
    assert(b <= total) by (nonlinear_arith)
        requires shards * b + r == total, 0 <= r, 1 <= shards, 0 <= b;
    if r > 0 {
        assert(b + 1 <= total) by (nonlinear_arith)
            requires shards * b + r == total, 0 < r < shards, 0 <= b;
    }
}

/// Ranges of distinct shards are ordered and disjoint: an earlier shard ends at or
/// before a later one starts.
pub proof fn lemma_partition_ordered(total: int, shards: int, i: int, j: int)
    requires
        0 <= total,
        1 <= shards,
        0 <= i < j,
    ensures
        start_of(total, shards, i) + len_of(total, shards, i) <= start_of(total, shards, j),
    decreases j - i,
{
    lemma_partition_contiguous(total, shards, i);
    if i + 1 < j {
        lemma_partition_ordered(total, shards, i + 1, j);
        assert(total / shards >= 0) by (nonlinear_arith)
            requires 0 <= total, 1 <= shards;
    }
}

/// Every member index in `[0, total)` lies in the range of some shard `id < shards`.
pub proof fn lemma_partition_owner(total: int, shards: int, g: int)
    requires
        1 <= shards,
        0 <= g < total,
    ensures
        exists|id: int|
            0 <= id < shards && #[trigger] start_of(total, shards, id) <= g < start_of(total, shards, id)
                + len_of(total, shards, id),
{
    lemma_partition_bounds(total, shards);
    lemma_partition_owner_from(total, shards, g, 0);
}

proof fn lemma_partition_owner_from(total: int, shards: int, g: int, k: int)
    requires
        1 <= shards,
        0 <= k < shards,
        0 <= g,
        start_of(total, shards, k) <= g < total,
        start_of(total, shards, shards) == total,
    ensures
        exists|id: int|
            0 <= id < shards && #[trigger] start_of(total, shards, id) <= g < start_of(total, shards, id)
                + len_of(total, shards, id),
    decreases shards - k,
{
    lemma_partition_contiguous(total, shards, k);
    if g >= start_of(total, shards, k) + len_of(total, shards, k) {
        assert(k + 1 < shards);
        lemma_partition_owner_from(total, shards, g, k + 1);
    }
}

/// The number of members owned by shards `0..k`.
pub open spec fn len_prefix(total: int, shards: int, k: int) -> int
    decreases k,
{
    if k <= 0 {
        0
    } else {
        len_prefix(total, shards, k - 1) + len_of(total, shards, k - 1)
    }
}

/// Shards `0..k` own exactly the members before shard `k`'s start.
pub proof fn lemma_len_prefix(total: int, shards: int, k: int)
    requires
        0 <= total,
        1 <= shards,
        0 <= k,
    ensures
        len_prefix(total, shards, k) == start_of(total, shards, k),
    decreases k,
{
    lemma_partition_bounds(total, shards);
    if k > 0 {
        lemma_len_prefix(total, shards, k - 1);
        lemma_partition_contiguous(total, shards, k - 1);
    }
}

/// All `shards` shards together own exactly `total` members: every member is covered
/// once.
pub proof fn lemma_len_prefix_total(total: int, shards: int)
    requires
        0 <= total,
        1 <= shards,
    ensures
        len_prefix(total, shards, shards) == total,
{
    lemma_partition_bounds(total, shards);
    lemma_len_prefix(total, shards, shards);
}

} // verus!
