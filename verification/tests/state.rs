use freshet::partition::partition_len;
use freshet::state::{
    advance_step, apply_finish_step, reduce_step, skip_step, Error, Machine, Status,
};

#[test]
fn status_u8_is_stable_and_checked() {
    let all = [
        (0u8, Status::Pending),
        (1, Status::Reducing),
        (2, Status::Reduced),
        (3, Status::Applying),
        (4, Status::Done),
        (5, Status::Cancelled),
    ];
    for (v, s) in all {
        assert_eq!(s as u8, v, "discriminant pinned");
        assert_eq!(s.to_u8(), v);
        assert_eq!(Status::try_from(v), Ok(s));
    }
    for v in 6u8..=255 {
        assert!(Status::try_from(v).is_err(), "byte {v} must reject (corruption)");
    }
    assert_eq!(Status::try_from(6), Err(Error::BadStatus));
}

#[test]
fn init_starts_pending_at_epoch_1() {
    let m = Machine::init(1, false, false, false).unwrap();
    assert_eq!(m.status, Status::Pending);
    assert_eq!(m.epoch, 1, "epoch 0 is the never-applied sentinel; init must use 1");
    assert_eq!(m.total, 0);
    assert!(!m.ever_sealed);
}

#[test]
fn init_rejects_bad_shard_counts() {
    assert_eq!(Machine::init(0, false, true, false).err(), Some(Error::BadShardCount));
    assert_eq!(Machine::init(2, false, false, false).err(), Some(Error::NotShardable));
    assert!(Machine::init(2, false, true, false).is_ok());
}

/// A sealed single-pass effect with `total` members across `p` shards.
fn sealed_single_pass(total: u64, p: u32) -> Machine {
    let mut m = Machine::init(p, false, true, false).unwrap();
    m.enroll(total).unwrap();
    m.create_shards(p).unwrap();
    m.seal().unwrap();
    m
}

#[test]
fn seal_single_pass_enters_applying() {
    let m = sealed_single_pass(5, 1);
    assert_eq!(m.status, Status::Applying);
    assert!(m.ever_sealed);
    assert_eq!(m.total, 5);
}

#[test]
fn seal_two_phase_enters_reducing() {
    let mut m = Machine::init(1, true, false, false).unwrap();
    m.enroll(5).unwrap();
    m.create_shards(1).unwrap();
    m.seal().unwrap();
    assert_eq!(m.status, Status::Reducing);
}

#[test]
fn seal_rejects_incomplete_shards() {
    let mut m = Machine::init(2, false, true, false).unwrap();
    m.enroll(4).unwrap();
    m.create_shards(1).unwrap();
    assert_eq!(m.seal(), Err(Error::ShardsIncomplete));
}

#[test]
fn seal_rejects_more_shards_than_members() {
    let mut m = Machine::init(3, false, true, false).unwrap();
    m.enroll(2).unwrap();
    m.create_shards(3).unwrap();
    assert_eq!(m.seal(), Err(Error::BadShardCount));
}

#[test]
fn seal_rejects_pull_enabled() {
    let mut m = Machine::init(1, false, false, true).unwrap();
    m.enroll(3).unwrap();
    m.create_shards(1).unwrap();
    assert_eq!(m.seal(), Err(Error::PullPushExclusive));
}

#[test]
fn reset_rejects_unsealed_effect() {
    let mut m = Machine::init(1, false, false, false).unwrap();
    m.cancel().unwrap();
    assert_eq!(m.status, Status::Cancelled);
    assert_eq!(m.reset(), Err(Error::NotSealed));
}

#[test]
fn reset_of_a_sealed_effect_with_a_bad_partition_is_not_sealed() {
    let mut m = sealed_single_pass(5, 1);
    m.cancel().unwrap();
    m.total = 0;
    assert_eq!(m.reset(), Err(Error::NotSealed));
    assert_eq!(m.epoch, 1, "a refused reset changes nothing");
}

#[test]
fn reset_after_sealed_cancel_bumps_epoch_and_clears() {
    let mut m = sealed_single_pass(5, 1);
    m.apply_skipped = 2;
    m.cancel().unwrap();
    m.reset().unwrap();
    assert_eq!(m.epoch, 2, "reset bumps epoch");
    assert_eq!(m.status, Status::Applying, "single-pass reset → Applying");
    assert_eq!(m.apply_skipped, 0, "reset clears skip counters");
    assert_eq!(m.reduce_skipped, 0);
    assert!(!m.finalized);
    assert_eq!(m.total, 5, "total unchanged across reset");
}

#[test]
fn lifecycle_errors_per_phase() {
    let mut m = sealed_single_pass(2, 1);
    assert_eq!(m.enroll(1), Err(Error::WrongPhase));
    assert_eq!(m.create_shards(1), Err(Error::WrongPhase));
    assert_eq!(m.seal(), Err(Error::WrongPhase));
    assert_eq!(m.reset(), Err(Error::WrongPhase));
    assert_eq!(m.finalize(), Err(Error::WrongPhase));
    assert_eq!(m.reduce_shards(&[0]), Err(Error::WrongPhase));
    assert_eq!(m.skip_reduce(0), Err(Error::WrongPhase));
    assert_eq!(m.advance_reduce(0, 1), Err(Error::WrongPhase));
    m.advance_apply(0, 2).unwrap();
    m.try_finish_apply(&[0]).unwrap();
    assert_eq!(m.status, Status::Done);
    m.finalize().unwrap();
    assert_eq!(m.finalize(), Err(Error::AlreadyFinalized));
    assert_eq!(m.cancel(), Err(Error::WrongPhase));
    let mut p = Machine::init(1, false, false, true).unwrap();
    p.enroll(1).unwrap();
    p.create_shards(1).unwrap();
    p.cancel().unwrap();
    assert_eq!(p.reset(), Err(Error::PullNoReset));
}

fn sealed(total: u64, p: u32, requires_reduce: bool) -> Machine {
    let mut m = Machine::init(p, requires_reduce, true, false).unwrap();
    m.enroll(total).unwrap();
    m.create_shards(p).unwrap();
    m.seal().unwrap();
    m
}

fn shard_len(m: &Machine, sid: u32) -> u64 {
    partition_len(m.total, m.shard_count as u64, sid as u64)
}

fn apply_shard_fully(m: &mut Machine, sid: u32, batch: u64) {
    while m.shards[sid as usize].apply_cursor < shard_len(m, sid) {
        m.advance_apply(sid, batch).unwrap();
    }
}

fn reduce_shard_fully(m: &mut Machine, sid: u32, batch: u64) {
    while m.shards[sid as usize].reduce_cursor < shard_len(m, sid) {
        m.advance_reduce(sid, batch).unwrap();
    }
}

fn ids(p: u32) -> Vec<u32> {
    (0..p).collect()
}

#[test]
fn single_pass_cranks_to_done_with_full_coverage() {
    let mut m = sealed(10, 3, false);
    for sid in 0..3 {
        apply_shard_fully(&mut m, sid, 4);
    }
    m.try_finish_apply(&ids(3)).unwrap();
    assert_eq!(m.status, Status::Done);
    let covered: u64 = m.shards.iter().map(|s| s.apply_cursor).sum();
    assert_eq!(covered, 10, "every member applied exactly once (cursor coverage)");
}

#[test]
fn two_phase_cranks_to_done() {
    let mut m = sealed(8, 2, true);
    assert_eq!(m.status, Status::Reducing);
    for sid in 0..2 {
        reduce_shard_fully(&mut m, sid, 3);
    }
    m.reduce_shards(&ids(2)).unwrap();
    assert_eq!(m.status, Status::Reduced);
    m.begin_apply().unwrap();
    assert_eq!(m.status, Status::Applying);
    for sid in 0..2 {
        apply_shard_fully(&mut m, sid, 3);
    }
    m.try_finish_apply(&ids(2)).unwrap();
    assert_eq!(m.status, Status::Done);
}

#[test]
fn skip_last_member_still_reaches_done() {
    let mut m = sealed(3, 1, false);
    m.advance_apply(0, 2).unwrap();
    m.skip(0).unwrap();
    assert_eq!(m.shards[0].apply_cursor, 3);
    m.try_finish_apply(&[0]).unwrap();
    assert_eq!(m.status, Status::Done, "skip of last member must still reach Done");
    assert_eq!(m.apply_skipped, 1);
}

#[test]
fn skip_as_first_touch_after_reset_does_not_wedge() {
    let mut m = sealed(3, 1, false);
    apply_shard_fully(&mut m, 0, 3);
    m.try_finish_apply(&[0]).unwrap();
    assert_eq!(m.status, Status::Done);
    m.reset().unwrap();
    assert_eq!(m.epoch, 2);
    m.skip(0).unwrap();
    assert_eq!(m.shards[0].epoch, 2, "prologue must bump shard epoch");
    assert_eq!(m.shards[0].apply_cursor, 1, "prologue reset cursor to 0, skip -> 1");
    apply_shard_fully(&mut m, 0, 3);
    m.try_finish_apply(&[0]).unwrap();
    assert_eq!(m.status, Status::Done, "re-run reaches Done, no wedge");
}

#[test]
fn skip_reduce_counts_and_stale_shard_is_not_merged() {
    let mut m = sealed(4, 1, true);
    m.skip_reduce(0).unwrap();
    assert_eq!(m.reduce_skipped, 1);
    assert_eq!(m.shards[0].reduce_cursor, 1);
    // not complete yet: merge refuses
    assert_eq!(m.reduce_shards(&[0]), Err(Error::ShardNotComplete));
    reduce_shard_fully(&mut m, 0, 2);
    m.reduce_shards(&[0]).unwrap();
    assert_eq!(m.status, Status::Reduced);
    assert_eq!(m.merge_cursor, 1);
}

#[test]
fn try_finish_apply_rejects_incomplete_shard() {
    let mut m = sealed(5, 1, false);
    m.advance_apply(0, 2).unwrap();
    assert_eq!(m.try_finish_apply(&[0]), Result::Err(Error::ShardNotComplete));
    assert_eq!(m.status, Status::Applying, "must not prematurely Done");
}

#[test]
fn try_finish_apply_rejects_out_of_order() {
    let mut m = sealed(6, 2, false);
    for sid in 0..2 {
        apply_shard_fully(&mut m, sid, 6);
    }
    assert_eq!(m.try_finish_apply(&[1]), Result::Err(Error::MergeOrder));
}

#[test]
fn advance_apply_wrong_phase_in_reducing() {
    let mut m = sealed(4, 1, true);
    assert_eq!(m.advance_apply(0, 2), Result::Err(Error::WrongPhase));
}

#[test]
fn begin_apply_requires_reduced() {
    let mut m = sealed(4, 1, true);
    assert_eq!(m.begin_apply(), Result::Err(Error::WrongPhase));
}

#[test]
fn advance_apply_rejects_out_of_range_shard() {
    let mut m = sealed(4, 1, false);
    assert_eq!(m.advance_apply(5, 2), Result::Err(Error::ShardIdOutOfRange));
}

#[test]
fn advance_past_len_is_shard_complete() {
    let mut m = sealed(2, 1, false);
    apply_shard_fully(&mut m, 0, 2);
    assert_eq!(m.advance_apply(0, 2), Result::Err(Error::ShardComplete));
}

#[test]
fn pure_step_guards() {
    assert_eq!(advance_step(0, 10, 4), Ok(4));
    assert_eq!(advance_step(8, 10, 4), Ok(2), "clamps to remaining");
    assert_eq!(advance_step(10, 10, 4), Result::Err(Error::ShardComplete));
    assert_eq!(skip_step(3, 4), Ok(()));
    assert_eq!(skip_step(4, 4), Result::Err(Error::ShardComplete));
    assert_eq!(reduce_step(2, 2, 7, 7, 5, 5), Ok(()));
    assert_eq!(reduce_step(2, 3, 7, 7, 5, 5), Result::Err(Error::MergeOrder));
    assert_eq!(reduce_step(2, 2, 6, 7, 5, 5), Result::Err(Error::ShardNotComplete), "stale epoch");
    assert_eq!(reduce_step(2, 2, 7, 7, 4, 5), Result::Err(Error::ShardNotComplete), "incomplete");
    assert_eq!(apply_finish_step(0, 0, 9, 9, 3, 3), Ok(()));
    assert_eq!(apply_finish_step(0, 1, 9, 9, 3, 3), Result::Err(Error::MergeOrder));
}

#[test]
fn liveness_every_sealed_effect_reaches_done() {
    for total in 1..=40u64 {
        for p in 1..=(total.min(10) as u32) {
            for two_phase in [false, true] {
                let mut m = sealed(total, p, two_phase);
                if two_phase {
                    for sid in 0..p {
                        reduce_shard_fully(&mut m, sid, 5);
                    }
                    m.reduce_shards(&ids(p)).unwrap();
                    assert_eq!(m.status, Status::Reduced);
                    m.begin_apply().unwrap();
                }
                for sid in 0..p {
                    apply_shard_fully(&mut m, sid, 5);
                }
                m.try_finish_apply(&ids(p)).unwrap();
                assert_eq!(
                    m.status,
                    Status::Done,
                    "must reach Done (total={total} p={p} two_phase={two_phase})"
                );
                let covered: u64 = m.shards.iter().map(|s| s.apply_cursor).sum();
                assert_eq!(
                    covered, total,
                    "exactly-once coverage (total={total} p={p} two_phase={two_phase})"
                );
                m.finalize().unwrap();
                assert!(m.finalized);
            }
        }
    }
}

/// Liveness for a keeper that mixes batch sizes and interleaves shards: batches past a
/// shard's end are refused, and once each shard's batches add up to its length the
/// ascending promotion reaches `Done` with every member covered once.
#[test]
fn interleaved_batches_of_any_size_reach_done() {
    let mut m = sealed(10, 3, true);
    // shard lengths are 4, 3, 3
    let reduce_steps: [(u32, u64); 6] = [(2, 2), (0, 1), (1, 7), (0, 5), (2, 1), (2, 9)];
    let mut refused = 0;
    for (sid, batch) in reduce_steps {
        if m.advance_reduce(sid, batch).is_err() {
            refused += 1;
        }
    }
    assert_eq!(refused, 1, "only the batch past the end of shard 2 is refused");
    m.reduce_shards(&ids(3)).unwrap();
    assert_eq!(m.status, Status::Reduced);
    m.begin_apply().unwrap();
    let apply_steps: [(u32, u64); 7] = [(1, 1), (1, 1), (0, 3), (2, 3), (1, 4), (0, 1), (0, 1)];
    let mut taken = vec![];
    for (sid, batch) in apply_steps {
        taken.push(m.advance_apply(sid, batch));
    }
    assert_eq!(taken[4], Ok(1), "capped at the shard's end");
    assert_eq!(taken[6], Err(Error::ShardComplete));
    m.try_finish_apply(&ids(3)).unwrap();
    assert_eq!(m.status, Status::Done);
    let covered: u64 = m.shards.iter().map(|s| s.apply_cursor).sum();
    assert_eq!(covered, 10);
    m.finalize().unwrap();
}
