//! The freshet state machine: the pure transition guards, and an executable `Machine`
//! that drives them. Every guard is the single source of the engine's control flow:
//! on-chain handlers and the `Machine` both call them.
pub use crate::machine::{Machine, MachineView, ShardState};
use vstd::prelude::*;

verus! {

/// Phase of an effect. Its on-chain byte is the declaration position (`Pending` = 0 ..
/// `Cancelled` = 5).
#[derive(Clone, Copy, PartialEq, Eq, Debug, Structural)]
pub enum Status {
    Pending,
    Reducing,
    Reduced,
    Applying,
    Done,
    Cancelled,
}

/// Failures of the state machine's guards.
#[derive(Clone, Copy, PartialEq, Eq, Debug, Structural)]
pub enum Error {
    WrongPhase,
    NotShardable,
    PullPushExclusive,
    PullNoReset,
    EpochUninit,
    ShardsIncomplete,
    NotSealed,
    BadShardCount,
    ShardComplete,
    ShardIdOutOfRange,
    MergeOrder,
    ShardNotComplete,
    AlreadyFinalized,
    BadStatus,
}

/// The on-chain byte of a status.
pub open spec fn status_code(s: Status) -> u8 {
    match s {
        Status::Pending => 0,
        Status::Reducing => 1,
        Status::Reduced => 2,
        Status::Applying => 3,
        Status::Done => 4,
        Status::Cancelled => 5,
    }
}

/// The status a byte decodes to; bytes `>= 6` are corruption.
pub open spec fn status_of_code(v: u8) -> Result<Status, Error> {
    if v == 0 {
        Ok(Status::Pending)
    } else if v == 1 {
        Ok(Status::Reducing)
    } else if v == 2 {
        Ok(Status::Reduced)
    } else if v == 3 {
        Ok(Status::Applying)
    } else if v == 4 {
        Ok(Status::Done)
    } else if v == 5 {
        Ok(Status::Cancelled)
    } else {
        Err(Error::BadStatus)
    }
}

impl Status {
    /// The on-chain byte of this status.
    pub fn to_u8(self) -> (r: u8)
        ensures
            r == status_code(self),
    {
        match self {
            Status::Pending => 0,
            Status::Reducing => 1,
            Status::Reduced => 2,
            Status::Applying => 3,
            Status::Done => 4,
            Status::Cancelled => 5,
        }
    }

    /// Checked decode of the on-chain status byte: a byte `>= 6` is `BadStatus`.
    pub fn try_from(v: u8) -> (r: Result<Status, Error>)
        ensures
            r == status_of_code(v),
    {
        match v {
            0 => Ok(Status::Pending),
            1 => Ok(Status::Reducing),
            2 => Ok(Status::Reduced),
            3 => Ok(Status::Applying),
            4 => Ok(Status::Done),
            5 => Ok(Status::Cancelled),
            _ => Err(Error::BadStatus),
        }
    }
}

/// The status byte round-trips, and exactly the bytes `0..=5` decode.
pub proof fn lemma_status_code_roundtrip(s: Status, v: u8)
    ensures
        status_of_code(status_code(s)) == Ok::<Status, Error>(s),
        status_of_code(v) is Ok <==> v < 6,
        status_of_code(v) matches Ok(t) ==> status_code(t) == v,
{
}

/// `min(a, b)`.
pub open spec fn min_u64(a: u64, b: u64) -> u64 {
    if a <= b { a } else { b }
}

/// `advance_reduce` / `advance_apply` guard: from the cursor (after the lazy reset), the
/// shard length and the batch size, how many members this crank processes.
pub fn advance_step(cursor: u64, len: u64, batch: u64) -> (r: Result<u64, Error>)
    ensures
        r == (if cursor >= len {
            Err(Error::ShardComplete)
        } else {
            Ok::<u64, Error>(min_u64(batch, (len - cursor) as u64))
        }),
{
    if cursor >= len {
        return Err(Error::ShardComplete);
    }
    let rest = len - cursor;
    Ok(if batch <= rest { batch } else { rest })
}

/// `skip` / `skip_reduce` guard: the cursor must have room for one more member.
pub fn skip_step(cursor: u64, len: u64) -> (r: Result<(), Error>)
    ensures
        r == (if cursor >= len {
            Err(Error::ShardComplete)
        } else {
            Ok::<(), Error>(())
        }),
{
    if cursor >= len {
        return Err(Error::ShardComplete);
    }
    Ok(())
}

/// The verdict of the promotion guards: the next shard in ascending order, fully
/// processed in the current epoch.
pub open spec fn promotion_verdict(
    next_id: u32,
    shard_id: u32,
    shard_epoch: u64,
    effect_epoch: u64,
    cursor: u64,
    len: u64,
) -> Result<(), Error> {
    if shard_id != next_id {
        Err(Error::MergeOrder)
    } else if shard_epoch != effect_epoch || cursor != len {
        Err(Error::ShardNotComplete)
    } else {
        Ok(())
    }
}

/// `reduce_shards` per-shard guard: may this shard be merged now?
pub fn reduce_step(
    merge_cursor: u32,
    shard_id: u32,
    shard_epoch: u64,
    effect_epoch: u64,
    reduce_cursor: u64,
    len: u64,
) -> (r: Result<(), Error>)
    ensures
        r == promotion_verdict(merge_cursor, shard_id, shard_epoch, effect_epoch, reduce_cursor, len),
{
    if shard_id != merge_cursor {
        return Err(Error::MergeOrder);
    }
    if shard_epoch != effect_epoch || reduce_cursor != len {
        return Err(Error::ShardNotComplete);
    }
    Ok(())
}

/// `try_finish_apply` per-shard guard: may this shard be counted done now?
pub fn apply_finish_step(
    shards_done: u32,
    shard_id: u32,
    shard_epoch: u64,
    effect_epoch: u64,
    apply_cursor: u64,
    len: u64,
) -> (r: Result<(), Error>)
    ensures
        r == promotion_verdict(shards_done, shard_id, shard_epoch, effect_epoch, apply_cursor, len),
{
    if shard_id != shards_done {
        return Err(Error::MergeOrder);
    }
    if shard_epoch != effect_epoch || apply_cursor != len {
        return Err(Error::ShardNotComplete);
    }
    Ok(())
}

} // verus!
