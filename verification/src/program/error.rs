//! Stable error codes. Core state-machine errors map through [`map`]; the I/O-layer
//! codes are used directly by the account checks.
use crate::state::Error as CoreErr;
use vstd::prelude::*;

verus! {

/// The failures an instruction reports to the runtime.
#[derive(Clone, Copy, PartialEq, Eq, Debug, Structural)]
pub enum ProgramError {
    /// A stable freshet code (see the `E_*` constants).
    Custom(u32),
    InvalidInstructionData,
    NotEnoughAccountKeys,
    InvalidAccountData,
    ArithmeticOverflow,
    /// The same account was borrowed twice in conflicting ways.
    AccountBorrowFailed,
}

// Core state-machine codes (produced via `map`).
pub const E_WRONG_PHASE: u32 = 0;
pub const E_SHARD_COMPLETE: u32 = 1;
pub const E_SHARD_NOT_COMPLETE: u32 = 2;
pub const E_ALREADY_FINALIZED: u32 = 4;
/// Also `BadShardCount`: only `NotShardable` has a code of its own.
pub const E_NOT_SHARDABLE: u32 = 13;
pub const E_MERGE_ORDER: u32 = 16;
pub const E_PULL_NO_RESET: u32 = 17;
pub const E_SHARD_ID_OUT_OF_RANGE: u32 = 18;
pub const E_PULL_PUSH_EXCLUSIVE: u32 = 20;
pub const E_EPOCH_UNINIT: u32 = 21;
pub const E_SHARDS_INCOMPLETE: u32 = 22;
pub const E_NOT_SEALED: u32 = 23;
pub const E_BAD_STATUS: u32 = 25;

// I/O-layer codes (used directly by the account checks).
pub const E_EPOCH_MISMATCH: u32 = 3;
pub const E_INDEX_MISMATCH: u32 = 5;
pub const E_BAD_DISCRIMINATOR: u32 = 6;
pub const E_BAD_OWNER: u32 = 7;
pub const E_BAD_BUMP: u32 = 8;
pub const E_SENTINEL_EXPECTED: u32 = 9;
pub const E_SLOT_OCCUPIED: u32 = 10;
pub const E_UNAUTHORIZED: u32 = 11;
pub const E_BOUNTY_UNDERFUNDED: u32 = 12;
pub const E_APPLY_FAILED: u32 = 14;
pub const E_BAD_VERSION: u32 = 15;
pub const E_ACC_EXTERNAL_DEFERRED: u32 = 19;
pub const E_ACCOUNT_DATA_TOO_SMALL: u32 = 24;

/// The stable code of a core state-machine error.
pub open spec fn core_code(e: CoreErr) -> u32 {
    match e {
        CoreErr::WrongPhase => E_WRONG_PHASE,
        CoreErr::ShardComplete => E_SHARD_COMPLETE,
        CoreErr::ShardNotComplete => E_SHARD_NOT_COMPLETE,
        CoreErr::AlreadyFinalized => E_ALREADY_FINALIZED,
        CoreErr::BadShardCount => E_NOT_SHARDABLE,
        CoreErr::NotShardable => E_NOT_SHARDABLE,
        CoreErr::MergeOrder => E_MERGE_ORDER,
        CoreErr::PullNoReset => E_PULL_NO_RESET,
        CoreErr::ShardIdOutOfRange => E_SHARD_ID_OUT_OF_RANGE,
        CoreErr::PullPushExclusive => E_PULL_PUSH_EXCLUSIVE,
        CoreErr::EpochUninit => E_EPOCH_UNINIT,
        CoreErr::ShardsIncomplete => E_SHARDS_INCOMPLETE,
        CoreErr::NotSealed => E_NOT_SEALED,
        CoreErr::BadStatus => E_BAD_STATUS,
    }
}

/// Maps a core state-machine error to its stable custom code.
pub fn map(e: CoreErr) -> (r: ProgramError)
    ensures
        r == ProgramError::Custom(core_code(e)),
{
    let code = match e {
        CoreErr::WrongPhase => E_WRONG_PHASE,
        CoreErr::ShardComplete => E_SHARD_COMPLETE,
        CoreErr::ShardNotComplete => E_SHARD_NOT_COMPLETE,
        CoreErr::AlreadyFinalized => E_ALREADY_FINALIZED,
        CoreErr::BadShardCount | CoreErr::NotShardable => E_NOT_SHARDABLE,
        CoreErr::MergeOrder => E_MERGE_ORDER,
        CoreErr::PullNoReset => E_PULL_NO_RESET,
        CoreErr::ShardIdOutOfRange => E_SHARD_ID_OUT_OF_RANGE,
        CoreErr::PullPushExclusive => E_PULL_PUSH_EXCLUSIVE,
        CoreErr::EpochUninit => E_EPOCH_UNINIT,
        CoreErr::ShardsIncomplete => E_SHARDS_INCOMPLETE,
        CoreErr::NotSealed => E_NOT_SEALED,
        CoreErr::BadStatus => E_BAD_STATUS,
    };
    ProgramError::Custom(code)
}

/// A stable freshet code as a program error.
pub fn custom(code: u32) -> (r: ProgramError)
    ensures
        r == ProgramError::Custom(code),
{
    ProgramError::Custom(code)
}

} // verus!
