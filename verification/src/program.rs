//! The reference on-chain settler. Each instruction handler validates its accounts,
//! reads and writes the fixed byte layouts, and delegates every transition decision to
//! the guards of [`crate::state`]. Handlers work on snapshots of the accounts
//! ([`Account`]): on success the snapshots hold the new account values; on failure
//! nothing changes.
pub mod error;
pub mod instructions;
pub mod layout;
pub mod security;

use crate::bytes::bytes_eq;
use crate::program::error::ProgramError;
use crate::program::instructions::{
    advance_apply, advance_reduce, advance_spec, begin_apply, begin_apply_spec, cancel, cancel_spec,
    enroll_checked, enroll_spec, finalize, finalize_spec, init_effect, init_effect_spec,
    init_shards_checked, init_shards_spec, promote_checked, promote_spec, refund_escrow,
    refund_escrow_spec, reset_checked, reset_spec, seal, seal_spec, skip_phase_checked, skip_spec,
    top_up_bounty, top_up_bounty_spec,
};
use vstd::prelude::*;
use vstd::slice::slice_subrange;

verus! {

/// A 32-byte account address.
pub type Pubkey = [u8; 32];

/// The program id (a fixed placeholder until a deploy key exists).
pub const ID: Pubkey = [
    7, 7, 7, 7, 7, 7, 7, 7, 7, 7, 7, 7, 7, 7, 7, 7, 7, 7, 7, 7, 7, 7, 7, 7, 7, 7, 7, 7, 7, 7, 7, 7,
];

/// Owner of every freshet account. The reference settler is its own consumer.
pub const CONSUMER_ID: Pubkey = ID;

/// A snapshot of one account passed to an instruction.
pub struct Account {
    pub key: Pubkey,
    pub owner: Pubkey,
    pub is_signer: bool,
    pub is_writable: bool,
    pub lamports: u64,
    pub data: Vec<u8>,
}

/// The value of an [`Account`], with its data as a sequence.
pub struct AccountV {
    pub key: Pubkey,
    pub owner: Pubkey,
    pub is_signer: bool,
    pub is_writable: bool,
    pub lamports: u64,
    pub data: Seq<u8>,
}

impl View for Account {
    type V = AccountV;

    open spec fn view(&self) -> AccountV {
        AccountV {
            key: self.key,
            owner: self.owner,
            is_signer: self.is_signer,
            is_writable: self.is_writable,
            lamports: self.lamports,
            data: self.data@,
        }
    }
}

/// The values of a list of accounts.
pub open spec fn accounts_view(a: Seq<Account>) -> Seq<AccountV> {
    a.map_values(|x: Account| x@)
}

/// Whether two addresses are equal.
pub fn key_eq(a: &Pubkey, b: &Pubkey) -> (r: bool)
    ensures
        r == (a@ == b@),
{
    bytes_eq(a, b)
}

/// 1-byte instruction tag (distinct from the 8-byte account discriminator).
#[derive(Clone, Copy, PartialEq, Eq, Debug, Structural)]
pub enum Ix {
    InitEffect,
    InitShards,
    Enroll,
    Seal,
    AdvanceReduce,
    ReduceShards,
    BeginApply,
    AdvanceApply,
    TryFinishApply,
    Finalize,
    RefundEscrow,
    TopUpBounty,
    Skip,
    SkipReduce,
    Cancel,
    Reset,
}

/// The tag byte of an instruction (its declaration position).
pub open spec fn ix_code(ix: Ix) -> u8 {
    match ix {
        Ix::InitEffect => 0,
        Ix::InitShards => 1,
        Ix::Enroll => 2,
        Ix::Seal => 3,
        Ix::AdvanceReduce => 4,
        Ix::ReduceShards => 5,
        Ix::BeginApply => 6,
        Ix::AdvanceApply => 7,
        Ix::TryFinishApply => 8,
        Ix::Finalize => 9,
        Ix::RefundEscrow => 10,
        Ix::TopUpBounty => 11,
        Ix::Skip => 12,
        Ix::SkipReduce => 13,
        Ix::Cancel => 14,
        Ix::Reset => 15,
    }
}

impl Ix {
    /// Checked decode of the tag byte; tags `>= 16` are `InvalidInstructionData`.
    pub fn try_from(v: u8) -> (r: Result<Ix, ProgramError>)
        ensures
            match r {
                Ok(ix) => v < 16 && ix_code(ix) == v,
                Err(e) => v >= 16 && e == ProgramError::InvalidInstructionData,
            },
    {
        match v {
            0 => Ok(Ix::InitEffect),
            1 => Ok(Ix::InitShards),
            2 => Ok(Ix::Enroll),
            3 => Ok(Ix::Seal),
            4 => Ok(Ix::AdvanceReduce),
            5 => Ok(Ix::ReduceShards),
            6 => Ok(Ix::BeginApply),
            7 => Ok(Ix::AdvanceApply),
            8 => Ok(Ix::TryFinishApply),
            9 => Ok(Ix::Finalize),
            10 => Ok(Ix::RefundEscrow),
            11 => Ok(Ix::TopUpBounty),
            12 => Ok(Ix::Skip),
            13 => Ok(Ix::SkipReduce),
            14 => Ok(Ix::Cancel),
            15 => Ok(Ix::Reset),
            _ => Err(ProgramError::InvalidInstructionData),
        }
    }
}

/// The tag byte decodes back to the instruction it encodes.
pub proof fn lemma_ix_code_roundtrip(a: Ix, b: Ix)
    ensures
        ix_code(a) < 16,
        ix_code(a) == ix_code(b) ==> a == b,
{
}

/// The outcome of one instruction: the first byte selects the handler, the rest is its
/// data. `None` where the selected handler is undefined (see its `*_spec`).
pub open spec fn process_spec(accs: Seq<AccountV>, ix: Seq<u8>, floor: u64) -> Option<Result<Seq<AccountV>, ProgramError>> {
    if ix.len() == 0 {
        Some(Err(ProgramError::InvalidInstructionData))
    } else {
        let tag = ix[0];
        let data = ix.subrange(1, ix.len() as int);
        if tag == 0 {
            Some(init_effect_spec(accs, data))
        } else if tag == 1 {
            init_shards_spec(accs, data)
        } else if tag == 2 {
            enroll_spec(accs, data)
        } else if tag == 3 {
            Some(seal_spec(accs))
        } else if tag == 4 {
            Some(advance_spec(accs, data, floor, true))
        } else if tag == 5 {
            promote_spec(accs, true)
        } else if tag == 6 {
            Some(begin_apply_spec(accs))
        } else if tag == 7 {
            Some(advance_spec(accs, data, floor, false))
        } else if tag == 8 {
            promote_spec(accs, false)
        } else if tag == 9 {
            Some(finalize_spec(accs))
        } else if tag == 10 {
            Some(refund_escrow_spec(accs, floor))
        } else if tag == 11 {
            Some(top_up_bounty_spec(accs, data))
        } else if tag == 12 {
            skip_spec(accs, false)
        } else if tag == 13 {
            skip_spec(accs, true)
        } else if tag == 14 {
            Some(cancel_spec(accs))
        } else if tag == 15 {
            reset_spec(accs)
        } else {
            Some(Err(ProgramError::InvalidInstructionData))
        }
    }
}

/// The program's entry: splits off the tag byte, decodes it and runs the handler on the
/// account snapshots, with the escrow's rent `floor` for the handlers that pay out.
/// `None` where the handler would overflow a counter or divide by a zero shard count:
/// there the transaction aborts.
#[verifier::spinoff_prover]
#[verifier::rlimit(40)]
pub fn process_instruction(accounts: &mut Vec<Account>, instruction_data: &[u8], floor: u64) -> (r: Option<
    Result<(), ProgramError>,
>)
    ensures
        match process_spec(accounts_view(old(accounts)@), instruction_data@, floor) {
            Some(Ok(new)) => r matches Some(Ok(_)) && accounts_view(final(accounts)@) == new,
            Some(Err(e)) => r == Some(Err::<(), ProgramError>(e)) && final(accounts)@ == old(accounts)@,
            None => r is None && final(accounts)@ == old(accounts)@,
        },
{
    if instruction_data.len() == 0 {
        return Some(Err(ProgramError::InvalidInstructionData));
    }
    let tag = instruction_data[0];
    let data = slice_subrange(instruction_data, 1, instruction_data.len());
    assert(data@ =~= instruction_data@.subrange(1, instruction_data@.len() as int));
    let ix = match Ix::try_from(tag) {
        Ok(ix) => ix,
        Err(e) => return Some(Err(e)),
    };
    match ix {
        Ix::InitEffect => Some(init_effect(accounts, data)),
        Ix::InitShards => init_shards_checked(accounts, data),
        Ix::Enroll => enroll_checked(accounts, data),
        Ix::Seal => Some(seal(accounts)),
        Ix::AdvanceReduce => Some(advance_reduce(accounts, data, floor)),
        Ix::ReduceShards => promote_checked(accounts, true),
        Ix::BeginApply => Some(begin_apply(accounts)),
        Ix::AdvanceApply => Some(advance_apply(accounts, data, floor)),
        Ix::TryFinishApply => promote_checked(accounts, false),
        Ix::Finalize => Some(finalize(accounts)),
        Ix::RefundEscrow => Some(refund_escrow(accounts, floor)),
        Ix::TopUpBounty => Some(top_up_bounty(accounts, data)),
        Ix::Skip => skip_phase_checked(accounts, false),
        Ix::SkipReduce => skip_phase_checked(accounts, true),
        Ix::Cancel => Some(cancel(accounts)),
        Ix::Reset => reset_checked(accounts),
    }
}

} // verus!
