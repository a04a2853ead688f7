//! Instruction handlers. Each validates its accounts, reads and writes the byte
//! layouts, and delegates every transition decision to the guards of
//! [`crate::state`]. Every handler is specified by a function `*_spec` from the account
//! values (and instruction data) to the outcome: the new account values or the error.
//! Every program-derived address is checked where the handler first relies on it. On
//! error no account changes.
//!
//! The demo consumer: each member body is a little-endian `u64` at
//! [`MEMBER_BODY_OFFSET`]; APPLY credits it by `params[0..8]` (saturating), REDUCE sums
//! the bodies.
use crate::bytes::{
    bytes_eq, lemma_get_u64_frame, window, lemma_put_u32, lemma_put_u64, zero_window, get_u32, get_u64, put, put_u32, put_u64, put_u8, read_u32, read_u64, write_bytes,
    write_u32, write_u64,
};
use crate::machine::{MachineView, ShardState};
use crate::monoid::zeros;
use crate::partition::{
    len_of, lemma_partition_bounds, lemma_partition_len_bounds, lemma_partition_ordered,
    partition_len, partition_start, partition_start_checked, start_of,
};
use crate::state::{advance_step, apply_finish_step, min_u64, promotion_verdict, reduce_step, skip_step};
use crate::monoid::{sat_add, Monoid, Sum};
use crate::program::error::{core_code, ProgramError};
use crate::program::error::{
    custom, E_BAD_BUMP, E_BAD_DISCRIMINATOR, E_INDEX_MISMATCH, E_SENTINEL_EXPECTED,
    E_ACC_EXTERNAL_DEFERRED, E_ACCOUNT_DATA_TOO_SMALL, E_BAD_OWNER, E_SLOT_OCCUPIED,
    E_UNAUTHORIZED,
};
use crate::program::layout::{
    effect_status, shard_lazy_reset, shard_lazy_reset_bytes, key_at, DISC_EFFECT, DISC_ESCROW, DISC_MEMBER, DISC_SHARD, EFFECT_ACC_GLOBAL,
    EFFECT_APPLY_SKIPPED, EFFECT_AUTHORITY, EFFECT_BUMP, EFFECT_EPOCH, EFFECT_FLAGS, EFFECT_LEN,
    EFFECT_MERGE_CURSOR, EFFECT_PARAMS, EFFECT_REDUCE_SKIPPED, EFFECT_SHARDS_CREATED,
    EFFECT_SHARDS_DONE, EFFECT_SHARD_COUNT, EFFECT_STATUS, EFFECT_TOTAL, EFFECT_VERSION,
    ESCROW_LEN, FLAG_ACC_EXTERNAL, FLAG_FINALIZED, FLAG_ORDER_INDEPENDENT, FLAG_PULL,
    FLAG_REQUIRES_REDUCE, MEMBER_LEN, SHARD_LEN, VERSION_EFFECT, VERSION_ESCROW, VERSION_MEMBER,
    VERSION_SHARD,
};
use crate::program::layout::{
    ESCROW_BOUNTY_PER, ESCROW_BUMP, ESCROW_EFFECT, ESCROW_LAST_REFUND_EPOCH, ESCROW_SHARD_ID,
    ESCROW_VERSION, MEMBER_BODY_OFFSET, MEMBER_BUMP, MEMBER_EFFECT, MEMBER_INDEX, MEMBER_LAST_APPLY_EPOCH,
    MEMBER_LAST_REDUCE_EPOCH, MEMBER_VERSION, SHARD_ACC_PARTIAL, SHARD_APPLY_CURSOR, SHARD_BUMP,
    SHARD_EFFECT, SHARD_EPOCH, SHARD_ID, SHARD_REDUCE_CURSOR, SHARD_VERSION,
};
use crate::program::security::{
    pay_amount, pay_verdict, authorize, authorize_verdict, check_header, check_pda, escrow_pda, escrow_pda_check, header_verdict,
    member_pda, member_pda_check, pda_verdict, shard_pda, shard_pda_check, transfer_lamports,
    transfer_verdict,
};
use crate::program::{accounts_view, key_eq, Account, AccountV, Pubkey, CONSUMER_ID};
use crate::state::{lemma_status_code_roundtrip, status_code, status_of_code, Error as CoreErr, Status};
use vstd::bytes::{
    lemma_auto_spec_u64_to_from_le_bytes, spec_u64_from_le_bytes, spec_u64_to_le_bytes_open,
    spec_u64_to_le_bytes_to_open,
};
use vstd::math::min;
use vstd::prelude::*;
use vstd::pervasive::unreached;
use vstd::slice::slice_to_vec;

verus! {

/// `a` with its data replaced.
pub open spec fn with_data(a: AccountV, d: Seq<u8>) -> AccountV {
    AccountV { data: d, ..a }
}

/// `a` with its lamports replaced.
pub open spec fn with_lamports(a: AccountV, l: u64) -> AccountV {
    AccountV { lamports: l, ..a }
}

/// The error a core guard failure reports.
pub open spec fn core_err(e: CoreErr) -> ProgramError {
    ProgramError::Custom(core_code(e))
}

/// The checked status of an effect's data, as a program error on corruption.
pub open spec fn effect_status_of(d: Seq<u8>) -> Result<Status, ProgramError> {
    match status_of_code(d[EFFECT_STATUS as int]) {
        Ok(s) => Ok(s),
        Err(e) => Err(core_err(e)),
    }
}

/// The effect's stored authority.
pub open spec fn effect_authority(d: Seq<u8>) -> Seq<u8> {
    d.subrange(EFFECT_AUTHORITY as int, EFFECT_AUTHORITY + 32)
}

/// The phase a sealed or reset effect enters: REDUCE if it requires one, else APPLY.
pub open spec fn work_phase_of(flags: u8) -> Status {
    if flags & FLAG_REQUIRES_REDUCE != 0 {
        Status::Reducing
    } else {
        Status::Applying
    }
}

pub(crate) fn copy_data(a: &Account) -> (r: Vec<u8>)
    ensures
        r@ == a.data@,
{
    slice_to_vec(a.data.as_slice())
}

pub(crate) fn set_data(accounts: &mut Vec<Account>, i: usize, d: Vec<u8>)
    requires
        i < old(accounts)@.len(),
    ensures
        final(accounts)@.len() == old(accounts)@.len(),
        accounts_view(final(accounts)@) == accounts_view(old(accounts)@).update(
            i as int,
            with_data(accounts_view(old(accounts)@)[i as int], d@),
        ),
{
    let a = &accounts[i];
    let n = Account {
        key: a.key,
        owner: a.owner,
        is_signer: a.is_signer,
        is_writable: a.is_writable,
        lamports: a.lamports,
        data: d,
    };
    accounts.set(i, n);
    assert(accounts_view(accounts@) =~= accounts_view(old(accounts)@).update(
        i as int,
        with_data(accounts_view(old(accounts)@)[i as int], d@),
    ));
}

fn set_lamports(accounts: &mut Vec<Account>, i: usize, l: u64)
    requires
        i < old(accounts)@.len(),
    ensures
        final(accounts)@.len() == old(accounts)@.len(),
        accounts_view(final(accounts)@) == accounts_view(old(accounts)@).update(
            i as int,
            with_lamports(accounts_view(old(accounts)@)[i as int], l),
        ),
{
    let d = copy_data(&accounts[i]);
    let a = &accounts[i];
    let n = Account {
        key: a.key,
        owner: a.owner,
        is_signer: a.is_signer,
        is_writable: a.is_writable,
        lamports: l,
        data: d,
    };
    accounts.set(i, n);
    assert(accounts_view(accounts@) =~= accounts_view(old(accounts)@).update(
        i as int,
        with_lamports(accounts_view(old(accounts)@)[i as int], l),
    ));
}

fn effect_status_checked(d: &[u8]) -> (r: Result<Status, ProgramError>)
    requires
        d@.len() > EFFECT_STATUS,
    ensures
        r == effect_status_of(d@),
{
    match effect_status(d) {
        Ok(s) => Ok(s),
        Err(e) => Err(crate::program::error::map(e)),
    }
}

/// The header check of an effect account.
pub open spec fn effect_header(e: AccountV) -> Result<(), ProgramError> {
    header_verdict(e, CONSUMER_ID, DISC_EFFECT@, VERSION_EFFECT, EFFECT_LEN as int)
}

/// The header check of a shard account.
pub open spec fn shard_header(s: AccountV) -> Result<(), ProgramError> {
    header_verdict(s, CONSUMER_ID, DISC_SHARD@, VERSION_SHARD, SHARD_LEN as int)
}

/// The header check of an escrow account.
pub open spec fn escrow_header(x: AccountV) -> Result<(), ProgramError> {
    header_verdict(x, CONSUMER_ID, DISC_ESCROW@, VERSION_ESCROW, ESCROW_LEN as int)
}

/// The checks every authority-gated effect handler runs first: the effect's header,
/// then the authority (account `auth`).
pub open spec fn gated_effect(accs: Seq<AccountV>, auth: int) -> Result<(), ProgramError> {
    if effect_header(accs[0]) is Err {
        effect_header(accs[0])
    } else {
        authorize_verdict(accs[auth], effect_authority(accs[0].data))
    }
}

fn check_gated(accounts: &Vec<Account>, auth: usize) -> (r: Result<(), ProgramError>)
    requires
        0 < auth < accounts@.len(),
    ensures
        r == gated_effect(accounts_view(accounts@), auth as int),
{
    let e = &accounts[0];
    match check_header(e, &CONSUMER_ID, &DISC_EFFECT, VERSION_EFFECT, EFFECT_LEN) {
        Ok(()) => {},
        Err(x) => return Err(x),
    }
    authorize(&accounts[auth], &e.data.as_slice()[EFFECT_AUTHORITY..EFFECT_AUTHORITY + 32])
}

/// The outcome of `seal`.
pub open spec fn seal_spec(accs: Seq<AccountV>) -> Result<Seq<AccountV>, ProgramError> {
    if accs.len() < 2 {
        Err(ProgramError::NotEnoughAccountKeys)
    } else {
        let e = accs[0];
        let d = e.data;
        if header_verdict(e, CONSUMER_ID, DISC_EFFECT@, VERSION_EFFECT, EFFECT_LEN as int) is Err {
            Err(header_verdict(e, CONSUMER_ID, DISC_EFFECT@, VERSION_EFFECT, EFFECT_LEN as int)->Err_0)
        } else if authorize_verdict(accs[1], effect_authority(d)) is Err {
            Err(authorize_verdict(accs[1], effect_authority(d))->Err_0)
        } else if effect_status_of(d) is Err {
            Err(effect_status_of(d)->Err_0)
        } else if effect_status_of(d)->Ok_0 != Status::Pending {
            Err(core_err(CoreErr::WrongPhase))
        } else if d[EFFECT_FLAGS as int] & FLAG_PULL != 0 {
            Err(core_err(CoreErr::PullPushExclusive))
        } else if get_u64(d, EFFECT_EPOCH as int) < 1 {
            Err(core_err(CoreErr::EpochUninit))
        } else if !(1 <= get_u32(d, EFFECT_SHARD_COUNT as int) && get_u32(d, EFFECT_SHARD_COUNT as int)
            <= get_u64(d, EFFECT_TOTAL as int)) {
            Err(core_err(CoreErr::BadShardCount))
        } else if get_u32(d, EFFECT_SHARDS_CREATED as int) != get_u32(d, EFFECT_SHARD_COUNT as int) {
            Err(core_err(CoreErr::ShardsIncomplete))
        } else {
            let next = work_phase_of(d[EFFECT_FLAGS as int]);
            Ok(
                accs.update(
                    0,
                    with_data(
                        e,
                        put_u8(put_u32(d, EFFECT_SHARDS_DONE as int, 0), EFFECT_STATUS as int, status_code(next)),
                    ),
                ),
            )
        }
    }
}

/// seal: freezes `total` and moves `Pending` to the first work phase.
/// Accounts: `[effect (w), authority (signer)]`.
pub fn seal(accounts: &mut Vec<Account>) -> (r: Result<(), ProgramError>)
    ensures
        match seal_spec(accounts_view(old(accounts)@)) {
            Ok(new) => r is Ok && accounts_view(final(accounts)@) == new,
            Err(e) => r == Err::<(), ProgramError>(e) && final(accounts)@ == old(accounts)@,
        },
{
    if accounts.len() < 2 {
        return Err(ProgramError::NotEnoughAccountKeys);
    }
    let e = &accounts[0];
    match check_header(e, &CONSUMER_ID, &DISC_EFFECT, VERSION_EFFECT, EFFECT_LEN) {
        Ok(()) => {},
        Err(x) => return Err(x),
    }
    let d = e.data.as_slice();
    match authorize(&accounts[1], &d[EFFECT_AUTHORITY..EFFECT_AUTHORITY + 32]) {
        Ok(()) => {},
        Err(x) => return Err(x),
    }
    let st = match effect_status_checked(d) {
        Ok(s) => s,
        Err(x) => return Err(x),
    };
    if st != Status::Pending {
        return Err(crate::program::error::map(CoreErr::WrongPhase));
    }
    let flags = d[EFFECT_FLAGS];
    if flags & FLAG_PULL != 0 {
        return Err(crate::program::error::map(CoreErr::PullPushExclusive));
    }
    if read_u64(d, EFFECT_EPOCH) < 1 {
        return Err(crate::program::error::map(CoreErr::EpochUninit));
    }
    let p = read_u32(d, EFFECT_SHARD_COUNT);
    if !(p >= 1 && p as u64 <= read_u64(d, EFFECT_TOTAL)) {
        return Err(crate::program::error::map(CoreErr::BadShardCount));
    }
    if read_u32(d, EFFECT_SHARDS_CREATED) != p {
        return Err(crate::program::error::map(CoreErr::ShardsIncomplete));
    }
    let next = if flags & FLAG_REQUIRES_REDUCE != 0 {
        Status::Reducing
    } else {
        Status::Applying
    };
    let mut nd = copy_data(e);
    write_u32(&mut nd, EFFECT_SHARDS_DONE, 0);
    nd.set(EFFECT_STATUS, next.to_u8());
    set_data(accounts, 0, nd);
    Ok(())
}

/// The bytes `init_effect` writes into a fresh effect: discriminator, version, bump,
/// flags, status `Pending`, epoch 1 (0 is the never-applied sentinel), identity
/// accumulator, shard count, zeroed counters, params and authority.
pub open spec fn init_effect_bytes(
    d: Seq<u8>,
    bump: u8,
    flags: u8,
    shard_count: u32,
    params: Seq<u8>,
    authority: Seq<u8>,
) -> Seq<u8> {
    let d1 = put_u8(put_u8(put_u8(put(d, 0, DISC_EFFECT@), EFFECT_VERSION as int, VERSION_EFFECT), EFFECT_BUMP as int, bump), EFFECT_FLAGS as int, flags);
    let d2 = put(put_u64(put_u8(d1, EFFECT_STATUS as int, 0), EFFECT_EPOCH as int, 1), EFFECT_ACC_GLOBAL as int, zeros(64));
    let d3 = put_u32(put_u32(put_u64(put_u32(d2, EFFECT_SHARD_COUNT as int, shard_count), EFFECT_TOTAL as int, 0), EFFECT_SHARDS_DONE as int, 0), EFFECT_MERGE_CURSOR as int, 0);
    let d4 = put_u32(put_u64(put_u64(d3, EFFECT_REDUCE_SKIPPED as int, 0), EFFECT_APPLY_SKIPPED as int, 0), EFFECT_SHARDS_CREATED as int, 0);
    put(put(d4, EFFECT_PARAMS as int, params), EFFECT_AUTHORITY as int, authority)
}

/// The outcome of `init_effect`.
pub open spec fn init_effect_spec(accs: Seq<AccountV>, data: Seq<u8>) -> Result<Seq<AccountV>, ProgramError> {
    if accs.len() < 2 {
        Err(ProgramError::NotEnoughAccountKeys)
    } else if data.len() < 134 {
        Err(ProgramError::InvalidInstructionData)
    } else {
        let e = accs[0];
        let flags = data[1];
        let sc = get_u32(data, 2);
        if flags & FLAG_ACC_EXTERNAL != 0 {
            Err(ProgramError::Custom(E_ACC_EXTERNAL_DEFERRED))
        } else if sc < 1 || (sc > 1 && flags & FLAG_ORDER_INDEPENDENT == 0) {
            Err(core_err(CoreErr::NotShardable))
        } else if !accs[1].is_signer {
            Err(ProgramError::Custom(E_UNAUTHORIZED))
        } else if e.data.len() < EFFECT_LEN {
            Err(ProgramError::Custom(E_ACCOUNT_DATA_TOO_SMALL))
        } else if e.data.subrange(0, 8) != zeros(8) {
            Err(ProgramError::Custom(E_SLOT_OCCUPIED))
        } else if e.owner@ != CONSUMER_ID@ {
            Err(ProgramError::Custom(E_BAD_OWNER))
        } else {
            Ok(accs.update(0, with_data(e, init_effect_bytes(e.data, data[0], flags, sc, data.subrange(6, 134), accs[1].key@))))
        }
    }
}

/// init_effect: creates an effect in `Pending`. Data: `[bump, flags, shard_count (u32),
/// params (128 bytes)]`. Accounts: `[effect (w, zeroed), authority (signer)]`.
#[verifier::spinoff_prover]
#[verifier::rlimit(40)]
pub fn init_effect(accounts: &mut Vec<Account>, data: &[u8]) -> (r: Result<(), ProgramError>)
    ensures
        match init_effect_spec(accounts_view(old(accounts)@), data@) {
            Ok(new) => r is Ok && accounts_view(final(accounts)@) == new,
            Err(e) => r == Err::<(), ProgramError>(e) && final(accounts)@ == old(accounts)@,
        },
{
    if accounts.len() < 2 {
        return Err(ProgramError::NotEnoughAccountKeys);
    }
    if data.len() < 1 + 1 + 4 + 128 {
        return Err(ProgramError::InvalidInstructionData);
    }
    let bump = data[0];
    let flags = data[1];
    let shard_count = read_u32(data, 2);
    if flags & FLAG_ACC_EXTERNAL != 0 {
        return Err(custom(E_ACC_EXTERNAL_DEFERRED));
    }
    if shard_count < 1 || (shard_count > 1 && flags & FLAG_ORDER_INDEPENDENT == 0) {
        return Err(crate::program::error::map(CoreErr::NotShardable));
    }
    if !accounts[1].is_signer {
        return Err(custom(E_UNAUTHORIZED));
    }
    let e = &accounts[0];
    if e.data.len() < EFFECT_LEN {
        return Err(custom(E_ACCOUNT_DATA_TOO_SMALL));
    }
    let z = [0u8; 8];
    assert(z@ =~= zeros(8));
    if !bytes_eq(&e.data.as_slice()[0..8], &z) {
        return Err(custom(E_SLOT_OCCUPIED));
    }
    if !key_eq(&e.owner, &CONSUMER_ID) {
        return Err(custom(E_BAD_OWNER));
    }
    let authority = accounts[1].key;
    let mut nd = copy_data(e);
    write_bytes(&mut nd, 0, &DISC_EFFECT);
    nd.set(EFFECT_VERSION, VERSION_EFFECT);
    nd.set(EFFECT_BUMP, bump);
    nd.set(EFFECT_FLAGS, flags);
    nd.set(EFFECT_STATUS, Status::Pending.to_u8());
    write_u64(&mut nd, EFFECT_EPOCH, 1);
    let acc = zero_window();
    write_bytes(&mut nd, EFFECT_ACC_GLOBAL, &acc);
    write_u32(&mut nd, EFFECT_SHARD_COUNT, shard_count);
    write_u64(&mut nd, EFFECT_TOTAL, 0);
    write_u32(&mut nd, EFFECT_SHARDS_DONE, 0);
    write_u32(&mut nd, EFFECT_MERGE_CURSOR, 0);
    write_u64(&mut nd, EFFECT_REDUCE_SKIPPED, 0);
    write_u64(&mut nd, EFFECT_APPLY_SKIPPED, 0);
    write_u32(&mut nd, EFFECT_SHARDS_CREATED, 0);
    write_bytes(&mut nd, EFFECT_PARAMS, &data[6..134]);
    write_bytes(&mut nd, EFFECT_AUTHORITY, &authority);
    set_data(accounts, 0, nd);
    Ok(())
}

/// The outcome of `cancel`.
pub open spec fn cancel_spec(accs: Seq<AccountV>) -> Result<Seq<AccountV>, ProgramError> {
    if accs.len() < 2 {
        Err(ProgramError::NotEnoughAccountKeys)
    } else if gated_effect(accs, 1) is Err {
        Err(gated_effect(accs, 1)->Err_0)
    } else {
        let d = accs[0].data;
        match effect_status_of(d) {
            Err(x) => Err(x),
            Ok(st) => if st == Status::Done || st == Status::Cancelled {
                Err(core_err(CoreErr::WrongPhase))
            } else {
                Ok(accs.update(0, with_data(accs[0], put_u8(d, EFFECT_STATUS as int, status_code(Status::Cancelled)))))
            },
        }
    }
}

/// cancel: any non-terminal phase moves to `Cancelled`. Accounts:
/// `[effect (w), authority (signer)]`.
pub fn cancel(accounts: &mut Vec<Account>) -> (r: Result<(), ProgramError>)
    ensures
        match cancel_spec(accounts_view(old(accounts)@)) {
            Ok(new) => r is Ok && accounts_view(final(accounts)@) == new,
            Err(e) => r == Err::<(), ProgramError>(e) && final(accounts)@ == old(accounts)@,
        },
{
    if accounts.len() < 2 {
        return Err(ProgramError::NotEnoughAccountKeys);
    }
    match check_gated(accounts, 1) {
        Ok(()) => {},
        Err(x) => return Err(x),
    }
    let e = &accounts[0];
    let st = match effect_status_checked(e.data.as_slice()) {
        Ok(s) => s,
        Err(x) => return Err(x),
    };
    if st == Status::Done || st == Status::Cancelled {
        return Err(crate::program::error::map(CoreErr::WrongPhase));
    }
    let mut nd = copy_data(e);
    nd.set(EFFECT_STATUS, Status::Cancelled.to_u8());
    set_data(accounts, 0, nd);
    Ok(())
}

/// The outcome of `finalize`.
pub open spec fn finalize_spec(accs: Seq<AccountV>) -> Result<Seq<AccountV>, ProgramError> {
    if accs.len() < 1 {
        Err(ProgramError::NotEnoughAccountKeys)
    } else if effect_header(accs[0]) is Err {
        Err(effect_header(accs[0])->Err_0)
    } else {
        let d = accs[0].data;
        match effect_status_of(d) {
            Err(x) => Err(x),
            Ok(st) => if st != Status::Done {
                Err(core_err(CoreErr::WrongPhase))
            } else if d[EFFECT_FLAGS as int] & FLAG_FINALIZED != 0 {
                Err(core_err(CoreErr::AlreadyFinalized))
            } else {
                Ok(accs.update(0, with_data(accs[0], put_u8(d, EFFECT_FLAGS as int, d[EFFECT_FLAGS as int] | FLAG_FINALIZED))))
            },
        }
    }
}

/// finalize: marks a `Done` effect finalized, once. Accounts: `[effect (w)]`.
pub fn finalize(accounts: &mut Vec<Account>) -> (r: Result<(), ProgramError>)
    ensures
        match finalize_spec(accounts_view(old(accounts)@)) {
            Ok(new) => r is Ok && accounts_view(final(accounts)@) == new,
            Err(e) => r == Err::<(), ProgramError>(e) && final(accounts)@ == old(accounts)@,
        },
{
    if accounts.len() < 1 {
        return Err(ProgramError::NotEnoughAccountKeys);
    }
    let e = &accounts[0];
    match check_header(e, &CONSUMER_ID, &DISC_EFFECT, VERSION_EFFECT, EFFECT_LEN) {
        Ok(()) => {},
        Err(x) => return Err(x),
    }
    let st = match effect_status_checked(e.data.as_slice()) {
        Ok(s) => s,
        Err(x) => return Err(x),
    };
    if st != Status::Done {
        return Err(crate::program::error::map(CoreErr::WrongPhase));
    }
    let flags = e.data[EFFECT_FLAGS];
    if flags & FLAG_FINALIZED != 0 {
        return Err(crate::program::error::map(CoreErr::AlreadyFinalized));
    }
    let mut nd = copy_data(e);
    nd.set(EFFECT_FLAGS, flags | FLAG_FINALIZED);
    set_data(accounts, 0, nd);
    Ok(())
}

/// The outcome of `begin_apply`.
pub open spec fn begin_apply_spec(accs: Seq<AccountV>) -> Result<Seq<AccountV>, ProgramError> {
    if accs.len() < 1 {
        Err(ProgramError::NotEnoughAccountKeys)
    } else if effect_header(accs[0]) is Err {
        Err(effect_header(accs[0])->Err_0)
    } else {
        let d = accs[0].data;
        match effect_status_of(d) {
            Err(x) => Err(x),
            Ok(st) => if st != Status::Reduced {
                Err(core_err(CoreErr::WrongPhase))
            } else if d[EFFECT_FLAGS as int] & FLAG_PULL != 0 {
                Err(core_err(CoreErr::PullPushExclusive))
            } else {
                Ok(accs.update(0, with_data(accs[0], put_u8(put_u32(d, EFFECT_SHARDS_DONE as int, 0), EFFECT_STATUS as int, status_code(Status::Applying)))))
            },
        }
    }
}

/// begin_apply: `Reduced` moves to `Applying`, restarting the done-shard count.
/// Permissionless. Accounts: `[effect (w)]`.
pub fn begin_apply(accounts: &mut Vec<Account>) -> (r: Result<(), ProgramError>)
    ensures
        match begin_apply_spec(accounts_view(old(accounts)@)) {
            Ok(new) => r is Ok && accounts_view(final(accounts)@) == new,
            Err(e) => r == Err::<(), ProgramError>(e) && final(accounts)@ == old(accounts)@,
        },
{
    if accounts.len() < 1 {
        return Err(ProgramError::NotEnoughAccountKeys);
    }
    let e = &accounts[0];
    match check_header(e, &CONSUMER_ID, &DISC_EFFECT, VERSION_EFFECT, EFFECT_LEN) {
        Ok(()) => {},
        Err(x) => return Err(x),
    }
    let st = match effect_status_checked(e.data.as_slice()) {
        Ok(s) => s,
        Err(x) => return Err(x),
    };
    if st != Status::Reduced {
        return Err(crate::program::error::map(CoreErr::WrongPhase));
    }
    if e.data[EFFECT_FLAGS] & FLAG_PULL != 0 {
        return Err(crate::program::error::map(CoreErr::PullPushExclusive));
    }
    let mut nd = copy_data(e);
    write_u32(&mut nd, EFFECT_SHARDS_DONE, 0);
    nd.set(EFFECT_STATUS, Status::Applying.to_u8());
    set_data(accounts, 0, nd);
    Ok(())
}

/// The bytes `reset` writes: the epoch bumped, the counters, merge cursor, accumulator
/// and finalized flag cleared, and the pinned work phase.
pub open spec fn reset_bytes(d: Seq<u8>) -> Seq<u8> {
    let flags = d[EFFECT_FLAGS as int];
    let d1 = put_u32(put_u32(put_u64(d, EFFECT_EPOCH as int, (get_u64(d, EFFECT_EPOCH as int) + 1) as u64), EFFECT_SHARDS_DONE as int, 0), EFFECT_MERGE_CURSOR as int, 0);
    let d2 = put_u64(put_u64(put(d1, EFFECT_ACC_GLOBAL as int, zeros(64)), EFFECT_REDUCE_SKIPPED as int, 0), EFFECT_APPLY_SKIPPED as int, 0);
    put_u8(put_u8(d2, EFFECT_FLAGS as int, flags & !FLAG_FINALIZED), EFFECT_STATUS as int, status_code(work_phase_of(flags)))
}

/// The outcome of `reset`; `None` where the epoch counter would overflow.
pub open spec fn reset_spec(accs: Seq<AccountV>) -> Option<Result<Seq<AccountV>, ProgramError>> {
    if accs.len() < 2 {
        Some(Err(ProgramError::NotEnoughAccountKeys))
    } else if gated_effect(accs, 1) is Err {
        Some(Err(gated_effect(accs, 1)->Err_0))
    } else {
        let d = accs[0].data;
        let p = get_u32(d, EFFECT_SHARD_COUNT as int);
        match effect_status_of(d) {
            Err(x) => Some(Err(x)),
            Ok(st) => if st != Status::Done && st != Status::Cancelled {
                Some(Err(core_err(CoreErr::WrongPhase)))
            } else if d[EFFECT_FLAGS as int] & FLAG_PULL != 0 {
                Some(Err(core_err(CoreErr::PullNoReset)))
            } else if !(1 <= p && p <= get_u64(d, EFFECT_TOTAL as int)) || get_u32(d, EFFECT_SHARDS_CREATED as int) != p {
                Some(Err(core_err(CoreErr::NotSealed)))
            } else if get_u64(d, EFFECT_EPOCH as int) == u64::MAX {
                None
            } else {
                Some(Ok(accs.update(0, with_data(accs[0], reset_bytes(d)))))
            },
        }
    }
}

/// reset: re-runs a sealed effect from `Done` or `Cancelled` in a new epoch. Refused for
/// pull effects, and for an effect that was never sealable. Accounts:
/// `[effect (w), authority (signer)]`.
pub fn reset(accounts: &mut Vec<Account>) -> (r: Result<(), ProgramError>)
    requires
        reset_spec(accounts_view(old(accounts)@)) is Some,
    ensures
        match reset_spec(accounts_view(old(accounts)@)) {
            Some(Ok(new)) => r is Ok && accounts_view(final(accounts)@) == new,
            Some(Err(e)) => r == Err::<(), ProgramError>(e) && final(accounts)@ == old(accounts)@,
            None => false,
        },
{
    match reset_checked(accounts) {
        Some(r) => r,
        None => unreached(),
    }
}

/// `reset`, reporting `None` where the epoch counter would overflow.
pub(crate) fn reset_checked(accounts: &mut Vec<Account>) -> (r: Option<Result<(), ProgramError>>)
    ensures
        match reset_spec(accounts_view(old(accounts)@)) {
            Some(Ok(new)) => r == Some(Ok::<(), ProgramError>(())) && accounts_view(final(accounts)@) == new,
            Some(Err(e)) => r == Some(Err::<(), ProgramError>(e)) && final(accounts)@ == old(accounts)@,
            None => r is None && final(accounts)@ == old(accounts)@,
        },
{
    if accounts.len() < 2 {
        return Some(Err(ProgramError::NotEnoughAccountKeys));
    }
    match check_gated(accounts, 1) {
        Ok(()) => {},
        Err(x) => return Some(Err(x)),
    }
    let e = &accounts[0];
    let d = e.data.as_slice();
    let st = match effect_status_checked(d) {
        Ok(s) => s,
        Err(x) => return Some(Err(x)),
    };
    if st != Status::Done && st != Status::Cancelled {
        return Some(Err(crate::program::error::map(CoreErr::WrongPhase)));
    }
    let flags = d[EFFECT_FLAGS];
    if flags & FLAG_PULL != 0 {
        return Some(Err(crate::program::error::map(CoreErr::PullNoReset)));
    }
    let p = read_u32(d, EFFECT_SHARD_COUNT);
    if !(p >= 1 && p as u64 <= read_u64(d, EFFECT_TOTAL)) || read_u32(d, EFFECT_SHARDS_CREATED) != p {
        return Some(Err(crate::program::error::map(CoreErr::NotSealed)));
    }
    let epoch = read_u64(d, EFFECT_EPOCH);
    if epoch == u64::MAX {
        return None;
    }
    let mut nd = copy_data(e);
    write_u64(&mut nd, EFFECT_EPOCH, epoch + 1);
    write_u32(&mut nd, EFFECT_SHARDS_DONE, 0);
    write_u32(&mut nd, EFFECT_MERGE_CURSOR, 0);
    let acc = zero_window();
    write_bytes(&mut nd, EFFECT_ACC_GLOBAL, &acc);
    write_u64(&mut nd, EFFECT_REDUCE_SKIPPED, 0);
    write_u64(&mut nd, EFFECT_APPLY_SKIPPED, 0);
    nd.set(EFFECT_FLAGS, flags & !FLAG_FINALIZED);
    let next = if flags & FLAG_REQUIRES_REDUCE != 0 {
        Status::Reducing
    } else {
        Status::Applying
    };
    nd.set(EFFECT_STATUS, next.to_u8());
    set_data(accounts, 0, nd);
    Some(Ok(()))
}

/// The header `enroll` writes into a fresh member slot.
pub open spec fn member_header_bytes(d: Seq<u8>, bump: u8, effect: Seq<u8>, index: u64) -> Seq<
    u8,
> {
    let d1 = put_u8(put_u8(put(d, 0, DISC_MEMBER@), MEMBER_VERSION as int, VERSION_MEMBER), MEMBER_BUMP as int, bump);
    put_u64(put_u64(put_u64(put(d1, MEMBER_EFFECT as int, effect), MEMBER_INDEX as int, index), MEMBER_LAST_REDUCE_EPOCH as int, 0), MEMBER_LAST_APPLY_EPOCH as int, 0)
}

/// The outcome of `enroll`: the member slot at index `total` is stamped and `total`
/// grows by one; the member's address must derive from `(effect, total)`. `None` where `total` would
/// overflow.
pub open spec fn enroll_spec(accs: Seq<AccountV>, data: Seq<u8>) -> Option<Result<Seq<AccountV>, ProgramError>> {
    if accs.len() < 3 {
        Some(Err(ProgramError::NotEnoughAccountKeys))
    } else if data.len() == 0 {
        Some(Err(ProgramError::InvalidInstructionData))
    } else if gated_effect(accs, 2) is Err {
        Some(Err(gated_effect(accs, 2)->Err_0))
    } else {
        let e = accs[0];
        let m = accs[1];
        let index = get_u64(e.data, EFFECT_TOTAL as int);
        match effect_status_of(e.data) {
            Err(x) => Some(Err(x)),
            Ok(st) => if st != Status::Pending {
                Some(Err(core_err(CoreErr::WrongPhase)))
            } else if pda_verdict(member_pda(m.key, e.key, index, data[0])) is Err {
                Some(Err(ProgramError::Custom(E_BAD_BUMP)))
            } else if m.key@ == e.key@ {
                Some(Err(ProgramError::AccountBorrowFailed))
            } else if m.data.len() < MEMBER_LEN || m.owner@ != CONSUMER_ID@ {
                Some(Err(ProgramError::Custom(E_BAD_OWNER)))
            } else if m.data.subrange(0, 8) != zeros(8) {
                Some(Err(ProgramError::Custom(E_SLOT_OCCUPIED)))
            } else if index == u64::MAX {
                None
            } else {
                Some(Ok(
                    accs.update(1, with_data(m, member_header_bytes(m.data, data[0], e.key@, index))).update(
                        0,
                        with_data(e, put_u64(e.data, EFFECT_TOTAL as int, (index + 1) as u64)),
                    ),
                ))
            },
        }
    }
}

/// enroll: stamps the member slot at index `total` and grows `total`; the member may not
/// be the effect itself (its data is already borrowed). Data:
/// `[member_bump]`. Accounts: `[effect (w), member (w, zeroed), authority (signer)]`.
pub fn enroll(accounts: &mut Vec<Account>, data: &[u8]) -> (r: Result<(), ProgramError>)
    requires
        enroll_spec(accounts_view(old(accounts)@), data@) is Some,
    ensures
        match enroll_spec(accounts_view(old(accounts)@), data@) {
            Some(Ok(new)) => r is Ok && accounts_view(final(accounts)@) == new,
            Some(Err(e)) => r == Err::<(), ProgramError>(e) && final(accounts)@ == old(accounts)@,
            None => false,
        },
{
    match enroll_checked(accounts, data) {
        Some(r) => r,
        None => unreached(),
    }
}

/// `enroll`, reporting `None` where the member count would overflow.
pub(crate) fn enroll_checked(accounts: &mut Vec<Account>, data: &[u8]) -> (r: Option<Result<(), ProgramError>>)
    ensures
        match enroll_spec(accounts_view(old(accounts)@), data@) {
            Some(Ok(new)) => r == Some(Ok::<(), ProgramError>(())) && accounts_view(final(accounts)@) == new,
            Some(Err(e)) => r == Some(Err::<(), ProgramError>(e)) && final(accounts)@ == old(accounts)@,
            None => r is None && final(accounts)@ == old(accounts)@,
        },
{
    if accounts.len() < 3 {
        return Some(Err(ProgramError::NotEnoughAccountKeys));
    }
    if data.len() == 0 {
        return Some(Err(ProgramError::InvalidInstructionData));
    }
    let member_bump = data[0];
    match check_gated(accounts, 2) {
        Ok(()) => {},
        Err(x) => return Some(Err(x)),
    }
    let e = &accounts[0];
    let st = match effect_status_checked(e.data.as_slice()) {
        Ok(s) => s,
        Err(x) => return Some(Err(x)),
    };
    if st != Status::Pending {
        return Some(Err(crate::program::error::map(CoreErr::WrongPhase)));
    }
    let index = read_u64(e.data.as_slice(), EFFECT_TOTAL);
    let m = &accounts[1];
    let pda = member_pda_check(&m.key, &e.key, index, member_bump);
    match check_pda(&pda) {
        Ok(()) => {},
        Err(x) => return Some(Err(x)),
    }
    if key_eq(&m.key, &e.key) {
        return Some(Err(ProgramError::AccountBorrowFailed));
    }
    if m.data.len() < MEMBER_LEN || !key_eq(&m.owner, &CONSUMER_ID) {
        return Some(Err(custom(E_BAD_OWNER)));
    }
    let z = [0u8; 8];
    assert(z@ =~= zeros(8));
    if !bytes_eq(&m.data.as_slice()[0..8], &z) {
        return Some(Err(custom(E_SLOT_OCCUPIED)));
    }
    if index == u64::MAX {
        return None;
    }
    let ekey = e.key;
    let mut md = copy_data(m);
    write_bytes(&mut md, 0, &DISC_MEMBER);
    md.set(MEMBER_VERSION, VERSION_MEMBER);
    md.set(MEMBER_BUMP, member_bump);
    write_bytes(&mut md, MEMBER_EFFECT, &ekey);
    write_u64(&mut md, MEMBER_INDEX, index);
    write_u64(&mut md, MEMBER_LAST_REDUCE_EPOCH, 0);
    write_u64(&mut md, MEMBER_LAST_APPLY_EPOCH, 0);
    let mut ed = copy_data(e);
    write_u64(&mut ed, EFFECT_TOTAL, index + 1);
    set_data(accounts, 1, md);
    set_data(accounts, 0, ed);
    Some(Ok(()))
}

/// The outcome of `top_up_bounty`: `amount` lamports move from the payer to the escrow.
pub open spec fn top_up_bounty_spec(accs: Seq<AccountV>, data: Seq<u8>) -> Result<
    Seq<AccountV>,
    ProgramError,
> {
    if accs.len() < 2 {
        Err(ProgramError::NotEnoughAccountKeys)
    } else if data.len() < 8 {
        Err(ProgramError::InvalidInstructionData)
    } else if escrow_header(accs[0]) is Err {
        Err(escrow_header(accs[0])->Err_0)
    } else if !accs[1].is_signer {
        Err(ProgramError::Custom(E_UNAUTHORIZED))
    } else {
        match transfer_verdict(accs[1], accs[0], get_u64(data, 0)) {
            Err(x) => Err(x),
            Ok((payer, escrow)) => Ok(
                accs.update(1, with_lamports(accs[1], payer)).update(0, with_lamports(accs[0], escrow)),
            ),
        }
    }
}

/// top_up_bounty: anyone adds lamports to an escrow (anti-stall, or to fund a re-run).
/// Data: `[amount (u64)]`. Accounts: `[escrow (w), payer (signer, w)]`.
pub fn top_up_bounty(accounts: &mut Vec<Account>, data: &[u8]) -> (r: Result<(), ProgramError>)
    ensures
        match top_up_bounty_spec(accounts_view(old(accounts)@), data@) {
            Ok(new) => r is Ok && accounts_view(final(accounts)@) == new,
            Err(e) => r == Err::<(), ProgramError>(e) && final(accounts)@ == old(accounts)@,
        },
{
    if accounts.len() < 2 {
        return Err(ProgramError::NotEnoughAccountKeys);
    }
    if data.len() < 8 {
        return Err(ProgramError::InvalidInstructionData);
    }
    let amount = read_u64(data, 0);
    match check_header(&accounts[0], &CONSUMER_ID, &DISC_ESCROW, VERSION_ESCROW, ESCROW_LEN) {
        Ok(()) => {},
        Err(x) => return Err(x),
    }
    if !accounts[1].is_signer {
        return Err(custom(E_UNAUTHORIZED));
    }
    let (payer, escrow) = match transfer_lamports(&accounts[1], &accounts[0], amount) {
        Ok(t) => t,
        Err(x) => return Err(x),
    };
    set_lamports(accounts, 1, payer);
    set_lamports(accounts, 0, escrow);
    Ok(())
}

/// The bytes `init_shards` writes into a fresh shard: epoch 0 (reset on first touch),
/// zero cursors and the identity accumulator.
pub open spec fn shard_init_bytes(d: Seq<u8>, bump: u8, sid: u32, effect: Seq<u8>) -> Seq<u8> {
    let d1 = put_u32(put_u8(put_u8(put(d, 0, DISC_SHARD@), SHARD_VERSION as int, VERSION_SHARD), SHARD_BUMP as int, bump), SHARD_ID as int, sid);
    let d2 = put_u64(put_u64(put_u64(put(d1, SHARD_EFFECT as int, effect), SHARD_EPOCH as int, 0), SHARD_REDUCE_CURSOR as int, 0), SHARD_APPLY_CURSOR as int, 0);
    put(d2, SHARD_ACC_PARTIAL as int, zeros(64))
}

/// The bytes `init_shards` writes into a fresh escrow, bound to `(effect, sid)`.
pub open spec fn escrow_init_bytes(d: Seq<u8>, bump: u8, effect: Seq<u8>, sid: u32, bounty_per: u64) -> Seq<u8> {
    let d1 = put_u8(put_u8(put(d, 0, DISC_ESCROW@), ESCROW_VERSION as int, VERSION_ESCROW), ESCROW_BUMP as int, bump);
    put_u64(put_u64(put_u32(put(d1, ESCROW_EFFECT as int, effect), ESCROW_SHARD_ID as int, sid), ESCROW_BOUNTY_PER as int, bounty_per), ESCROW_LAST_REFUND_EPOCH as int, 0)
}

/// A shard account already stamped for shard `sid` of the effect `ekey`.
pub open spec fn shard_existing(sh: AccountV, ekey: Pubkey, sid: u32) -> bool {
    &&& sh.data.subrange(0, 8) == DISC_SHARD@
    &&& sh.data[SHARD_VERSION as int] <= VERSION_SHARD
    &&& key_at(sh.data, SHARD_EFFECT as int) == ekey@
    &&& get_u32(sh.data, SHARD_ID as int) == sid
}

/// An escrow account already stamped for shard `sid` of the effect `ekey`.
pub open spec fn escrow_existing(x: AccountV, ekey: Pubkey, sid: u32) -> bool {
    &&& x.data.subrange(0, 8) == DISC_ESCROW@
    &&& x.data[ESCROW_VERSION as int] <= VERSION_ESCROW
    &&& key_at(x.data, ESCROW_EFFECT as int) == ekey@
    &&& get_u32(x.data, ESCROW_SHARD_ID as int) == sid
}

fn is_existing_shard(sh: &Account, ekey: &Pubkey, sid: u32) -> (r: bool)
    requires
        sh.data@.len() >= SHARD_LEN,
    ensures
        r == shard_existing(sh@, *ekey, sid),
{
    let d = sh.data.as_slice();
    bytes_eq(&d[0..8], &DISC_SHARD) && d[SHARD_VERSION] <= VERSION_SHARD && bytes_eq(
        &d[SHARD_EFFECT..SHARD_EFFECT + 32],
        ekey,
    ) && read_u32(d, SHARD_ID) == sid
}

fn is_existing_escrow(x: &Account, ekey: &Pubkey, sid: u32) -> (r: bool)
    requires
        x.data@.len() >= ESCROW_LEN,
    ensures
        r == escrow_existing(x@, *ekey, sid),
{
    let d = x.data.as_slice();
    bytes_eq(&d[0..8], &DISC_ESCROW) && d[ESCROW_VERSION] <= VERSION_ESCROW && bytes_eq(
        &d[ESCROW_EFFECT..ESCROW_EFFECT + 32],
        ekey,
    ) && read_u32(d, ESCROW_SHARD_ID) == sid
}

/// The outcome of `init_shards`. Both addresses must derive from `(effect, sid)` with the
/// given bumps. Create branch (a zeroed shard): shard `sid` and its escrow are stamped
/// and `shards_created` grows by one. Fund-only branch (a shard and an escrow already
/// stamped for this effect and `sid`): nothing changes; the partial accumulator, the
/// cursors, the epoch and `shards_created` are never touched again. `None` where
/// `shards_created` would overflow.
pub open spec fn init_shards_spec(accs: Seq<AccountV>, data: Seq<u8>) -> Option<Result<Seq<AccountV>, ProgramError>> {
    if accs.len() < 4 {
        Some(Err(ProgramError::NotEnoughAccountKeys))
    } else if data.len() < 14 {
        Some(Err(ProgramError::InvalidInstructionData))
    } else if gated_effect(accs, 3) is Err {
        Some(Err(gated_effect(accs, 3)->Err_0))
    } else {
        let e = accs[0];
        let sh = accs[1];
        let x = accs[2];
        let sid = get_u32(data, 0);
        match effect_status_of(e.data) {
            Err(err) => Some(Err(err)),
            Ok(st) => if st != Status::Pending {
                Some(Err(core_err(CoreErr::WrongPhase)))
            } else if pda_verdict(shard_pda(sh.key, e.key, sid, data[4])) is Err {
                Some(Err(ProgramError::Custom(E_BAD_BUMP)))
            } else if pda_verdict(escrow_pda(x.key, e.key, sid, data[5])) is Err {
                Some(Err(ProgramError::Custom(E_BAD_BUMP)))
            } else if sh.key@ == e.key@ {
                Some(Err(ProgramError::AccountBorrowFailed))
            } else if sh.data.len() < SHARD_LEN || sh.owner@ != CONSUMER_ID@ {
                Some(Err(ProgramError::Custom(E_BAD_OWNER)))
            } else if sh.data.subrange(0, 8) != zeros(8) {
                if !shard_existing(sh, e.key, sid) {
                    Some(Err(ProgramError::Custom(E_SLOT_OCCUPIED)))
                } else if x.key@ == e.key@ {
                    Some(Err(ProgramError::AccountBorrowFailed))
                } else if x.data.len() < ESCROW_LEN || x.owner@ != CONSUMER_ID@ {
                    Some(Err(ProgramError::Custom(E_BAD_OWNER)))
                } else if !escrow_existing(x, e.key, sid) {
                    Some(Err(ProgramError::Custom(E_SLOT_OCCUPIED)))
                } else {
                    Some(Ok(accs))
                }
            } else if x.key@ == e.key@ {
                Some(Err(ProgramError::AccountBorrowFailed))
            } else if x.data.len() < ESCROW_LEN || x.owner@ != CONSUMER_ID@ {
                Some(Err(ProgramError::Custom(E_BAD_OWNER)))
            } else if x.data.subrange(0, 8) != zeros(8) || x.key@ == sh.key@ {
                Some(Err(ProgramError::Custom(E_SLOT_OCCUPIED)))
            } else if get_u32(e.data, EFFECT_SHARDS_CREATED as int) == u32::MAX {
                None
            } else {
                Some(Ok(
                    accs.update(1, with_data(sh, shard_init_bytes(sh.data, data[4], sid, e.key@)))
                        .update(2, with_data(x, escrow_init_bytes(x.data, data[5], e.key@, sid, get_u64(data, 6))))
                        .update(0, with_data(e, put_u32(e.data, EFFECT_SHARDS_CREATED as int, (get_u32(e.data, EFFECT_SHARDS_CREATED as int) + 1) as u32))),
                ))
            },
        }
    }
}

/// init_shards: while `Pending`, creates shard `sid` and its escrow (create branch), or
/// leaves an already created pair as it is (fund-only branch; the escrow is funded by
/// its lamports). An escrow that is the shard account itself sees the shard's fresh
/// discriminator and is refused as occupied; an account that is the effect itself
/// cannot be borrowed again. Data: `[shard_id (u32), shard_bump, escrow_bump,
/// bounty_per (u64)]`. Accounts: `[effect (w), shard (w), escrow (w), authority (signer)]`.
pub fn init_shards(accounts: &mut Vec<Account>, data: &[u8]) -> (r: Result<(), ProgramError>)
    requires
        init_shards_spec(accounts_view(old(accounts)@), data@) is Some,
    ensures
        match init_shards_spec(accounts_view(old(accounts)@), data@) {
            Some(Ok(new)) => r is Ok && accounts_view(final(accounts)@) == new,
            Some(Err(e)) => r == Err::<(), ProgramError>(e) && final(accounts)@ == old(accounts)@,
            None => false,
        },
{
    match init_shards_checked(accounts, data) {
        Some(r) => r,
        None => unreached(),
    }
}

/// `init_shards`, reporting `None` where the shard counter would overflow.
pub(crate) fn init_shards_checked(accounts: &mut Vec<Account>, data: &[u8]) -> (r: Option<Result<(), ProgramError>>)
    ensures
        match init_shards_spec(accounts_view(old(accounts)@), data@) {
            Some(Ok(new)) => r == Some(Ok::<(), ProgramError>(())) && accounts_view(final(accounts)@) == new,
            Some(Err(e)) => r == Some(Err::<(), ProgramError>(e)) && final(accounts)@ == old(accounts)@,
            None => r is None && final(accounts)@ == old(accounts)@,
        },
{
    if accounts.len() < 4 {
        return Some(Err(ProgramError::NotEnoughAccountKeys));
    }
    if data.len() < 4 + 1 + 1 + 8 {
        return Some(Err(ProgramError::InvalidInstructionData));
    }
    let sid = read_u32(data, 0);
    let shard_bump = data[4];
    let escrow_bump = data[5];
    let bounty_per = read_u64(data, 6);
    match check_gated(accounts, 3) {
        Ok(()) => {},
        Err(x) => return Some(Err(x)),
    }
    let e = &accounts[0];
    let st = match effect_status_checked(e.data.as_slice()) {
        Ok(s) => s,
        Err(x) => return Some(Err(x)),
    };
    if st != Status::Pending {
        return Some(Err(crate::program::error::map(CoreErr::WrongPhase)));
    }
    let sh = &accounts[1];
    let x = &accounts[2];
    match check_pda(&shard_pda_check(&sh.key, &e.key, sid, shard_bump)) {
        Ok(()) => {},
        Err(err) => return Some(Err(err)),
    }
    match check_pda(&escrow_pda_check(&x.key, &e.key, sid, escrow_bump)) {
        Ok(()) => {},
        Err(err) => return Some(Err(err)),
    }
    let z = [0u8; 8];
    assert(z@ =~= zeros(8));
    if key_eq(&sh.key, &e.key) {
        return Some(Err(ProgramError::AccountBorrowFailed));
    }
    if sh.data.len() < SHARD_LEN || !key_eq(&sh.owner, &CONSUMER_ID) {
        return Some(Err(custom(E_BAD_OWNER)));
    }
    let ekey = e.key;
    if !bytes_eq(&sh.data.as_slice()[0..8], &z) {
        if !is_existing_shard(sh, &ekey, sid) {
            return Some(Err(custom(E_SLOT_OCCUPIED)));
        }
        if key_eq(&x.key, &e.key) {
            return Some(Err(ProgramError::AccountBorrowFailed));
        }
        if x.data.len() < ESCROW_LEN || !key_eq(&x.owner, &CONSUMER_ID) {
            return Some(Err(custom(E_BAD_OWNER)));
        }
        if !is_existing_escrow(x, &ekey, sid) {
            return Some(Err(custom(E_SLOT_OCCUPIED)));
        }
        return Some(Ok(()));
    }
    let mut sd = copy_data(sh);
    write_bytes(&mut sd, 0, &DISC_SHARD);
    sd.set(SHARD_VERSION, VERSION_SHARD);
    sd.set(SHARD_BUMP, shard_bump);
    write_u32(&mut sd, SHARD_ID, sid);
    write_bytes(&mut sd, SHARD_EFFECT, &ekey);
    write_u64(&mut sd, SHARD_EPOCH, 0);
    write_u64(&mut sd, SHARD_REDUCE_CURSOR, 0);
    write_u64(&mut sd, SHARD_APPLY_CURSOR, 0);
    let acc = zero_window();
    write_bytes(&mut sd, SHARD_ACC_PARTIAL, &acc);
    if key_eq(&x.key, &e.key) {
        return Some(Err(ProgramError::AccountBorrowFailed));
    }
    if x.data.len() < ESCROW_LEN || !key_eq(&x.owner, &CONSUMER_ID) {
        return Some(Err(custom(E_BAD_OWNER)));
    }
    if !bytes_eq(&x.data.as_slice()[0..8], &z) || key_eq(&x.key, &sh.key) {
        return Some(Err(custom(E_SLOT_OCCUPIED)));
    }
    let mut xd = copy_data(x);
    write_bytes(&mut xd, 0, &DISC_ESCROW);
    xd.set(ESCROW_VERSION, VERSION_ESCROW);
    xd.set(ESCROW_BUMP, escrow_bump);
    write_bytes(&mut xd, ESCROW_EFFECT, &ekey);
    write_u32(&mut xd, ESCROW_SHARD_ID, sid);
    write_u64(&mut xd, ESCROW_BOUNTY_PER, bounty_per);
    write_u64(&mut xd, ESCROW_LAST_REFUND_EPOCH, 0);
    let created = read_u32(e.data.as_slice(), EFFECT_SHARDS_CREATED);
    if created == u32::MAX {
        return None;
    }
    let mut ed = copy_data(e);
    write_u32(&mut ed, EFFECT_SHARDS_CREATED, created + 1);
    set_data(accounts, 1, sd);
    set_data(accounts, 2, xd);
    set_data(accounts, 0, ed);
    Some(Ok(()))
}

/// Which cursor and skip counter a `skip` moves: APPLY or REDUCE.
pub open spec fn skip_fields(reduce: bool) -> (Status, usize, usize) {
    if reduce {
        (Status::Reducing, SHARD_REDUCE_CURSOR, EFFECT_REDUCE_SKIPPED)
    } else {
        (Status::Applying, SHARD_APPLY_CURSOR, EFFECT_APPLY_SKIPPED)
    }
}

/// The outcome of `skip` (`reduce == false`) and `skip_reduce` (`reduce == true`): after
/// the lazy reset, the phase cursor moves past one member, that member (account 3, the
/// member of this effect at the cursor's global index) is stamped with the epoch for the
/// phase, and the phase's skip counter grows. A shard id outside the partition is not
/// refused as such; its members' global indices lie at or past `total`, where enrolment
/// places none. `None` where the shard length would divide by a zero shard count or the
/// counter overflows.
pub open spec fn skip_spec(accs: Seq<AccountV>, reduce: bool) -> Option<Result<Seq<AccountV>, ProgramError>> {
    let (phase, cursor_off, counter_off) = skip_fields(reduce);
    let stamp_off = if reduce { MEMBER_LAST_REDUCE_EPOCH } else { MEMBER_LAST_APPLY_EPOCH };
    if accs.len() < 4 {
        Some(Err(ProgramError::NotEnoughAccountKeys))
    } else if gated_effect(accs, 2) is Err {
        Some(Err(gated_effect(accs, 2)->Err_0))
    } else {
        let e = accs[0];
        let sh = accs[1];
        let m = accs[3];
        match effect_status_of(e.data) {
            Err(err) => Some(Err(err)),
            Ok(st) => if st != phase {
                Some(Err(core_err(CoreErr::WrongPhase)))
            } else if sh.key@ == e.key@ {
                Some(Err(ProgramError::AccountBorrowFailed))
            } else if shard_header(sh) is Err {
                Some(Err(shard_header(sh)->Err_0))
            } else if key_at(sh.data, SHARD_EFFECT as int) != e.key@ {
                Some(Err(ProgramError::Custom(E_BAD_OWNER)))
            } else {
                let epoch = get_u64(e.data, EFFECT_EPOCH as int);
                let sd = shard_lazy_reset_bytes(sh.data, epoch);
                let p = get_u32(e.data, EFFECT_SHARD_COUNT as int);
                let total = get_u64(e.data, EFFECT_TOTAL as int) as int;
                let sid = get_u32(sh.data, SHARD_ID as int);
                let cursor = get_u64(sd, cursor_off as int);
                let skipped = get_u64(e.data, counter_off as int);
                if p == 0 {
                    None
                } else if cursor >= len_of(total, p as int, sid as int) {
                    Some(Err(core_err(CoreErr::ShardComplete)))
                } else if member_verdict(m, e.key, sh.key, start_of(total, p as int, sid as int) + cursor) is Err {
                    Some(Err(member_verdict(m, e.key, sh.key, start_of(total, p as int, sid as int) + cursor)->Err_0))
                } else if skipped == u64::MAX {
                    None
                } else {
                    Some(Ok(accs.update(3, with_data(m, put_u64(m.data, stamp_off as int, epoch)))
                        .update(1, with_data(sh, put_u64(sd, cursor_off as int, (cursor + 1) as u64)))
                        .update(0, with_data(e, put_u64(e.data, counter_off as int, (skipped + 1) as u64)))))
                }
            },
        }
    }
}

fn skip_phase(accounts: &mut Vec<Account>, reduce: bool) -> (r: Result<(), ProgramError>)
    requires
        skip_spec(accounts_view(old(accounts)@), reduce) is Some,
    ensures
        match skip_spec(accounts_view(old(accounts)@), reduce) {
            Some(Ok(new)) => r is Ok && accounts_view(final(accounts)@) == new,
            Some(Err(e)) => r == Err::<(), ProgramError>(e) && final(accounts)@ == old(accounts)@,
            None => false,
        },
{
    match skip_phase_checked(accounts, reduce) {
        Some(r) => r,
        None => unreached(),
    }
}

/// The skip of one phase, reporting `None` where the shard count is zero or the skip
/// counter would overflow.
pub(crate) fn skip_phase_checked(accounts: &mut Vec<Account>, reduce: bool) -> (r: Option<Result<(), ProgramError>>)
    ensures
        match skip_spec(accounts_view(old(accounts)@), reduce) {
            Some(Ok(new)) => r == Some(Ok::<(), ProgramError>(())) && accounts_view(final(accounts)@) == new,
            Some(Err(e)) => r == Some(Err::<(), ProgramError>(e)) && final(accounts)@ == old(accounts)@,
            None => r is None && final(accounts)@ == old(accounts)@,
        },
{
    let phase = if reduce { Status::Reducing } else { Status::Applying };
    let cursor_off = if reduce { SHARD_REDUCE_CURSOR } else { SHARD_APPLY_CURSOR };
    let counter_off = if reduce { EFFECT_REDUCE_SKIPPED } else { EFFECT_APPLY_SKIPPED };
    if accounts.len() < 4 {
        return Some(Err(ProgramError::NotEnoughAccountKeys));
    }
    match check_gated(accounts, 2) {
        Ok(()) => {},
        Err(x) => return Some(Err(x)),
    }
    let e = &accounts[0];
    let ed = e.data.as_slice();
    let st = match effect_status_checked(ed) {
        Ok(s) => s,
        Err(x) => return Some(Err(x)),
    };
    if st != phase {
        return Some(Err(crate::program::error::map(CoreErr::WrongPhase)));
    }
    let epoch = read_u64(ed, EFFECT_EPOCH);
    let sh = &accounts[1];
    if key_eq(&sh.key, &e.key) {
        return Some(Err(ProgramError::AccountBorrowFailed));
    }
    match check_header(sh, &CONSUMER_ID, &DISC_SHARD, VERSION_SHARD, SHARD_LEN) {
        Ok(()) => {},
        Err(x) => return Some(Err(x)),
    }
    if !bytes_eq(&sh.data.as_slice()[SHARD_EFFECT..SHARD_EFFECT + 32], &e.key) {
        return Some(Err(custom(E_BAD_OWNER)));
    }
    let sid = read_u32(sh.data.as_slice(), SHARD_ID);
    let mut sd = copy_data(sh);
    shard_lazy_reset(&mut sd, epoch);
    if read_u32(ed, EFFECT_SHARD_COUNT) == 0 {
        return None;
    }
    let len = partition_len(read_u64(ed, EFFECT_TOTAL), read_u32(ed, EFFECT_SHARD_COUNT) as u64, sid as u64);
    let cursor = read_u64(sd.as_slice(), cursor_off);
    match skip_step(cursor, len) {
        Ok(()) => {},
        Err(x) => return Some(Err(crate::program::error::map(x))),
    }
    let total = read_u64(ed, EFFECT_TOTAL);
    let p = read_u32(ed, EFFECT_SHARD_COUNT);
    let ghost gi = start_of(total as int, p as int, sid as int) + cursor;
    let m = &accounts[3];
    let verdict = match partition_start_checked(total, p as u64, sid as u64) {
        Some(start) => if cursor <= u64::MAX - start {
            check_member(m, &e.key, &sh.key, start + cursor)
        } else {
            check_member_beyond(m, &e.key, &sh.key, Ghost(gi))
        },
        None => check_member_beyond(m, &e.key, &sh.key, Ghost(gi)),
    };
    match verdict {
        Ok(()) => {},
        Err(x) => return Some(Err(x)),
    }
    if read_u64(ed, counter_off) == u64::MAX {
        return None;
    }
    let stamp_off = if reduce { MEMBER_LAST_REDUCE_EPOCH } else { MEMBER_LAST_APPLY_EPOCH };
    let mut md = copy_data(m);
    write_u64(&mut md, stamp_off, epoch);
    write_u64(&mut sd, cursor_off, cursor + 1);
    let skipped = read_u64(ed, counter_off);
    let mut nd = copy_data(e);
    write_u64(&mut nd, counter_off, skipped + 1);
    set_data(accounts, 3, md);
    set_data(accounts, 1, sd);
    set_data(accounts, 0, nd);
    Some(Ok(()))
}

/// skip: the authority's escape for a poison member in APPLY. After the lazy reset the
/// APPLY cursor moves past one member and `apply_skipped_count` grows; completion stays
/// cursor-derived, so skipping the last member still lets the shard finish. Accounts:
/// `[effect (w), shard (w), authority (signer), member]`.
pub fn skip(accounts: &mut Vec<Account>) -> (r: Result<(), ProgramError>)
    requires
        skip_spec(accounts_view(old(accounts)@), false) is Some,
    ensures
        match skip_spec(accounts_view(old(accounts)@), false) {
            Some(Ok(new)) => r is Ok && accounts_view(final(accounts)@) == new,
            Some(Err(e)) => r == Err::<(), ProgramError>(e) && final(accounts)@ == old(accounts)@,
            None => false,
        },
{
    skip_phase(accounts, false)
}

/// skip_reduce: the authority's escape for a poison member in REDUCE. After the lazy
/// reset the REDUCE cursor moves past one member and `reduce_skipped_count` grows (the
/// member is missing from the aggregate). Accounts:
/// `[effect (w), shard (w), authority (signer), member]`.
pub fn skip_reduce(accounts: &mut Vec<Account>) -> (r: Result<(), ProgramError>)
    requires
        skip_spec(accounts_view(old(accounts)@), true) is Some,
    ensures
        match skip_spec(accounts_view(old(accounts)@), true) {
            Some(Ok(new)) => r is Ok && accounts_view(final(accounts)@) == new,
            Some(Err(e)) => r == Err::<(), ProgramError>(e) && final(accounts)@ == old(accounts)@,
            None => false,
        },
{
    skip_phase(accounts, true)
}

/// The outcome of `refund_escrow`: once per epoch of a `Done` or `Cancelled` effect, the
/// escrow is stamped with the epoch and its surplus above the rent `floor` moves to the
/// stored authority; the escrow is never closed. A second refund in the same epoch is a
/// no-op. The escrow's address must derive from its effect and shard id.
pub open spec fn refund_escrow_spec(accs: Seq<AccountV>, floor: u64) -> Result<Seq<AccountV>, ProgramError> {
    if accs.len() < 3 {
        Err(ProgramError::NotEnoughAccountKeys)
    } else if effect_header(accs[0]) is Err {
        Err(effect_header(accs[0])->Err_0)
    } else {
        let e = accs[0];
        let x = accs[1];
        let a = accs[2];
        match effect_status_of(e.data) {
            Err(err) => Err(err),
            Ok(st) => if st != Status::Done && st != Status::Cancelled {
                Err(core_err(CoreErr::WrongPhase))
            } else if a.key@ != effect_authority(e.data) {
                Err(ProgramError::Custom(E_UNAUTHORIZED))
            } else if x.key@ == e.key@ {
                Err(ProgramError::AccountBorrowFailed)
            } else if escrow_header(x) is Err {
                Err(escrow_header(x)->Err_0)
            } else if key_at(x.data, ESCROW_EFFECT as int) != e.key@ {
                Err(ProgramError::Custom(E_BAD_OWNER))
            } else if pda_verdict(escrow_pda(x.key, e.key, get_u32(x.data, ESCROW_SHARD_ID as int), x.data[ESCROW_BUMP as int])) is Err {
                Err(ProgramError::Custom(E_BAD_BUMP))
            } else {
                let epoch = get_u64(e.data, EFFECT_EPOCH as int);
                let xd = put_u64(x.data, ESCROW_LAST_REFUND_EPOCH as int, epoch);
                let surplus = if x.lamports > floor { (x.lamports - floor) as u64 } else { 0u64 };
                if get_u64(x.data, ESCROW_LAST_REFUND_EPOCH as int) >= epoch {
                    Ok(accs)
                } else if surplus == 0 {
                    Ok(accs.update(1, with_data(x, xd)))
                } else {
                    match transfer_verdict(with_data(x, xd), a, surplus) {
                        Err(err) => Err(err),
                        Ok((xl, al)) => Ok(
                            accs.update(1, with_lamports(with_data(x, xd), xl)).update(2, with_lamports(a, al)),
                        ),
                    }
                }
            },
        }
    }
}

/// refund_escrow: sweeps an escrow's surplus above the rent `floor` to the stored
/// authority, once per epoch of a `Done` or `Cancelled` effect; never closes the escrow.
/// Permissionless: the destination is pinned to the stored authority. Accounts:
/// `[effect, escrow (w), authority (w)]`.
pub fn refund_escrow(accounts: &mut Vec<Account>, floor: u64) -> (r: Result<(), ProgramError>)
    ensures
        match refund_escrow_spec(accounts_view(old(accounts)@), floor) {
            Ok(new) => r is Ok && accounts_view(final(accounts)@) == new,
            Err(e) => r == Err::<(), ProgramError>(e) && final(accounts)@ == old(accounts)@,
        },
{
    if accounts.len() < 3 {
        return Err(ProgramError::NotEnoughAccountKeys);
    }
    let e = &accounts[0];
    match check_header(e, &CONSUMER_ID, &DISC_EFFECT, VERSION_EFFECT, EFFECT_LEN) {
        Ok(()) => {},
        Err(x) => return Err(x),
    }
    let ed = e.data.as_slice();
    let st = match effect_status_checked(ed) {
        Ok(s) => s,
        Err(x) => return Err(x),
    };
    if st != Status::Done && st != Status::Cancelled {
        return Err(crate::program::error::map(CoreErr::WrongPhase));
    }
    if !bytes_eq(&accounts[2].key, &ed[EFFECT_AUTHORITY..EFFECT_AUTHORITY + 32]) {
        return Err(custom(E_UNAUTHORIZED));
    }
    let epoch = read_u64(ed, EFFECT_EPOCH);
    let x = &accounts[1];
    if key_eq(&x.key, &e.key) {
        return Err(ProgramError::AccountBorrowFailed);
    }
    match check_header(x, &CONSUMER_ID, &DISC_ESCROW, VERSION_ESCROW, ESCROW_LEN) {
        Ok(()) => {},
        Err(x) => return Err(x),
    }
    if !bytes_eq(&x.data.as_slice()[ESCROW_EFFECT..ESCROW_EFFECT + 32], &e.key) {
        return Err(custom(E_BAD_OWNER));
    }
    let sid = read_u32(x.data.as_slice(), ESCROW_SHARD_ID);
    match check_pda(&escrow_pda_check(&x.key, &e.key, sid, x.data[ESCROW_BUMP])) {
        Ok(()) => {},
        Err(err) => return Err(err),
    }
    if read_u64(x.data.as_slice(), ESCROW_LAST_REFUND_EPOCH) >= epoch {
        return Ok(());  // already refunded this epoch: an idempotent no-op
    }
    let mut xd = copy_data(x);
    write_u64(&mut xd, ESCROW_LAST_REFUND_EPOCH, epoch);
    let surplus = x.lamports.saturating_sub(floor);
    if surplus > 0 {
        let stamped = Account {
            key: x.key,
            owner: x.owner,
            is_signer: x.is_signer,
            is_writable: x.is_writable,
            lamports: x.lamports,
            data: copy_data(x),
        };
        let (xl, al) = match transfer_lamports(&stamped, &accounts[2], surplus) {
            Ok(t) => t,
            Err(err) => return Err(err),
        };
        set_data(accounts, 1, xd);
        set_lamports(accounts, 1, xl);
        set_lamports(accounts, 2, al);
    } else {
        set_data(accounts, 1, xd);
    }
    Ok(())
}

/// One promotion step of `reduce_shards` (`reduce`) or `try_finish_apply` (`!reduce`) on
/// the effect's bytes `ed` with shard `sh`: the shard must belong to the effect (for
/// REDUCE also sit at the address derived from the effect and its shard id), be the next
/// in ascending order and be fully processed in the current epoch; REDUCE also folds the shard's partial
/// accumulator into `acc_global`. `None` where the shard length would divide by a zero shard
/// count or the counter overflows.
pub open spec fn promote_step(ed: Seq<u8>, ekey: Pubkey, sh: AccountV, reduce: bool) -> Option<
    Result<Seq<u8>, ProgramError>,
> {
    let counter_off = if reduce { EFFECT_MERGE_CURSOR } else { EFFECT_SHARDS_DONE };
    let cursor_off = if reduce { SHARD_REDUCE_CURSOR } else { SHARD_APPLY_CURSOR };
    if sh.key@ == ekey@ {
        Some(Err(ProgramError::AccountBorrowFailed))
    } else if shard_header(sh) is Err {
        Some(Err(shard_header(sh)->Err_0))
    } else if key_at(sh.data, SHARD_EFFECT as int) != ekey@ {
        Some(Err(ProgramError::Custom(E_BAD_OWNER)))
    } else if reduce && pda_verdict(
        shard_pda(sh.key, ekey, get_u32(sh.data, SHARD_ID as int), sh.data[SHARD_BUMP as int]),
    ) is Err {
        Some(Err(ProgramError::Custom(E_BAD_BUMP)))
    } else {
        let p = get_u32(ed, EFFECT_SHARD_COUNT as int);
        let sid = get_u32(sh.data, SHARD_ID as int);
        let next = get_u32(ed, counter_off as int);
        if p == 0 {
            None
        } else {
            let len = len_of(get_u64(ed, EFFECT_TOTAL as int) as int, p as int, sid as int);
            match promotion_verdict(
                next,
                sid,
                get_u64(sh.data, SHARD_EPOCH as int),
                get_u64(ed, EFFECT_EPOCH as int),
                get_u64(sh.data, cursor_off as int),
                len as u64,
            ) {
                Err(ce) => Some(Err(core_err(ce))),
                Ok(_) => if next == u32::MAX {
                    None
                } else {
                    let merged = if reduce {
                        put(
                            ed,
                            EFFECT_ACC_GLOBAL as int,
                            Sum(get_u64(ed, EFFECT_ACC_GLOBAL as int)).spec_combine(
                                Sum(get_u64(sh.data, SHARD_ACC_PARTIAL as int)),
                            ).spec_to_acc(),
                        )
                    } else {
                        ed
                    };
                    Some(Ok(put_u32(merged, counter_off as int, (next + 1) as u32)))
                },
            }
        }
    }
}

/// Promotion steps over `shards` in order, stopping at the first failure.
pub open spec fn promote_run(ed: Seq<u8>, ekey: Pubkey, shards: Seq<AccountV>, reduce: bool) -> Option<
    Result<Seq<u8>, ProgramError>,
>
    decreases shards.len(),
{
    if shards.len() == 0 {
        Some(Ok(ed))
    } else {
        match promote_step(ed, ekey, shards[0], reduce) {
            None => None,
            Some(Err(e)) => Some(Err(e)),
            Some(Ok(ed2)) => promote_run(ed2, ekey, shards.drop_first(), reduce),
        }
    }
}

/// The outcome of `reduce_shards` (`reduce`) and `try_finish_apply` (`!reduce`): the
/// shards after the effect are promoted in order; once every shard is counted the effect
/// is `Reduced` (resp. `Done`).
pub open spec fn promote_spec(accs: Seq<AccountV>, reduce: bool) -> Option<Result<Seq<AccountV>, ProgramError>> {
    let phase = if reduce { Status::Reducing } else { Status::Applying };
    let promoted = if reduce { Status::Reduced } else { Status::Done };
    let counter_off = if reduce { EFFECT_MERGE_CURSOR } else { EFFECT_SHARDS_DONE };
    if accs.len() < 1 {
        Some(Err(ProgramError::NotEnoughAccountKeys))
    } else if effect_header(accs[0]) is Err {
        Some(Err(effect_header(accs[0])->Err_0))
    } else {
        let e = accs[0];
        match effect_status_of(e.data) {
            Err(err) => Some(Err(err)),
            Ok(st) => if st != phase {
                Some(Err(core_err(CoreErr::WrongPhase)))
            } else {
                match promote_run(e.data, e.key, accs.skip(1), reduce) {
                    None => None,
                    Some(Err(err)) => Some(Err(err)),
                    Some(Ok(ed)) => Some(Ok(accs.update(0, with_data(e,
                        if get_u32(ed, counter_off as int) == get_u32(ed, EFFECT_SHARD_COUNT as int) {
                            put_u8(ed, EFFECT_STATUS as int, status_code(promoted))
                        } else {
                            ed
                        },
                    )))),
                }
            },
        }
    }
}

fn promote(accounts: &mut Vec<Account>, reduce: bool) -> (r: Result<(), ProgramError>)
    requires
        promote_spec(accounts_view(old(accounts)@), reduce) is Some,
    ensures
        match promote_spec(accounts_view(old(accounts)@), reduce) {
            Some(Ok(new)) => r is Ok && accounts_view(final(accounts)@) == new,
            Some(Err(e)) => r == Err::<(), ProgramError>(e) && final(accounts)@ == old(accounts)@,
            None => false,
        },
{
    match promote_checked(accounts, reduce) {
        Some(r) => r,
        None => unreached(),
    }
}

/// The promotion of the listed shards, reporting `None` where the shard count is zero or the counter would overflow.
pub(crate) fn promote_checked(accounts: &mut Vec<Account>, reduce: bool) -> (r: Option<Result<(), ProgramError>>)
    ensures
        match promote_spec(accounts_view(old(accounts)@), reduce) {
            Some(Ok(new)) => r == Some(Ok::<(), ProgramError>(())) && accounts_view(final(accounts)@) == new,
            Some(Err(e)) => r == Some(Err::<(), ProgramError>(e)) && final(accounts)@ == old(accounts)@,
            None => r is None && final(accounts)@ == old(accounts)@,
        },
{
    let phase = if reduce { Status::Reducing } else { Status::Applying };
    let promoted = if reduce { Status::Reduced } else { Status::Done };
    let counter_off = if reduce { EFFECT_MERGE_CURSOR } else { EFFECT_SHARDS_DONE };
    let cursor_off = if reduce { SHARD_REDUCE_CURSOR } else { SHARD_APPLY_CURSOR };
    if accounts.len() < 1 {
        return Some(Err(ProgramError::NotEnoughAccountKeys));
    }
    let e = &accounts[0];
    match check_header(e, &CONSUMER_ID, &DISC_EFFECT, VERSION_EFFECT, EFFECT_LEN) {
        Ok(()) => {},
        Err(x) => return Some(Err(x)),
    }
    let st = match effect_status_checked(e.data.as_slice()) {
        Ok(s) => s,
        Err(x) => return Some(Err(x)),
    };
    if st != phase {
        return Some(Err(crate::program::error::map(CoreErr::WrongPhase)));
    }
    let ghost accs = accounts_view(accounts@);
    let ekey = e.key;
    let mut ed = copy_data(e);
    let count = accounts.len();
    let mut i: usize = 1;
    assert(accs.skip(1).skip(0) =~= accs.skip(1));
    while i < count
        invariant
            count == accounts@.len(),
            accs == accounts_view(accounts@),
            accounts@ == old(accounts)@,
            effect_header(accs[0]) is Ok,
            effect_status_of(accs[0].data) == Ok::<Status, ProgramError>(phase),
            phase == (if reduce { Status::Reducing } else { Status::Applying }),
            promoted == (if reduce { Status::Reduced } else { Status::Done }),
            1 <= i <= count,
            ekey == accs[0].key,
            ed@.len() == accs[0].data.len(),
            accs[0].data.len() >= EFFECT_LEN,
            promote_run(ed@, ekey, accs.skip(i as int), reduce) == promote_run(accs[0].data, ekey, accs.skip(1), reduce),
            counter_off == (if reduce { EFFECT_MERGE_CURSOR } else { EFFECT_SHARDS_DONE }),
            cursor_off == (if reduce { SHARD_REDUCE_CURSOR } else { SHARD_APPLY_CURSOR }),
        decreases count - i,
    {
        let ghost rest = accs.skip(i as int);
        assert(rest.drop_first() =~= accs.skip(i + 1));
        assert(rest[0] == accs[i as int]);
        let sh = &accounts[i];
        if key_eq(&sh.key, &ekey) {
            return Some(Err(ProgramError::AccountBorrowFailed));
        }
        match check_header(sh, &CONSUMER_ID, &DISC_SHARD, VERSION_SHARD, SHARD_LEN) {
            Ok(()) => {},
            Err(x) => return Some(Err(x)),
        }
        let sd = sh.data.as_slice();
        if !bytes_eq(&sd[SHARD_EFFECT..SHARD_EFFECT + 32], &ekey) {
            return Some(Err(custom(E_BAD_OWNER)));
        }
        let sid = read_u32(sd, SHARD_ID);
        if reduce {
            match check_pda(&shard_pda_check(&sh.key, &ekey, sid, sd[SHARD_BUMP])) {
                Ok(()) => {},
                Err(x) => return Some(Err(x)),
            }
        }
        let next = read_u32(ed.as_slice(), counter_off);
        if read_u32(ed.as_slice(), EFFECT_SHARD_COUNT) == 0 {
            return None;
        }
        let len = partition_len(read_u64(ed.as_slice(), EFFECT_TOTAL), read_u32(ed.as_slice(), EFFECT_SHARD_COUNT) as u64, sid as u64);
        let step = if reduce {
            reduce_step(next, sid, read_u64(sd, SHARD_EPOCH), read_u64(ed.as_slice(), EFFECT_EPOCH), read_u64(sd, cursor_off), len)
        } else {
            apply_finish_step(next, sid, read_u64(sd, SHARD_EPOCH), read_u64(ed.as_slice(), EFFECT_EPOCH), read_u64(sd, cursor_off), len)
        };
        match step {
            Ok(()) => {},
            Err(x) => return Some(Err(crate::program::error::map(x))),
        }
        if next == u32::MAX {
            return None;
        }
        if reduce {
            let merged = Sum(read_u64(ed.as_slice(), EFFECT_ACC_GLOBAL)).combine(Sum(read_u64(sd, SHARD_ACC_PARTIAL)));
            let acc = merged.to_acc_bytes();
            proof {
                Sum::lemma_acc_roundtrip(merged);
            }
            write_bytes(&mut ed, EFFECT_ACC_GLOBAL, &acc);
        }
        proof {
            lemma_put_u32(ed@, counter_off as int, (next + 1) as u32);
        }
        write_u32(&mut ed, counter_off, next + 1);
        i = i + 1;
    }
    assert(accs.skip(count as int) =~= Seq::<AccountV>::empty());
    if read_u32(ed.as_slice(), counter_off) == read_u32(ed.as_slice(), EFFECT_SHARD_COUNT) {
        ed.set(EFFECT_STATUS, promoted.to_u8());
    }
    set_data(accounts, 0, ed);
    Some(Ok(()))
}

/// reduce_shards: merges fully reduced shards into `acc_global` in ascending order
/// (no lazy reset: a stale shard is not complete); `Reduced` once every shard is
/// merged. Permissionless. Accounts: `[effect (w), shard_{merge_cursor}, ..]`.
pub fn reduce_shards(accounts: &mut Vec<Account>) -> (r: Result<(), ProgramError>)
    requires
        promote_spec(accounts_view(old(accounts)@), true) is Some,
    ensures
        match promote_spec(accounts_view(old(accounts)@), true) {
            Some(Ok(new)) => r is Ok && accounts_view(final(accounts)@) == new,
            Some(Err(e)) => r == Err::<(), ProgramError>(e) && final(accounts)@ == old(accounts)@,
            None => false,
        },
{
    promote(accounts, true)
}

/// try_finish_apply: counts fully applied shards in ascending order; `Done` once every
/// shard is counted. Completion is cursor-derived, so a cursor moved by `skip` counts
/// like a processed one. Permissionless. Accounts: `[effect (w), shard_{shards_done}, ..]`.
pub fn try_finish_apply(accounts: &mut Vec<Account>) -> (r: Result<(), ProgramError>)
    requires
        promote_spec(accounts_view(old(accounts)@), false) is Some,
    ensures
        match promote_spec(accounts_view(old(accounts)@), false) {
            Some(Ok(new)) => r is Ok && accounts_view(final(accounts)@) == new,
            Some(Err(e)) => r == Err::<(), ProgramError>(e) && final(accounts)@ == old(accounts)@,
            None => false,
        },
{
    promote(accounts, false)
}

/// The checks on one member at global index `gi`: a distinct, program-owned member
/// account of this effect at exactly that index, at the address derived from it.
pub open spec fn member_verdict(m: AccountV, ekey: Pubkey, shard_key: Pubkey, gi: int) -> Result<(), ProgramError> {
    if m.key@ == ekey@ || m.key@ == shard_key@ {
        Err(ProgramError::AccountBorrowFailed)
    } else if m.data.len() < MEMBER_LEN || m.owner@ != CONSUMER_ID@ {
        Err(ProgramError::Custom(E_BAD_OWNER))
    } else if m.data.subrange(0, 8) != DISC_MEMBER@ {
        Err(ProgramError::Custom(E_BAD_DISCRIMINATOR))
    } else if key_at(m.data, MEMBER_EFFECT as int) != ekey@ || get_u64(m.data, MEMBER_INDEX as int) != gi {
        Err(ProgramError::Custom(E_INDEX_MISMATCH))
    } else if pda_verdict(member_pda(m.key, ekey, gi as u64, m.data[MEMBER_BUMP as int])) is Err {
        Err(ProgramError::Custom(E_BAD_BUMP))
    } else {
        Ok(())
    }
}

fn check_member(m: &Account, ekey: &Pubkey, skey: &Pubkey, gi: u64) -> (r: Result<(), ProgramError>)
    ensures
        r == member_verdict(m@, *ekey, *skey, gi as int),
{
    if key_eq(&m.key, ekey) || key_eq(&m.key, skey) {
        return Err(ProgramError::AccountBorrowFailed);
    }
    if m.data.len() < MEMBER_LEN || !key_eq(&m.owner, &CONSUMER_ID) {
        return Err(custom(E_BAD_OWNER));
    }
    let d = m.data.as_slice();
    if !bytes_eq(&d[0..8], &DISC_MEMBER) {
        return Err(custom(E_BAD_DISCRIMINATOR));
    }
    if !bytes_eq(&d[MEMBER_EFFECT..MEMBER_EFFECT + 32], ekey) || read_u64(d, MEMBER_INDEX) != gi {
        return Err(custom(E_INDEX_MISMATCH));
    }
    check_pda(&member_pda_check(&m.key, ekey, gi, d[MEMBER_BUMP]))
}

/// [`member_verdict`] at a global index past `u64::MAX`, which no member holds.
fn check_member_beyond(m: &Account, ekey: &Pubkey, skey: &Pubkey, Ghost(gi): Ghost<int>) -> (r: Result<(), ProgramError>)
    requires
        gi > u64::MAX,
    ensures
        r == member_verdict(m@, *ekey, *skey, gi),
{
    if key_eq(&m.key, ekey) || key_eq(&m.key, skey) {
        return Err(ProgramError::AccountBorrowFailed);
    }
    if m.data.len() < MEMBER_LEN || !key_eq(&m.owner, &CONSUMER_ID) {
        return Err(custom(E_BAD_OWNER));
    }
    if !bytes_eq(&m.data.as_slice()[0..8], &DISC_MEMBER) {
        return Err(custom(E_BAD_DISCRIMINATOR));
    }
    Err(custom(E_INDEX_MISMATCH))
}

/// One member of an `advance_*` batch, at global index `gi`, after [`member_verdict`]. A
/// member already processed this epoch is left as it is (cross-epoch idempotency).
/// REDUCE folds the body into `acc` and stamps `last_reduce_epoch`; APPLY credits the body
/// by `delta`, saturating at `u64::MAX`, and stamps `last_apply_epoch`. Returns the
/// member's new bytes and the accumulator.
pub open spec fn member_step(
    m: AccountV,
    ekey: Pubkey,
    shard_key: Pubkey,
    gi: int,
    epoch: u64,
    delta: u64,
    reduce: bool,
    acc: u64,
) -> Result<(Seq<u8>, u64), ProgramError> {
    if member_verdict(m, ekey, shard_key, gi) is Err {
        Err(member_verdict(m, ekey, shard_key, gi)->Err_0)
    } else if reduce {
        if get_u64(m.data, MEMBER_LAST_REDUCE_EPOCH as int) >= epoch {
            Ok((m.data, acc))
        } else {
            Ok((
                put_u64(m.data, MEMBER_LAST_REDUCE_EPOCH as int, epoch),
                sat_add(acc, get_u64(m.data, MEMBER_BODY_OFFSET as int)),
            ))
        }
    } else {
        let body = get_u64(m.data, MEMBER_BODY_OFFSET as int);
        if get_u64(m.data, MEMBER_LAST_APPLY_EPOCH as int) >= epoch {
            Ok((m.data, acc))
        } else {
            Ok((
                put_u64(put_u64(m.data, MEMBER_BODY_OFFSET as int, sat_add(body, delta)), MEMBER_LAST_APPLY_EPOCH as int, epoch),
                acc,
            ))
        }
    }
}

/// The first `k` members of a batch, in order, stopping at the first failure.
pub open spec fn member_prefix(
    ms: Seq<AccountV>,
    ekey: Pubkey,
    shard_key: Pubkey,
    gi0: int,
    epoch: u64,
    delta: u64,
    reduce: bool,
    acc0: u64,
    k: int,
) -> Result<(Seq<Seq<u8>>, u64), ProgramError>
    decreases k,
{
    if k <= 0 {
        Ok((Seq::empty(), acc0))
    } else {
        match member_prefix(ms, ekey, shard_key, gi0, epoch, delta, reduce, acc0, k - 1) {
            Err(x) => Err(x),
            Ok((ds, acc)) => match member_step(ms[k - 1], ekey, shard_key, gi0 + k - 1, epoch, delta, reduce, acc) {
                Err(x) => Err(x),
                Ok((d, acc2)) => Ok((ds.push(d), acc2)),
            },
        }
    }
}

proof fn lemma_member_prefix_err(
    ms: Seq<AccountV>,
    ekey: Pubkey,
    shard_key: Pubkey,
    gi0: int,
    epoch: u64,
    delta: u64,
    reduce: bool,
    acc0: u64,
    j: int,
    k: int,
)
    requires
        0 <= j <= k,
        member_prefix(ms, ekey, shard_key, gi0, epoch, delta, reduce, acc0, j) is Err,
    ensures
        member_prefix(ms, ekey, shard_key, gi0, epoch, delta, reduce, acc0, k) == member_prefix(
            ms,
            ekey,
            shard_key,
            gi0,
            epoch,
            delta,
            reduce,
            acc0,
            j,
        ),
    decreases k - j,
{
    if j < k {
        lemma_member_prefix_err(ms, ekey, shard_key, gi0, epoch, delta, reduce, acc0, j, k - 1);
    }
}

/// The accounts after a successful crank: the shard's new bytes, the escrow and cranker
/// balances, and the new bytes of the `ds.len()` members from account 4 on.
pub open spec fn cranked(accs: Seq<AccountV>, sd: Seq<u8>, xl: u64, cl: u64, ds: Seq<Seq<u8>>) -> Seq<AccountV> {
    Seq::new(accs.len(), |i: int|
        if i == 1 {
            with_data(accs[1], sd)
        } else if i == 2 {
            with_lamports(accs[2], xl)
        } else if i == 3 {
            with_lamports(accs[3], cl)
        } else if 4 <= i < 4 + ds.len() {
            with_data(accs[i], ds[i - 4])
        } else {
            accs[i]
        })
}

/// The outcome of `advance_reduce` (`reduce`) and `advance_apply` (`!reduce`), with the
/// escrow's rent `floor`: after the lazy reset, the batch size is derived on chain from
/// the shard's cursor (never from the caller); the escrow must be bound to this shard
/// and cover `n * bounty_per` above its floor before any member is touched; every
/// member of the batch is checked and processed in order; the accounts after the batch
/// must be the effect itself (read-only sentinels); then the keeper is paid and the
/// cursor moves by `n`. The shard, escrow and member addresses must derive from their
/// seeds.
pub open spec fn advance_spec(accs: Seq<AccountV>, data: Seq<u8>, floor: u64, reduce: bool) -> Result<Seq<AccountV>, ProgramError> {
    let phase = if reduce { Status::Reducing } else { Status::Applying };
    let cursor_off = if reduce { SHARD_REDUCE_CURSOR } else { SHARD_APPLY_CURSOR };
    if data.len() == 0 {
        Err(ProgramError::InvalidInstructionData)
    } else if accs.len() < 4 {
        Err(ProgramError::NotEnoughAccountKeys)
    } else if effect_header(accs[0]) is Err {
        Err(effect_header(accs[0])->Err_0)
    } else {
        let e = accs[0];
        let sh = accs[1];
        let x = accs[2];
        let batch = data[0] as u64;
        match effect_status_of(e.data) {
            Err(err) => Err(err),
            Ok(st) => if st != phase {
                Err(core_err(CoreErr::WrongPhase))
            } else if sh.key@ == e.key@ {
                Err(ProgramError::AccountBorrowFailed)
            } else if shard_header(sh) is Err {
                Err(shard_header(sh)->Err_0)
            } else if key_at(sh.data, SHARD_EFFECT as int) != e.key@ {
                Err(ProgramError::Custom(E_BAD_OWNER))
            } else {
                let epoch = get_u64(e.data, EFFECT_EPOCH as int);
                let delta = get_u64(e.data, EFFECT_PARAMS as int);
                let total = get_u64(e.data, EFFECT_TOTAL as int) as int;
                let p = get_u32(e.data, EFFECT_SHARD_COUNT as int);
                let sid = get_u32(sh.data, SHARD_ID as int);
                let sd = shard_lazy_reset_bytes(sh.data, epoch);
                let len = len_of(total, p as int, sid as int);
                let start = start_of(total, p as int, sid as int);
                let cursor = get_u64(sd, cursor_off as int);
                let n = min_u64(batch, (len - cursor) as u64);
                if sid >= p {
                    Err(core_err(CoreErr::ShardIdOutOfRange))
                } else if pda_verdict(shard_pda(sh.key, e.key, sid, sh.data[SHARD_BUMP as int])) is Err {
                    Err(ProgramError::Custom(E_BAD_BUMP))
                } else if cursor >= len {
                    Err(core_err(CoreErr::ShardComplete))
                } else if accs.len() - 4 < n {
                    Err(ProgramError::NotEnoughAccountKeys)
                } else if x.key@ == sh.key@ {
                    Err(ProgramError::AccountBorrowFailed)
                } else if escrow_header(x) is Err {
                    Err(escrow_header(x)->Err_0)
                } else if key_at(x.data, ESCROW_EFFECT as int) != e.key@ || get_u32(x.data, ESCROW_SHARD_ID as int) != sid {
                    Err(core_err(CoreErr::ShardIdOutOfRange))
                } else if pda_verdict(escrow_pda(x.key, e.key, sid, x.data[ESCROW_BUMP as int])) is Err {
                    Err(ProgramError::Custom(E_BAD_BUMP))
                } else {
                    match pay_verdict(x.lamports, floor, n, get_u64(x.data, ESCROW_BOUNTY_PER as int)) {
                        Err(err) => Err(err),
                        Ok(amount) => {
                            let acc0 = get_u64(sd, SHARD_ACC_PARTIAL as int);
                            match member_prefix(accs.subrange(4, 4 + n), e.key, sh.key, start + cursor, epoch, delta, reduce, acc0, n as int) {
                                Err(err) => Err(err),
                                Ok((ds, acc)) => if exists|j: int| 4 + n <= j < accs.len() && #[trigger] accs[j].key@ != e.key@ {
                                    Err(ProgramError::Custom(E_SENTINEL_EXPECTED))
                                } else {
                                    match transfer_verdict(x, accs[3], amount) {
                                        Err(err) => Err(err),
                                        Ok((xl, cl)) => {
                                            let sd2 = if reduce { put(sd, SHARD_ACC_PARTIAL as int, Sum(acc).spec_to_acc()) } else { sd };
                                            Ok(cranked(accs, put_u64(sd2, cursor_off as int, (cursor + n) as u64), xl, cl, ds))
                                        },
                                    }
                                },
                            }
                        },
                    }
                }
            },
        }
    }
}

/// The values of a list of byte vectors.
pub open spec fn datas_view(v: Seq<Vec<u8>>) -> Seq<Seq<u8>> {
    v.map_values(|d: Vec<u8>| d@)
}

#[verifier::loop_isolation(false)]
#[verifier::spinoff_prover]
#[verifier::rlimit(60)]
fn advance(accounts: &mut Vec<Account>, data: &[u8], floor: u64, reduce: bool) -> (r: Result<(), ProgramError>)
    ensures
        match advance_spec(accounts_view(old(accounts)@), data@, floor, reduce) {
            Ok(new) => r is Ok && accounts_view(final(accounts)@) == new,
            Err(e) => r == Err::<(), ProgramError>(e) && final(accounts)@ == old(accounts)@,
        },
{
    let phase = if reduce { Status::Reducing } else { Status::Applying };
    let cursor_off = if reduce { SHARD_REDUCE_CURSOR } else { SHARD_APPLY_CURSOR };
    if data.len() == 0 {
        return Err(ProgramError::InvalidInstructionData);
    }
    let batch = data[0] as u64;
    if accounts.len() < 4 {
        return Err(ProgramError::NotEnoughAccountKeys);
    }
    let ghost accs = accounts_view(accounts@);
    let e = &accounts[0];
    match check_header(e, &CONSUMER_ID, &DISC_EFFECT, VERSION_EFFECT, EFFECT_LEN) {
        Ok(()) => {},
        Err(x) => return Err(x),
    }
    let ed = e.data.as_slice();
    let st = match effect_status_checked(ed) {
        Ok(s) => s,
        Err(x) => return Err(x),
    };
    if st != phase {
        return Err(crate::program::error::map(CoreErr::WrongPhase));
    }
    let epoch = read_u64(ed, EFFECT_EPOCH);
    let delta = read_u64(ed, EFFECT_PARAMS);
    let sh = &accounts[1];
    if key_eq(&sh.key, &e.key) {
        return Err(ProgramError::AccountBorrowFailed);
    }
    match check_header(sh, &CONSUMER_ID, &DISC_SHARD, VERSION_SHARD, SHARD_LEN) {
        Ok(()) => {},
        Err(x) => return Err(x),
    }
    if !bytes_eq(&sh.data.as_slice()[SHARD_EFFECT..SHARD_EFFECT + 32], &e.key) {
        return Err(custom(E_BAD_OWNER));
    }
    let sid = read_u32(sh.data.as_slice(), SHARD_ID);
    let p = read_u32(ed, EFFECT_SHARD_COUNT);
    if sid >= p {
        return Err(crate::program::error::map(CoreErr::ShardIdOutOfRange));
    }
    match check_pda(&shard_pda_check(&sh.key, &e.key, sid, sh.data[SHARD_BUMP])) {
        Ok(()) => {},
        Err(x) => return Err(x),
    }
    let mut sd = copy_data(sh);
    shard_lazy_reset(&mut sd, epoch);
    let total = read_u64(ed, EFFECT_TOTAL);
    proof {
        lemma_partition_bounds(total as int, p as int);
        lemma_partition_len_bounds(total as int, p as int, sid as int);
        lemma_partition_ordered(total as int, p as int, sid as int, p as int);
        lemma_put_u64(sh.data@, SHARD_REDUCE_CURSOR as int, 0);
    }
    let len = partition_len(total, p as u64, sid as u64);
    let start = partition_start(total, p as u64, sid as u64);
    let cursor = read_u64(sd.as_slice(), cursor_off);
    let n = match advance_step(cursor, len, batch) {
        Ok(n) => n,
        Err(x) => return Err(crate::program::error::map(x)),
    };
    let count = accounts.len();
    if ((count - 4) as u64) < n {
        return Err(ProgramError::NotEnoughAccountKeys);
    }
    let x = &accounts[2];
    if key_eq(&x.key, &sh.key) {
        return Err(ProgramError::AccountBorrowFailed);
    }
    match check_header(x, &CONSUMER_ID, &DISC_ESCROW, VERSION_ESCROW, ESCROW_LEN) {
        Ok(()) => {},
        Err(x) => return Err(x),
    }
    if !bytes_eq(&x.data.as_slice()[ESCROW_EFFECT..ESCROW_EFFECT + 32], &e.key)
        || read_u32(x.data.as_slice(), ESCROW_SHARD_ID) != sid {
        return Err(crate::program::error::map(CoreErr::ShardIdOutOfRange));
    }
    match check_pda(&escrow_pda_check(&x.key, &e.key, sid, x.data[ESCROW_BUMP])) {
        Ok(()) => {},
        Err(x) => return Err(x),
    }
    let bounty_per = read_u64(x.data.as_slice(), ESCROW_BOUNTY_PER);
    let amount = match pay_amount(x.lamports, floor, n, bounty_per) {
        Ok(a) => a,
        Err(err) => return Err(err),
    };
    let ekey = e.key;
    let skey = sh.key;
    let gi0 = start + cursor;
    let ghost ms = accs.subrange(4, 4 + n);
    let ghost acc0 = get_u64(sd@, SHARD_ACC_PARTIAL as int);
    let mut acc = read_u64(sd.as_slice(), SHARD_ACC_PARTIAL);
    let mut datas: Vec<Vec<u8>> = Vec::new();
    let mut j: u64 = 0;
    assert(datas_view(datas@) =~= Seq::<Seq<u8>>::empty());
    while j < n
        invariant
            0 <= j <= n,
            accounts@ == old(accounts)@,
            datas@.len() == j,
            member_prefix(ms, ekey, skey, gi0 as int, epoch, delta, reduce, acc0, j as int) == Ok::<(Seq<Seq<u8>>, u64), ProgramError>((datas_view(datas@), acc)),
        decreases n - j,
    {
        let gi = gi0 + j;
        let m = &accounts[4 + j as usize];
        assert(m@ == ms[j as int]);
        let ghost prev = datas_view(datas@);
        match check_member(m, &ekey, &skey, gi) {
            Ok(()) => {},
            Err(x) => {
                proof { lemma_member_prefix_err(ms, ekey, skey, gi0 as int, epoch, delta, reduce, acc0, j + 1, n as int); }
                return Err(x);
            },
        }
        let mut md = copy_data(m);
        if reduce {
            if read_u64(md.as_slice(), MEMBER_LAST_REDUCE_EPOCH) < epoch {
                acc = Sum(acc).combine(Sum(read_u64(md.as_slice(), MEMBER_BODY_OFFSET))).0;
                write_u64(&mut md, MEMBER_LAST_REDUCE_EPOCH, epoch);
            }
        } else {
            if read_u64(md.as_slice(), MEMBER_LAST_APPLY_EPOCH) < epoch {
                let cur = read_u64(md.as_slice(), MEMBER_BODY_OFFSET);
                write_u64(&mut md, MEMBER_BODY_OFFSET, cur.saturating_add(delta));
                write_u64(&mut md, MEMBER_LAST_APPLY_EPOCH, epoch);
            }
        }
        datas.push(md);
        j = j + 1;
        assert(datas_view(datas@) =~= prev.push(md@));
    }
    let mut k: usize = 4 + n as usize;
    while k < count
        invariant
            4 + n <= k <= count,
            count == accounts@.len(),
            accounts@ == old(accounts)@,
            forall|i: int| 4 + n <= i < k ==> accs[i].key@ == ekey@,
        decreases count - k,
    {
        if !key_eq(&accounts[k].key, &ekey) {
            assert(accs[k as int].key@ != ekey@);
            return Err(custom(E_SENTINEL_EXPECTED));
        }
        k = k + 1;
    }
    if reduce {
        let a = Sum(acc).to_acc_bytes();
        proof { Sum::lemma_acc_roundtrip(Sum(acc)); }
        write_bytes(&mut sd, SHARD_ACC_PARTIAL, &a);
    }
    let (xl, cl) = match transfer_lamports(&accounts[2], &accounts[3], amount) {
        Ok(t) => t,
        Err(err) => return Err(err),
    };
    write_u64(&mut sd, cursor_off, cursor + n);
    let ghost ds = datas_view(datas@);
    assert(ds.take(n as int) =~= ds);
    let ghost sd_final = sd@;
    set_data(accounts, 1, sd);
    set_lamports(accounts, 2, xl);
    set_lamports(accounts, 3, cl);
    let ghost base = accounts_view(accounts@);
    let mut j: u64 = n;
    while j > 0
        invariant
            0 <= j <= n,
            accounts@.len() == count,
            datas_view(datas@) == ds.take(j as int),
            accounts_view(accounts@) == Seq::new(count as nat, |i: int|
                if 4 + j <= i < 4 + n { with_data(accs[i], ds[i - 4]) } else { base[i] }),
        decreases j,
    {
        let md = datas.pop().unwrap();
        j = j - 1;
        assert(md@ == ds[j as int]);
        set_data(accounts, 4 + j as usize, md);
        assert(datas_view(datas@) =~= ds.take(j as int));
        assert(accounts_view(accounts@) =~= Seq::new(count as nat, |i: int|
                if 4 + j <= i < 4 + n { with_data(accs[i], ds[i - 4]) } else { base[i] }));
    }
    assert(accounts_view(accounts@) =~= cranked(accs, sd_final, xl, cl, ds));
    Ok(())
}

/// advance_reduce: one REDUCE batch of at most `data[0]` members of one shard, with the
/// escrow's rent `floor`. Accounts: `[effect (r), shard (w), escrow (w), cranker (w),
/// members (w)..., sentinels...]`.
pub fn advance_reduce(accounts: &mut Vec<Account>, data: &[u8], floor: u64) -> (r: Result<(), ProgramError>)
    ensures
        match advance_spec(accounts_view(old(accounts)@), data@, floor, true) {
            Ok(new) => r is Ok && accounts_view(final(accounts)@) == new,
            Err(e) => r == Err::<(), ProgramError>(e) && final(accounts)@ == old(accounts)@,
        },
{
    advance(accounts, data, floor, true)
}

/// advance_apply: one APPLY batch of at most `data[0]` members of one shard, with the
/// escrow's rent `floor`. Accounts as for [`advance_reduce`].
pub fn advance_apply(accounts: &mut Vec<Account>, data: &[u8], floor: u64) -> (r: Result<(), ProgramError>)
    ensures
        match advance_spec(accounts_view(old(accounts)@), data@, floor, false) {
            Ok(new) => r is Ok && accounts_view(final(accounts)@) == new,
            Err(e) => r == Err::<(), ProgramError>(e) && final(accounts)@ == old(accounts)@,
        },
{
    advance(accounts, data, floor, false)
}

/// Exactly-once across re-runs (APPLY): a member already stamped with this epoch is
/// left as it is; an unstamped one is credited by `delta` once and stamped with the
/// epoch; and running the step again on the result in the same epoch changes nothing,
/// whatever the accumulator.
pub proof fn lemma_apply_once_per_epoch(
    m: AccountV,
    ekey: Pubkey,
    shard_key: Pubkey,
    gi: int,
    epoch: u64,
    delta: u64,
    acc: u64,
    acc_again: u64,
)
    requires
        member_step(m, ekey, shard_key, gi, epoch, delta, false, acc) is Ok,
    ensures
        ({
            let (d, acc2) = member_step(m, ekey, shard_key, gi, epoch, delta, false, acc)->Ok_0;
            &&& acc2 == acc
            &&& d.len() == m.data.len()
            &&& get_u64(m.data, MEMBER_LAST_APPLY_EPOCH as int) >= epoch ==> d == m.data
            &&& get_u64(m.data, MEMBER_LAST_APPLY_EPOCH as int) < epoch ==> get_u64(d, MEMBER_BODY_OFFSET as int)
                == sat_add(get_u64(m.data, MEMBER_BODY_OFFSET as int), delta) && get_u64(d, MEMBER_LAST_APPLY_EPOCH as int)
                == epoch
            &&& member_step(with_data(m, d), ekey, shard_key, gi, epoch, delta, false, acc_again)
                == Ok::<(Seq<u8>, u64), ProgramError>((d, acc_again))
        }),
{
    let md = m.data;
    if get_u64(md, MEMBER_LAST_APPLY_EPOCH as int) < epoch {
        let body = get_u64(md, MEMBER_BODY_OFFSET as int);
        let d1 = put_u64(md, MEMBER_BODY_OFFSET as int, sat_add(body, delta));
        let d = put_u64(d1, MEMBER_LAST_APPLY_EPOCH as int, epoch);
        lemma_put_u64(md, MEMBER_BODY_OFFSET as int, sat_add(body, delta));
        lemma_put_u64(d1, MEMBER_LAST_APPLY_EPOCH as int, epoch);
        lemma_get_u64_frame(d1, d, MEMBER_BODY_OFFSET as int);
        lemma_get_u64_frame(md, d, MEMBER_INDEX as int);
        assert(d.subrange(0, 8) =~= md.subrange(0, 8));
        assert(key_at(d, MEMBER_EFFECT as int) =~= key_at(md, MEMBER_EFFECT as int));
    }
}

/// Exactly-once across re-runs (REDUCE): a member already stamped with this epoch is
/// left as it is and adds nothing; an unstamped one adds its body once and is stamped;
/// and running the step again on the result in the same epoch changes nothing and adds
/// nothing, whatever the accumulator.
pub proof fn lemma_reduce_once_per_epoch(
    m: AccountV,
    ekey: Pubkey,
    shard_key: Pubkey,
    gi: int,
    epoch: u64,
    delta: u64,
    acc: u64,
    acc_again: u64,
)
    requires
        member_step(m, ekey, shard_key, gi, epoch, delta, true, acc) is Ok,
    ensures
        ({
            let (d, acc2) = member_step(m, ekey, shard_key, gi, epoch, delta, true, acc)->Ok_0;
            &&& d.len() == m.data.len()
            &&& get_u64(m.data, MEMBER_LAST_REDUCE_EPOCH as int) >= epoch ==> d == m.data && acc2 == acc
            &&& get_u64(m.data, MEMBER_LAST_REDUCE_EPOCH as int) < epoch ==> acc2 == sat_add(
                acc,
                get_u64(m.data, MEMBER_BODY_OFFSET as int),
            ) && get_u64(d, MEMBER_LAST_REDUCE_EPOCH as int) == epoch && get_u64(d, MEMBER_BODY_OFFSET as int)
                == get_u64(m.data, MEMBER_BODY_OFFSET as int)
            &&& member_step(with_data(m, d), ekey, shard_key, gi, epoch, delta, true, acc_again)
                == Ok::<(Seq<u8>, u64), ProgramError>((d, acc_again))
        }),
{
    let md = m.data;
    if get_u64(md, MEMBER_LAST_REDUCE_EPOCH as int) < epoch {
        let d = put_u64(md, MEMBER_LAST_REDUCE_EPOCH as int, epoch);
        lemma_put_u64(md, MEMBER_LAST_REDUCE_EPOCH as int, epoch);
        lemma_get_u64_frame(md, d, MEMBER_BODY_OFFSET as int);
        lemma_get_u64_frame(md, d, MEMBER_INDEX as int);
        assert(d.subrange(0, 8) =~= md.subrange(0, 8));
        assert(key_at(d, MEMBER_EFFECT as int) =~= key_at(md, MEMBER_EFFECT as int));
    }
}

/// Coverage of a batch: every member `j` of a completed prefix of `k` members went
/// through `member_step` at global index `gi0 + j`, with the accumulator of the members
/// before it, and produced entry `j` of the prefix's bytes.
pub proof fn lemma_member_prefix_ok(
    ms: Seq<AccountV>,
    ekey: Pubkey,
    shard_key: Pubkey,
    gi0: int,
    epoch: u64,
    delta: u64,
    reduce: bool,
    acc0: u64,
    k: int,
    j: int,
)
    requires
        0 <= j < k,
        member_prefix(ms, ekey, shard_key, gi0, epoch, delta, reduce, acc0, k) is Ok,
    ensures
        member_prefix(ms, ekey, shard_key, gi0, epoch, delta, reduce, acc0, k)->Ok_0.0.len() == k,
        member_prefix(ms, ekey, shard_key, gi0, epoch, delta, reduce, acc0, j) is Ok,
        member_prefix(ms, ekey, shard_key, gi0, epoch, delta, reduce, acc0, j + 1) is Ok,
        member_step(
            ms[j],
            ekey,
            shard_key,
            gi0 + j,
            epoch,
            delta,
            reduce,
            member_prefix(ms, ekey, shard_key, gi0, epoch, delta, reduce, acc0, j)->Ok_0.1,
        ) == Ok::<(Seq<u8>, u64), ProgramError>((
            member_prefix(ms, ekey, shard_key, gi0, epoch, delta, reduce, acc0, k)->Ok_0.0[j],
            member_prefix(ms, ekey, shard_key, gi0, epoch, delta, reduce, acc0, j + 1)->Ok_0.1,
        )),
    decreases k,
{
    if k > 1 {
        if member_prefix(ms, ekey, shard_key, gi0, epoch, delta, reduce, acc0, k - 1) is Err {
            lemma_member_prefix_err(ms, ekey, shard_key, gi0, epoch, delta, reduce, acc0, k - 1, k);
        }
        if j < k - 1 {
            lemma_member_prefix_ok(ms, ekey, shard_key, gi0, epoch, delta, reduce, acc0, k - 1, j);
        } else {
            lemma_member_prefix_ok(ms, ekey, shard_key, gi0, epoch, delta, reduce, acc0, k - 1, 0);
        }
    }
}

/// What a successful crank (`advance_reduce` or `advance_apply`) may change. The effect
/// is never written (the hot path leaves it read-only); the escrow that pays is the one
/// bound to this effect and this shard, it keeps at least its rent floor, and the keeper
/// gains exactly what it loses; neither has its bytes changed; only the `n` members of
/// the batch after them change, and the shard's cursor of the phase moves by exactly `n`.
pub proof fn lemma_crank_frame(accs: Seq<AccountV>, data: Seq<u8>, floor: u64, reduce: bool)
    requires
        advance_spec(accs, data, floor, reduce) is Ok,
    ensures
        ({
            let new = advance_spec(accs, data, floor, reduce)->Ok_0;
            let cursor_off = if reduce { SHARD_REDUCE_CURSOR } else { SHARD_APPLY_CURSOR };
            let epoch = get_u64(accs[0].data, EFFECT_EPOCH as int);
            let sd = shard_lazy_reset_bytes(accs[1].data, epoch);
            let n = get_u64(new[1].data, cursor_off as int) - get_u64(sd, cursor_off as int);
            &&& new.len() == accs.len()
            &&& new[0] == accs[0]
            &&& key_at(accs[2].data, ESCROW_EFFECT as int) == accs[0].key@
            &&& get_u32(accs[2].data, ESCROW_SHARD_ID as int) == get_u32(accs[1].data, SHARD_ID as int)
            &&& new[2].lamports >= floor
            &&& new[2].lamports + new[3].lamports == accs[2].lamports + accs[3].lamports
            &&& new[2].data == accs[2].data
            &&& new[3].data == accs[3].data
            &&& 0 <= n <= data[0]
            &&& forall|i: int| 4 + n <= i < accs.len() ==> new[i] == accs[i]
        }),
{
    let e = accs[0];
    let sh = accs[1];
    let epoch = get_u64(e.data, EFFECT_EPOCH as int);
    let delta = get_u64(e.data, EFFECT_PARAMS as int);
    let total = get_u64(e.data, EFFECT_TOTAL as int) as int;
    let p = get_u32(e.data, EFFECT_SHARD_COUNT as int);
    let sid = get_u32(sh.data, SHARD_ID as int);
    let cursor_off = if reduce { SHARD_REDUCE_CURSOR } else { SHARD_APPLY_CURSOR };
    let sd = shard_lazy_reset_bytes(sh.data, epoch);
    let len = len_of(total, p as int, sid as int);
    let start = start_of(total, p as int, sid as int);
    let cursor = get_u64(sd, cursor_off as int);
    let n = min_u64(data[0] as u64, (len - cursor) as u64);
    let acc0 = get_u64(sd, SHARD_ACC_PARTIAL as int);
    let ms = accs.subrange(4, 4 + n);
    lemma_partition_len_bounds(total, p as int, sid as int);
    lemma_put_u64(sh.data, SHARD_REDUCE_CURSOR as int, 0);
    lemma_put_u64(put_u64(sh.data, SHARD_REDUCE_CURSOR as int, 0), SHARD_APPLY_CURSOR as int, 0);
    lemma_put_u64(put(put_u64(put_u64(sh.data, SHARD_REDUCE_CURSOR as int, 0), SHARD_APPLY_CURSOR as int, 0), SHARD_ACC_PARTIAL as int, zeros(64)), SHARD_EPOCH as int, epoch);
    if n > 0 {
        lemma_member_prefix_ok(ms, e.key, sh.key, start + cursor, epoch, delta, reduce, acc0, n as int, 0);
    }
    let (ds, acc) = member_prefix(ms, e.key, sh.key, start + cursor, epoch, delta, reduce, acc0, n as int)->Ok_0;
    let sd2 = if reduce { put(sd, SHARD_ACC_PARTIAL as int, Sum(acc).spec_to_acc()) } else { sd };
    Sum::lemma_acc_roundtrip(Sum(acc));
    lemma_put_u64(sd2, cursor_off as int, (cursor + n) as u64);
    if reduce {
        assert(get_u64(sd2, SHARD_REDUCE_CURSOR as int) == get_u64(sd, SHARD_REDUCE_CURSOR as int)) by {
            assert(window(sd2, SHARD_REDUCE_CURSOR as int, 8) =~= window(sd, SHARD_REDUCE_CURSOR as int, 8));
        }
    }
}

/// One refund per epoch, and the escrow is never emptied below its rent floor: after a
/// successful refund the escrow holds its floor (or what it held, if that was less), and
/// refunding again in the same epoch changes nothing.
pub proof fn lemma_refund_once_per_epoch(accs: Seq<AccountV>, floor: u64)
    requires
        refund_escrow_spec(accs, floor) is Ok,
    ensures
        ({
            let new = refund_escrow_spec(accs, floor)->Ok_0;
            &&& new.len() == accs.len()
            &&& new[0] == accs[0]
            &&& new[1].lamports >= (if accs[1].lamports < floor { accs[1].lamports } else { floor })
            &&& refund_escrow_spec(new, floor) == Ok::<Seq<AccountV>, ProgramError>(new)
        }),
{
    let e = accs[0];
    let x = accs[1];
    let epoch = get_u64(e.data, EFFECT_EPOCH as int);
    let xd = put_u64(x.data, ESCROW_LAST_REFUND_EPOCH as int, epoch);
    if get_u64(x.data, ESCROW_LAST_REFUND_EPOCH as int) < epoch {
        lemma_put_u64(x.data, ESCROW_LAST_REFUND_EPOCH as int, epoch);
        assert(xd.subrange(0, 8) =~= x.data.subrange(0, 8));
        assert(key_at(xd, ESCROW_EFFECT as int) =~= key_at(x.data, ESCROW_EFFECT as int));
        assert(window(xd, ESCROW_SHARD_ID as int, 4) =~= window(x.data, ESCROW_SHARD_ID as int, 4));
        assert(xd[ESCROW_BUMP as int] == x.data[ESCROW_BUMP as int]);
    }
}

/// The batch of a crank: the global index of its first member (`start + cursor` after
/// the lazy reset) and the number of members `n = min(batch, len - cursor)`.
pub open spec fn crank_range(accs: Seq<AccountV>, data: Seq<u8>, reduce: bool) -> (int, int) {
    let cursor_off = if reduce { SHARD_REDUCE_CURSOR } else { SHARD_APPLY_CURSOR };
    let e = accs[0];
    let sh = accs[1];
    let total = get_u64(e.data, EFFECT_TOTAL as int) as int;
    let p = get_u32(e.data, EFFECT_SHARD_COUNT as int) as int;
    let sid = get_u32(sh.data, SHARD_ID as int) as int;
    let sd = shard_lazy_reset_bytes(sh.data, get_u64(e.data, EFFECT_EPOCH as int));
    let len = len_of(total, p, sid);
    let cursor = get_u64(sd, cursor_off as int);
    (start_of(total, p, sid) + cursor, min_u64(data[0] as u64, (len - cursor) as u64) as int)
}

/// A member's bytes after APPLY in `epoch`: unchanged if it was already applied in this
/// epoch, else its body credited by `delta` (saturating at `u64::MAX`) and stamped.
pub open spec fn applied_member(d: Seq<u8>, epoch: u64, delta: u64) -> Seq<u8> {
    if get_u64(d, MEMBER_LAST_APPLY_EPOCH as int) >= epoch {
        d
    } else {
        put_u64(
            put_u64(d, MEMBER_BODY_OFFSET as int, sat_add(get_u64(d, MEMBER_BODY_OFFSET as int), delta)),
            MEMBER_LAST_APPLY_EPOCH as int,
            epoch,
        )
    }
}

/// What a successful APPLY crank does to each member of its batch: member `j` (account
/// `4 + j`) is a member of this effect at global index `first + j`, at its derived
/// address, and comes out as [`applied_member`] with the effect's epoch and delta.
pub proof fn lemma_crank_applies_members(accs: Seq<AccountV>, data: Seq<u8>, floor: u64, j: int)
    requires
        advance_spec(accs, data, floor, false) is Ok,
        0 <= j < crank_range(accs, data, false).1,
    ensures
        ({
            let new = advance_spec(accs, data, floor, false)->Ok_0;
            let e = accs[0];
            let (first, n) = crank_range(accs, data, false);
            &&& 4 + j < accs.len()
            &&& member_verdict(accs[4 + j], e.key, accs[1].key, first + j) is Ok
            &&& new[4 + j].data == applied_member(
                accs[4 + j].data,
                get_u64(e.data, EFFECT_EPOCH as int),
                get_u64(e.data, EFFECT_PARAMS as int),
            )
        }),
{
    let e = accs[0];
    let sh = accs[1];
    let epoch = get_u64(e.data, EFFECT_EPOCH as int);
    let delta = get_u64(e.data, EFFECT_PARAMS as int);
    let (first, n) = crank_range(accs, data, false);
    let sd = shard_lazy_reset_bytes(sh.data, epoch);
    let acc0 = get_u64(sd, SHARD_ACC_PARTIAL as int);
    let ms = accs.subrange(4, 4 + n);
    lemma_member_prefix_ok(ms, e.key, sh.key, first, epoch, delta, false, acc0, n, j);
    assert(ms[j] == accs[4 + j]);
}

/// The per-shard control state that a shard account's bytes hold.
pub open spec fn shard_state(d: Seq<u8>) -> ShardState {
    ShardState {
        epoch: get_u64(d, SHARD_EPOCH as int),
        reduce_cursor: get_u64(d, SHARD_REDUCE_CURSOR as int),
        apply_cursor: get_u64(d, SHARD_APPLY_CURSOR as int),
    }
}

/// The control state `v` agrees with an effect's bytes `ed` and with the bytes `sd` of
/// one of its shards: status, epoch, member count, shard count, and that shard's state.
pub open spec fn describes(v: MachineView, ed: Seq<u8>, sd: Seq<u8>) -> bool {
    &&& effect_status_of(ed) == Ok::<Status, ProgramError>(v.status)
    &&& get_u64(ed, EFFECT_EPOCH as int) == v.epoch
    &&& get_u64(ed, EFFECT_TOTAL as int) == v.total
    &&& get_u32(ed, EFFECT_SHARD_COUNT as int) == v.shard_count
    &&& (get_u32(sd, SHARD_ID as int) as int) < v.shards.len()
    &&& v.shards[get_u32(sd, SHARD_ID as int) as int] == shard_state(sd)
}

/// The lazy reset of a shard's bytes is the control state's lazy reset: a stale shard
/// comes back current with both cursors at zero, a current one unchanged; its id stays.
proof fn lemma_shard_reset_state(d: Seq<u8>, epoch: u64)
    requires
        d.len() >= SHARD_LEN,
    ensures
        shard_lazy_reset_bytes(d, epoch).len() == d.len(),
        get_u32(shard_lazy_reset_bytes(d, epoch), SHARD_ID as int) == get_u32(d, SHARD_ID as int),
        shard_state(shard_lazy_reset_bytes(d, epoch)) == (if shard_state(d).epoch < epoch {
            ShardState { epoch, reduce_cursor: 0, apply_cursor: 0 }
        } else {
            shard_state(d)
        }),
{
    if get_u64(d, SHARD_EPOCH as int) < epoch {
        let d1 = put_u64(d, SHARD_REDUCE_CURSOR as int, 0);
        let d2 = put_u64(d1, SHARD_APPLY_CURSOR as int, 0);
        let d3 = put(d2, SHARD_ACC_PARTIAL as int, zeros(64));
        let d4 = put_u64(d3, SHARD_EPOCH as int, epoch);
        lemma_put_u64(d, SHARD_REDUCE_CURSOR as int, 0);
        lemma_put_u64(d1, SHARD_APPLY_CURSOR as int, 0);
        assert(d3.len() == d.len());
        lemma_put_u64(d3, SHARD_EPOCH as int, epoch);
        lemma_get_u64_frame(d1, d2, SHARD_REDUCE_CURSOR as int);
        assert(window(d3, SHARD_REDUCE_CURSOR as int, 8) =~= window(d2, SHARD_REDUCE_CURSOR as int, 8));
        assert(window(d3, SHARD_APPLY_CURSOR as int, 8) =~= window(d2, SHARD_APPLY_CURSOR as int, 8));
        lemma_get_u64_frame(d3, d4, SHARD_REDUCE_CURSOR as int);
        lemma_get_u64_frame(d3, d4, SHARD_APPLY_CURSOR as int);
        assert(window(d4, SHARD_ID as int, 4) =~= window(d, SHARD_ID as int, 4));
    }
}

/// A crank refines the control state's step. Where `v` describes the effect and the
/// shard of a successful `advance_reduce` (`reduce`) or `advance_apply`, the control
/// state's step on that shard with the same batch succeeds with the crank's count; its
/// next state is `v` with that shard's state read from the crank's new shard bytes, and
/// it describes the (unchanged) effect and the new shard again.
pub proof fn lemma_crank_refines(
    accs: Seq<AccountV>,
    data: Seq<u8>,
    floor: u64,
    reduce: bool,
    v: MachineView,
)
    requires
        advance_spec(accs, data, floor, reduce) is Ok,
        describes(v, accs[0].data, accs[1].data),
    ensures
        ({
            let new = advance_spec(accs, data, floor, reduce)->Ok_0;
            let sid = get_u32(accs[1].data, SHARD_ID as int);
            let step = if reduce {
                v.advance_reduce_next(sid, data[0] as u64)
            } else {
                v.advance_apply_next(sid, data[0] as u64)
            };
            &&& step.0 == Ok::<u64, CoreErr>(crank_range(accs, data, reduce).1 as u64)
            &&& step.1 == v.with_shard(sid as int, shard_state(new[1].data))
            &&& describes(step.1, new[0].data, new[1].data)
        }),
{
    lemma_crank_frame(accs, data, floor, reduce);
    let new = advance_spec(accs, data, floor, reduce)->Ok_0;
    let e = accs[0];
    let sh = accs[1];
    let epoch = get_u64(e.data, EFFECT_EPOCH as int);
    let delta = get_u64(e.data, EFFECT_PARAMS as int);
    let total = get_u64(e.data, EFFECT_TOTAL as int) as int;
    let p = get_u32(e.data, EFFECT_SHARD_COUNT as int);
    let sid = get_u32(sh.data, SHARD_ID as int);
    let cursor_off = if reduce { SHARD_REDUCE_CURSOR } else { SHARD_APPLY_CURSOR };
    let sd = shard_lazy_reset_bytes(sh.data, epoch);
    let len = len_of(total, p as int, sid as int);
    let start = start_of(total, p as int, sid as int);
    let cursor = get_u64(sd, cursor_off as int);
    let n = min_u64(data[0] as u64, (len - cursor) as u64);
    let acc0 = get_u64(sd, SHARD_ACC_PARTIAL as int);
    let ms = accs.subrange(4, 4 + n);
    lemma_shard_reset_state(sh.data, epoch);
    assert(shard_state(sd) == v.touched(sid as int));
    lemma_partition_len_bounds(total, p as int, sid as int);
    let (ds, acc) = member_prefix(ms, e.key, sh.key, start + cursor, epoch, delta, reduce, acc0, n as int)->Ok_0;
    let sd2 = if reduce { put(sd, SHARD_ACC_PARTIAL as int, Sum(acc).spec_to_acc()) } else { sd };
    Sum::lemma_acc_roundtrip(Sum(acc));
    assert(sd2.len() == sd.len());
    assert(window(sd2, SHARD_EPOCH as int, 8) =~= window(sd, SHARD_EPOCH as int, 8));
    assert(window(sd2, SHARD_REDUCE_CURSOR as int, 8) =~= window(sd, SHARD_REDUCE_CURSOR as int, 8));
    assert(window(sd2, SHARD_APPLY_CURSOR as int, 8) =~= window(sd, SHARD_APPLY_CURSOR as int, 8));
    assert(window(sd2, SHARD_ID as int, 4) =~= window(sd, SHARD_ID as int, 4));
    let nd = put_u64(sd2, cursor_off as int, (cursor + n) as u64);
    lemma_put_u64(sd2, cursor_off as int, (cursor + n) as u64);
    lemma_get_u64_frame(sd2, nd, SHARD_EPOCH as int);
    if reduce {
        lemma_get_u64_frame(sd2, nd, SHARD_APPLY_CURSOR as int);
    } else {
        lemma_get_u64_frame(sd2, nd, SHARD_REDUCE_CURSOR as int);
    }
    assert(window(nd, SHARD_ID as int, 4) =~= window(sd2, SHARD_ID as int, 4));
    assert(new[1].data == nd);
    let t = v.touched(sid as int);
    let expected = if reduce {
        ShardState { reduce_cursor: (t.reduce_cursor + n) as u64, ..t }
    } else {
        ShardState { apply_cursor: (t.apply_cursor + n) as u64, ..t }
    };
    assert(shard_state(nd) == expected);
    assert(v.with_shard(sid as int, t).with_shard(sid as int, expected) == v.with_shard(sid as int, expected)) by {
        assert(v.with_shard(sid as int, t).with_shard(sid as int, expected).shards =~= v.with_shard(sid as int, expected).shards);
    }
}

/// The control state `v` agrees with an effect's bytes `ed` on the fields a promotion
/// reads and writes (status, epoch, member count, shard count, merge cursor, shards done)
/// and on the state of each listed shard.
pub open spec fn describes_promotion(v: MachineView, ed: Seq<u8>, shards: Seq<AccountV>) -> bool {
    &&& effect_status_of(ed) == Ok::<Status, ProgramError>(v.status)
    &&& get_u64(ed, EFFECT_EPOCH as int) == v.epoch
    &&& get_u64(ed, EFFECT_TOTAL as int) == v.total
    &&& get_u32(ed, EFFECT_SHARD_COUNT as int) == v.shard_count
    &&& get_u32(ed, EFFECT_MERGE_CURSOR as int) == v.merge_cursor
    &&& get_u32(ed, EFFECT_SHARDS_DONE as int) == v.shards_done
    &&& forall|k: int|
        0 <= k < shards.len() ==> (get_u32(#[trigger] shards[k].data, SHARD_ID as int) as int)
            < v.shards.len() && v.shards[get_u32(shards[k].data, SHARD_ID as int) as int]
            == shard_state(shards[k].data)
}

/// The shard ids that the listed shard accounts hold, in order.
pub open spec fn shard_ids(shards: Seq<AccountV>) -> Seq<u32> {
    shards.map_values(|a: AccountV| get_u32(a.data, SHARD_ID as int))
}

/// One promotion step refines one step of the control state's merge (resp. count): the
/// same verdict, and the counter moves by one in both.
proof fn lemma_promote_run_refines(
    ed: Seq<u8>,
    ekey: Pubkey,
    shards: Seq<AccountV>,
    reduce: bool,
    v: MachineView,
)
    requires
        promote_run(ed, ekey, shards, reduce) matches Some(Ok(_)),
        ed.len() >= EFFECT_LEN,
        describes_promotion(v, ed, shards),
    ensures
        ({
            let ed2 = promote_run(ed, ekey, shards, reduce)->Some_0->Ok_0;
            let run = if reduce {
                v.merge_run(shard_ids(shards))
            } else {
                v.finish_run(shard_ids(shards))
            };
            &&& run.0 is Ok
            &&& ed2.len() == ed.len()
            &&& describes_promotion(run.1, ed2, shards)
            &&& run.1.shards == v.shards
            &&& run.1.status == v.status
            &&& reduce ==> run.1.shards_done == v.shards_done
            &&& !reduce ==> run.1.merge_cursor == v.merge_cursor
        }),
    decreases shards.len(),
{
    if shards.len() > 0 {
        let counter_off = if reduce { EFFECT_MERGE_CURSOR } else { EFFECT_SHARDS_DONE };
        let sh = shards[0];
        let sid = get_u32(sh.data, SHARD_ID as int);
        let next = get_u32(ed, counter_off as int);
        let merged = if reduce {
            put(
                ed,
                EFFECT_ACC_GLOBAL as int,
                Sum(get_u64(ed, EFFECT_ACC_GLOBAL as int)).spec_combine(
                    Sum(get_u64(sh.data, SHARD_ACC_PARTIAL as int)),
                ).spec_to_acc(),
            )
        } else {
            ed
        };
        Sum::lemma_acc_roundtrip(
            Sum(get_u64(ed, EFFECT_ACC_GLOBAL as int)).spec_combine(
                Sum(get_u64(sh.data, SHARD_ACC_PARTIAL as int)),
            ),
        );
        assert(merged.len() == ed.len());
        assert(merged[EFFECT_STATUS as int] == ed[EFFECT_STATUS as int]);
        assert(window(merged, EFFECT_EPOCH as int, 8) =~= window(ed, EFFECT_EPOCH as int, 8));
        assert(window(merged, EFFECT_TOTAL as int, 8) =~= window(ed, EFFECT_TOTAL as int, 8));
        assert(window(merged, EFFECT_SHARD_COUNT as int, 4) =~= window(ed, EFFECT_SHARD_COUNT as int, 4));
        assert(window(merged, EFFECT_MERGE_CURSOR as int, 4) =~= window(ed, EFFECT_MERGE_CURSOR as int, 4));
        assert(window(merged, EFFECT_SHARDS_DONE as int, 4) =~= window(ed, EFFECT_SHARDS_DONE as int, 4));
        let ed1 = put_u32(merged, counter_off as int, (next + 1) as u32);
        lemma_put_u32(merged, counter_off as int, (next + 1) as u32);
        assert(ed1[EFFECT_STATUS as int] == ed[EFFECT_STATUS as int]);
        assert(window(ed1, EFFECT_EPOCH as int, 8) =~= window(ed, EFFECT_EPOCH as int, 8));
        assert(window(ed1, EFFECT_TOTAL as int, 8) =~= window(ed, EFFECT_TOTAL as int, 8));
        assert(window(ed1, EFFECT_SHARD_COUNT as int, 4) =~= window(ed, EFFECT_SHARD_COUNT as int, 4));
        if reduce {
            assert(window(ed1, EFFECT_SHARDS_DONE as int, 4) =~= window(ed, EFFECT_SHARDS_DONE as int, 4));
        } else {
            assert(window(ed1, EFFECT_MERGE_CURSOR as int, 4) =~= window(ed, EFFECT_MERGE_CURSOR as int, 4));
        }
        assert(promote_step(ed, ekey, sh, reduce) == Some(Ok::<Seq<u8>, ProgramError>(ed1)));
        let w = if reduce {
            MachineView { merge_cursor: (v.merge_cursor + 1) as u32, ..v }
        } else {
            MachineView { shards_done: (v.shards_done + 1) as u32, ..v }
        };
        assert(shard_ids(shards)[0] == sid);
        assert(shard_ids(shards).drop_first() =~= shard_ids(shards.drop_first()));
        assert(describes_promotion(w, ed1, shards.drop_first())) by {
            assert forall|k: int| 0 <= k < shards.drop_first().len() implies (get_u32(
                #[trigger] shards.drop_first()[k].data,
                SHARD_ID as int,
            ) as int) < w.shards.len() && w.shards[get_u32(
                shards.drop_first()[k].data,
                SHARD_ID as int,
            ) as int] == shard_state(shards.drop_first()[k].data) by {
                assert(shards.drop_first()[k] == shards[k + 1]);
            }
        }
        lemma_promote_run_refines(ed1, ekey, shards.drop_first(), reduce, w);
        let ed2 = promote_run(ed, ekey, shards, reduce)->Some_0->Ok_0;
        let run = if reduce {
            v.merge_run(shard_ids(shards))
        } else {
            v.finish_run(shard_ids(shards))
        };
        assert(describes_promotion(run.1, ed2, shards)) by {
            assert forall|k: int| 0 <= k < shards.len() implies (get_u32(
                #[trigger] shards[k].data,
                SHARD_ID as int,
            ) as int) < run.1.shards.len() && run.1.shards[get_u32(shards[k].data, SHARD_ID as int) as int]
                == shard_state(shards[k].data) by {
                if k > 0 {
                    assert(shards[k] == shards.drop_first()[k - 1]);
                }
            }
        }
    }
}

/// A promotion refines the control state's promotion. Where `v` describes the effect and
/// the listed shards of a successful `reduce_shards` (`reduce`) or `try_finish_apply`,
/// the control state's `reduce_shards` (resp. `try_finish_apply`) over the same shard ids
/// succeeds, changes no shard, and its next state describes the new effect bytes and the
/// (unchanged) shards.
pub proof fn lemma_promotion_refines(accs: Seq<AccountV>, reduce: bool, v: MachineView)
    requires
        promote_spec(accs, reduce) matches Some(Ok(_)),
        describes_promotion(v, accs[0].data, accs.skip(1)),
    ensures
        ({
            let new = promote_spec(accs, reduce)->Some_0->Ok_0;
            let step = if reduce {
                v.reduce_shards_next(shard_ids(accs.skip(1)))
            } else {
                v.try_finish_apply_next(shard_ids(accs.skip(1)))
            };
            &&& step.0 is Ok
            &&& new.skip(1) == accs.skip(1)
            &&& step.1.shards == v.shards
            &&& describes_promotion(step.1, new[0].data, new.skip(1))
        }),
{
    let e = accs[0];
    let new = promote_spec(accs, reduce)->Some_0->Ok_0;
    let promoted = if reduce { Status::Reduced } else { Status::Done };
    let counter_off = if reduce { EFFECT_MERGE_CURSOR } else { EFFECT_SHARDS_DONE };
    lemma_promote_run_refines(e.data, e.key, accs.skip(1), reduce, v);
    let ed = promote_run(e.data, e.key, accs.skip(1), reduce)->Some_0->Ok_0;
    assert(new.skip(1) =~= accs.skip(1));
    if get_u32(ed, counter_off as int) == get_u32(ed, EFFECT_SHARD_COUNT as int) {
        let fd = put_u8(ed, EFFECT_STATUS as int, status_code(promoted));
        lemma_status_code_roundtrip(promoted, 0);
        assert(window(fd, EFFECT_EPOCH as int, 8) =~= window(ed, EFFECT_EPOCH as int, 8));
        assert(window(fd, EFFECT_TOTAL as int, 8) =~= window(ed, EFFECT_TOTAL as int, 8));
        assert(window(fd, EFFECT_SHARD_COUNT as int, 4) =~= window(ed, EFFECT_SHARD_COUNT as int, 4));
        assert(window(fd, EFFECT_MERGE_CURSOR as int, 4) =~= window(ed, EFFECT_MERGE_CURSOR as int, 4));
        assert(window(fd, EFFECT_SHARDS_DONE as int, 4) =~= window(ed, EFFECT_SHARDS_DONE as int, 4));
        assert(new[0].data == fd);
    }
}

/// A skip refines the control state's skip. Where `v` (keeping its invariant) describes
/// the effect and the shard of a successful `skip_reduce` (`reduce`) or `skip`, and holds
/// the effect's skip counter of that phase, the control state's skip of that shard
/// succeeds; its next state is `v` with that shard's state read from the new shard bytes
/// and the counter grown by one, and it describes the new effect and shard bytes and
/// holds their counter.
pub proof fn lemma_skip_refines(accs: Seq<AccountV>, reduce: bool, v: MachineView)
    requires
        skip_spec(accs, reduce) matches Some(Ok(_)),
        v.wf(),
        describes(v, accs[0].data, accs[1].data),
        get_u64(accs[0].data, skip_fields(reduce).2 as int) == (if reduce {
            v.reduce_skipped
        } else {
            v.apply_skipped
        }),
    ensures
        ({
            let new = skip_spec(accs, reduce)->Some_0->Ok_0;
            let sid = get_u32(accs[1].data, SHARD_ID as int);
            let step = if reduce {
                v.skip_reduce_next(sid)
            } else {
                v.skip_next(sid)
            };
            &&& step.0 is Ok
            &&& step.1.shards == v.with_shard(sid as int, shard_state(new[1].data)).shards
            &&& describes(step.1, new[0].data, new[1].data)
            &&& get_u64(new[0].data, skip_fields(reduce).2 as int) == (if reduce {
                step.1.reduce_skipped
            } else {
                step.1.apply_skipped
            })
        }),
{
    let (phase, cursor_off, counter_off) = skip_fields(reduce);
    let new = skip_spec(accs, reduce)->Some_0->Ok_0;
    let e = accs[0];
    let sh = accs[1];
    let epoch = get_u64(e.data, EFFECT_EPOCH as int);
    let sid = get_u32(sh.data, SHARD_ID as int);
    let sd = shard_lazy_reset_bytes(sh.data, epoch);
    let cursor = get_u64(sd, cursor_off as int);
    let skipped = get_u64(e.data, counter_off as int);
    lemma_shard_reset_state(sh.data, epoch);
    assert(shard_state(sd) == v.touched(sid as int));
    let nd = put_u64(sd, cursor_off as int, (cursor + 1) as u64);
    lemma_put_u64(sd, cursor_off as int, (cursor + 1) as u64);
    lemma_get_u64_frame(sd, nd, SHARD_EPOCH as int);
    if reduce {
        lemma_get_u64_frame(sd, nd, SHARD_APPLY_CURSOR as int);
    } else {
        lemma_get_u64_frame(sd, nd, SHARD_REDUCE_CURSOR as int);
    }
    assert(window(nd, SHARD_ID as int, 4) =~= window(sd, SHARD_ID as int, 4));
    assert(new[1].data == nd);
    let ed = put_u64(e.data, counter_off as int, (skipped + 1) as u64);
    lemma_put_u64(e.data, counter_off as int, (skipped + 1) as u64);
    assert(ed[EFFECT_STATUS as int] == e.data[EFFECT_STATUS as int]);
    assert(window(ed, EFFECT_EPOCH as int, 8) =~= window(e.data, EFFECT_EPOCH as int, 8));
    assert(window(ed, EFFECT_TOTAL as int, 8) =~= window(e.data, EFFECT_TOTAL as int, 8));
    assert(window(ed, EFFECT_SHARD_COUNT as int, 4) =~= window(e.data, EFFECT_SHARD_COUNT as int, 4));
    assert(new[0].data == ed);
    let t = v.touched(sid as int);
    let expected = if reduce {
        ShardState { reduce_cursor: (t.reduce_cursor + 1) as u64, ..t }
    } else {
        ShardState { apply_cursor: (t.apply_cursor + 1) as u64, ..t }
    };
    assert(shard_state(nd) == expected);
    assert(v.with_shard(sid as int, t).with_shard(sid as int, expected).shards =~= v.with_shard(sid as int, expected).shards);
}

/// The partial accumulators that the listed shards hold, added up.
pub open spec fn partial_total(shards: Seq<AccountV>) -> int
    decreases shards.len(),
{
    if shards.len() == 0 {
        0
    } else {
        get_u64(shards[0].data, SHARD_ACC_PARTIAL as int) + partial_total(shards.drop_first())
    }
}

proof fn lemma_merge_run_sums(ed: Seq<u8>, ekey: Pubkey, shards: Seq<AccountV>)
    requires
        promote_run(ed, ekey, shards, true) matches Some(Ok(_)),
        ed.len() >= EFFECT_LEN,
    ensures
        promote_run(ed, ekey, shards, true)->Some_0->Ok_0.len() == ed.len(),
        get_u64(promote_run(ed, ekey, shards, true)->Some_0->Ok_0, EFFECT_ACC_GLOBAL as int) == min(
            u64::MAX as int,
            get_u64(ed, EFFECT_ACC_GLOBAL as int) + partial_total(shards),
        ),
    decreases shards.len(),
{
    if shards.len() > 0 {
        let sh = shards[0];
        let a = get_u64(ed, EFFECT_ACC_GLOBAL as int);
        let q = get_u64(sh.data, SHARD_ACC_PARTIAL as int);
        let next = get_u32(ed, EFFECT_MERGE_CURSOR as int);
        let acc = Sum(a).spec_combine(Sum(q));
        Sum::lemma_acc_roundtrip(acc);
        let merged = put(ed, EFFECT_ACC_GLOBAL as int, acc.spec_to_acc());
        assert(window(merged, EFFECT_ACC_GLOBAL as int, 8) =~= window(acc.spec_to_acc(), 0, 8));
        assert(get_u64(merged, EFFECT_ACC_GLOBAL as int) == acc.0);
        let ed1 = put_u32(merged, EFFECT_MERGE_CURSOR as int, (next + 1) as u32);
        lemma_put_u32(merged, EFFECT_MERGE_CURSOR as int, (next + 1) as u32);
        assert(window(ed1, EFFECT_ACC_GLOBAL as int, 8) =~= window(merged, EFFECT_ACC_GLOBAL as int, 8));
        assert(promote_step(ed, ekey, sh, true) == Some(Ok::<Seq<u8>, ProgramError>(ed1)));
        lemma_merge_run_sums(ed1, ekey, shards.drop_first());
        lemma_partial_total_nonneg(shards.drop_first());
    }
}

proof fn lemma_partial_total_nonneg(shards: Seq<AccountV>)
    ensures
        partial_total(shards) >= 0,
    decreases shards.len(),
{
    if shards.len() > 0 {
        lemma_partial_total_nonneg(shards.drop_first());
    }
}

/// `reduce_shards` folds every shard it merges into `acc_global`: the new `acc_global` is
/// the old one plus the partial accumulators of all the listed shards, saturating at
/// `u64::MAX`. Once the effect is `Reduced` from a zero `acc_global`, it is the sum of
/// every shard's partial.
pub proof fn lemma_reduce_shards_sums_partials(accs: Seq<AccountV>)
    requires
        promote_spec(accs, true) matches Some(Ok(_)),
    ensures
        get_u64(promote_spec(accs, true)->Some_0->Ok_0[0].data, EFFECT_ACC_GLOBAL as int) == min(
            u64::MAX as int,
            get_u64(accs[0].data, EFFECT_ACC_GLOBAL as int) + partial_total(accs.skip(1)),
        ),
{
    let e = accs[0];
    lemma_merge_run_sums(e.data, e.key, accs.skip(1));
    let ed = promote_run(e.data, e.key, accs.skip(1), true)->Some_0->Ok_0;
    let fd = put_u8(ed, EFFECT_STATUS as int, status_code(Status::Reduced));
    assert(window(fd, EFFECT_ACC_GLOBAL as int, 8) =~= window(ed, EFFECT_ACC_GLOBAL as int, 8));
}

/// Eight zero bytes read as zero.
proof fn lemma_zeros_read_zero(s: Seq<u8>)
    requires
        s =~= zeros(8),
    ensures
        spec_u64_from_le_bytes(s) == 0,
{
    spec_u64_to_le_bytes_to_open(0);
    assert(((0u64 >> 8u64) & 0xff) == 0 && ((0u64 >> 16u64) & 0xff) == 0 && ((0u64 >> 24u64) & 0xff) == 0
        && ((0u64 >> 32u64) & 0xff) == 0 && ((0u64 >> 40u64) & 0xff) == 0 && ((0u64 >> 48u64) & 0xff) == 0
        && ((0u64 >> 56u64) & 0xff) == 0 && (0u64 & 0xff) == 0) by (bit_vector);
    assert(spec_u64_to_le_bytes_open(0) =~= s);
    lemma_auto_spec_u64_to_from_le_bytes();
}

/// The bodies of the first `k` members of `ms` that REDUCE has not yet counted in
/// `epoch`, added up.
pub open spec fn unreduced_total(ms: Seq<AccountV>, epoch: u64, k: int) -> int
    decreases k,
{
    if k <= 0 {
        0
    } else {
        unreduced_total(ms, epoch, k - 1) + if get_u64(ms[k - 1].data, MEMBER_LAST_REDUCE_EPOCH as int)
            < epoch {
            get_u64(ms[k - 1].data, MEMBER_BODY_OFFSET as int) as int
        } else {
            0
        }
    }
}

proof fn lemma_member_prefix_reduce_sum(
    ms: Seq<AccountV>,
    ekey: Pubkey,
    shard_key: Pubkey,
    gi0: int,
    epoch: u64,
    delta: u64,
    acc0: u64,
    k: int,
)
    requires
        member_prefix(ms, ekey, shard_key, gi0, epoch, delta, true, acc0, k) is Ok,
    ensures
        member_prefix(ms, ekey, shard_key, gi0, epoch, delta, true, acc0, k)->Ok_0.1 == min(
            u64::MAX as int,
            acc0 + unreduced_total(ms, epoch, k),
        ),
    decreases k,
{
    if k > 0 {
        if member_prefix(ms, ekey, shard_key, gi0, epoch, delta, true, acc0, k - 1) is Err {
            lemma_member_prefix_err(ms, ekey, shard_key, gi0, epoch, delta, true, acc0, k - 1, k);
        }
        lemma_member_prefix_reduce_sum(ms, ekey, shard_key, gi0, epoch, delta, acc0, k - 1);
    }
}

/// Resumable REDUCE: a crank adds to the shard's partial accumulator as it stood (zero
/// for a shard first touched in this epoch) the bodies of the batch's members not yet
/// counted in this epoch, saturating at `u64::MAX`; so successive batches add up.
pub proof fn lemma_reduce_crank_adds_bodies(accs: Seq<AccountV>, data: Seq<u8>, floor: u64)
    requires
        advance_spec(accs, data, floor, true) is Ok,
    ensures
        ({
            let new = advance_spec(accs, data, floor, true)->Ok_0;
            let epoch = get_u64(accs[0].data, EFFECT_EPOCH as int);
            let before = if get_u64(accs[1].data, SHARD_EPOCH as int) < epoch {
                0
            } else {
                get_u64(accs[1].data, SHARD_ACC_PARTIAL as int) as int
            };
            let n = crank_range(accs, data, true).1;
            get_u64(new[1].data, SHARD_ACC_PARTIAL as int) == min(
                u64::MAX as int,
                before + unreduced_total(accs.subrange(4, 4 + n), epoch, n),
            )
        }),
{
    lemma_crank_frame(accs, data, floor, true);
    let e = accs[0];
    let sh = accs[1];
    let epoch = get_u64(e.data, EFFECT_EPOCH as int);
    let delta = get_u64(e.data, EFFECT_PARAMS as int);
    let total = get_u64(e.data, EFFECT_TOTAL as int) as int;
    let p = get_u32(e.data, EFFECT_SHARD_COUNT as int);
    let sid = get_u32(sh.data, SHARD_ID as int);
    let sd = shard_lazy_reset_bytes(sh.data, epoch);
    let start = start_of(total, p as int, sid as int);
    let cursor = get_u64(sd, SHARD_REDUCE_CURSOR as int);
    let n = crank_range(accs, data, true).1;
    let acc0 = get_u64(sd, SHARD_ACC_PARTIAL as int);
    let ms = accs.subrange(4, 4 + n);
    if get_u64(sh.data, SHARD_EPOCH as int) < epoch {
        let d1 = put_u64(sh.data, SHARD_REDUCE_CURSOR as int, 0);
        let d2 = put_u64(d1, SHARD_APPLY_CURSOR as int, 0);
        let d3 = put(d2, SHARD_ACC_PARTIAL as int, zeros(64));
        lemma_put_u64(sh.data, SHARD_REDUCE_CURSOR as int, 0);
        lemma_put_u64(d1, SHARD_APPLY_CURSOR as int, 0);
        assert(window(d3, SHARD_ACC_PARTIAL as int, 8) =~= zeros(8));
        lemma_put_u64(d3, SHARD_EPOCH as int, epoch);
        lemma_get_u64_frame(d3, sd, SHARD_ACC_PARTIAL as int);
        assert(window(sd, SHARD_ACC_PARTIAL as int, 8) =~= zeros(8));
        lemma_zeros_read_zero(window(sd, SHARD_ACC_PARTIAL as int, 8));
    }
    lemma_member_prefix_reduce_sum(ms, e.key, sh.key, start + cursor, epoch, delta, acc0, n);
    let (ds, acc) = member_prefix(ms, e.key, sh.key, start + cursor, epoch, delta, true, acc0, n)->Ok_0;
    let sd2 = put(sd, SHARD_ACC_PARTIAL as int, Sum(acc).spec_to_acc());
    Sum::lemma_acc_roundtrip(Sum(acc));
    assert(window(sd2, SHARD_ACC_PARTIAL as int, 8) =~= window(Sum(acc).spec_to_acc(), 0, 8));
    let nd = put_u64(sd2, SHARD_REDUCE_CURSOR as int, (cursor + n) as u64);
    lemma_put_u64(sd2, SHARD_REDUCE_CURSOR as int, (cursor + n) as u64);
    lemma_get_u64_frame(sd2, nd, SHARD_ACC_PARTIAL as int);
}

/// A reset re-enters the effect's first work phase in the next epoch: `Reducing` (1)
/// when its flags require REDUCE, else `Applying` (3), with the promotion counters, skip
/// counters and `acc_global` back at zero and the finalized flag cleared.
pub proof fn lemma_reset_reenters_first_phase(accs: Seq<AccountV>)
    requires
        reset_spec(accs) matches Some(Ok(_)),
    ensures
        ({
            let d = accs[0].data;
            let nd = reset_spec(accs)->Some_0->Ok_0[0].data;
            &&& nd[EFFECT_STATUS as int] == (if d[EFFECT_FLAGS as int] & 2 != 0 { 1u8 } else { 3u8 })
            &&& get_u64(nd, EFFECT_EPOCH as int) == get_u64(d, EFFECT_EPOCH as int) + 1
            &&& get_u32(nd, EFFECT_SHARDS_DONE as int) == 0
            &&& get_u32(nd, EFFECT_MERGE_CURSOR as int) == 0
            &&& get_u64(nd, EFFECT_ACC_GLOBAL as int) == 0
            &&& get_u64(nd, EFFECT_REDUCE_SKIPPED as int) == 0
            &&& get_u64(nd, EFFECT_APPLY_SKIPPED as int) == 0
            &&& nd[EFFECT_FLAGS as int] & 32 == 0
            &&& get_u64(nd, EFFECT_TOTAL as int) == get_u64(d, EFFECT_TOTAL as int)
            &&& get_u32(nd, EFFECT_SHARD_COUNT as int) == get_u32(d, EFFECT_SHARD_COUNT as int)
        }),
{
    let d = accs[0].data;
    let flags = d[EFFECT_FLAGS as int];
    let a = put_u64(d, EFFECT_EPOCH as int, (get_u64(d, EFFECT_EPOCH as int) + 1) as u64);
    let b = put_u32(a, EFFECT_SHARDS_DONE as int, 0);
    let d1 = put_u32(b, EFFECT_MERGE_CURSOR as int, 0);
    let c = put(d1, EFFECT_ACC_GLOBAL as int, zeros(64));
    let f = put_u64(c, EFFECT_REDUCE_SKIPPED as int, 0);
    let d2 = put_u64(f, EFFECT_APPLY_SKIPPED as int, 0);
    let g = put_u8(d2, EFFECT_FLAGS as int, flags & !FLAG_FINALIZED);
    let nd = put_u8(g, EFFECT_STATUS as int, status_code(work_phase_of(flags)));
    lemma_put_u64(d, EFFECT_EPOCH as int, (get_u64(d, EFFECT_EPOCH as int) + 1) as u64);
    lemma_put_u32(a, EFFECT_SHARDS_DONE as int, 0);
    lemma_put_u32(b, EFFECT_MERGE_CURSOR as int, 0);
    lemma_put_u64(c, EFFECT_REDUCE_SKIPPED as int, 0);
    lemma_put_u64(f, EFFECT_APPLY_SKIPPED as int, 0);
    assert(nd == reset_bytes(d));
    assert(flags & 2 != 0 <==> flags & FLAG_REQUIRES_REDUCE != 0);
    assert((flags & !32u8) & 32 == 0) by (bit_vector);
    assert(window(nd, EFFECT_EPOCH as int, 8) =~= window(d2, EFFECT_EPOCH as int, 8));
    lemma_get_u64_frame(a, d2, EFFECT_EPOCH as int);
    assert(window(nd, EFFECT_SHARDS_DONE as int, 4) =~= window(b, EFFECT_SHARDS_DONE as int, 4));
    assert(window(nd, EFFECT_MERGE_CURSOR as int, 4) =~= window(d1, EFFECT_MERGE_CURSOR as int, 4));
    assert(window(nd, EFFECT_ACC_GLOBAL as int, 8) =~= zeros(8));
    lemma_zeros_read_zero(window(nd, EFFECT_ACC_GLOBAL as int, 8));
    assert(window(nd, EFFECT_REDUCE_SKIPPED as int, 8) =~= window(d2, EFFECT_REDUCE_SKIPPED as int, 8));
    lemma_get_u64_frame(f, d2, EFFECT_REDUCE_SKIPPED as int);
    assert(window(nd, EFFECT_APPLY_SKIPPED as int, 8) =~= window(d2, EFFECT_APPLY_SKIPPED as int, 8));
    assert(window(nd, EFFECT_TOTAL as int, 8) =~= window(d, EFFECT_TOTAL as int, 8));
    assert(window(nd, EFFECT_SHARD_COUNT as int, 4) =~= window(d, EFFECT_SHARD_COUNT as int, 4));
}

/// Sharding is gated by the order-independent flag alone: on a request of the full
/// length, `init_effect` refuses with `NotShardable` (13) exactly when the request is
/// not for an external accumulator and its shard count is zero, or above one without the
/// order-independent flag (4). With that flag, a request for any shard count of at least
/// one succeeds whenever the same request for one shard does.
pub proof fn lemma_init_effect_shardable(accs: Seq<AccountV>, data: Seq<u8>)
    requires
        accs.len() >= 2,
        data.len() >= 134,
    ensures
        (init_effect_spec(accs, data) == Err::<Seq<AccountV>, ProgramError>(ProgramError::Custom(13)))
            <==> (data[1] & 16 == 0 && (get_u32(data, 2) == 0 || (get_u32(data, 2) > 1 && data[1] & 4
            == 0))),
        data[1] & 4 != 0 && get_u32(data, 2) >= 1 && init_effect_spec(accs, put_u32(data, 2, 1)) is Ok
            ==> init_effect_spec(accs, data) is Ok,
{
    assert(FLAG_ACC_EXTERNAL == 16 && FLAG_ORDER_INDEPENDENT == 4);
    let d1 = put_u32(data, 2, 1);
    lemma_put_u32(data, 2, 1);
    assert(d1[0] == data[0] && d1[1] == data[1]);
}

/// A created effect is `Pending` (0) at epoch 1 with no members yet, and holds the
/// requested flags, shard count, parameters and the signing authority.
pub proof fn lemma_init_effect_creates_pending(accs: Seq<AccountV>, data: Seq<u8>)
    requires
        init_effect_spec(accs, data) is Ok,
    ensures
        ({
            let new = init_effect_spec(accs, data)->Ok_0;
            let nd = new[0].data;
            &&& new.len() == accs.len()
            &&& nd.len() == accs[0].data.len()
            &&& nd[EFFECT_STATUS as int] == 0
            &&& nd[EFFECT_FLAGS as int] == data[1]
            &&& get_u32(nd, EFFECT_SHARD_COUNT as int) == get_u32(data, 2)
            &&& get_u64(nd, EFFECT_EPOCH as int) == 1
            &&& get_u64(nd, EFFECT_TOTAL as int) == 0
            &&& window(nd, EFFECT_PARAMS as int, 128) == data.subrange(6, 134)
            &&& window(nd, EFFECT_AUTHORITY as int, 32) == accs[1].key@
            &&& forall|i: int| 1 <= i < accs.len() ==> new[i] == accs[i]
        }),
{
    let d = accs[0].data;
    let sc = get_u32(data, 2);
    let flags = data[1];
    let d1 = put_u8(put_u8(put_u8(put(d, 0, DISC_EFFECT@), EFFECT_VERSION as int, VERSION_EFFECT), EFFECT_BUMP as int, data[0]), EFFECT_FLAGS as int, flags);
    let a = put_u8(d1, EFFECT_STATUS as int, 0);
    let b = put_u64(a, EFFECT_EPOCH as int, 1);
    let d2 = put(b, EFFECT_ACC_GLOBAL as int, zeros(64));
    let c = put_u32(d2, EFFECT_SHARD_COUNT as int, sc);
    let f = put_u64(c, EFFECT_TOTAL as int, 0);
    let d3 = put_u32(put_u32(f, EFFECT_SHARDS_DONE as int, 0), EFFECT_MERGE_CURSOR as int, 0);
    let d4 = put_u32(put_u64(put_u64(d3, EFFECT_REDUCE_SKIPPED as int, 0), EFFECT_APPLY_SKIPPED as int, 0), EFFECT_SHARDS_CREATED as int, 0);
    let g = put(d4, EFFECT_PARAMS as int, data.subrange(6, 134));
    let nd = put(g, EFFECT_AUTHORITY as int, accs[1].key@);
    assert(nd == init_effect_bytes(d, data[0], flags, sc, data.subrange(6, 134), accs[1].key@));
    assert(accs[1].key@.len() == 32);
    lemma_put_u64(a, EFFECT_EPOCH as int, 1);
    lemma_put_u32(d2, EFFECT_SHARD_COUNT as int, sc);
    lemma_put_u64(c, EFFECT_TOTAL as int, 0);
    assert(DISC_EFFECT@.len() == 8);
    assert(d1.len() == d.len());
    assert(b.len() == d.len());
    assert(d2.len() == d.len());
    assert(f.len() == d.len());
    lemma_put_u32(f, EFFECT_SHARDS_DONE as int, 0);
    lemma_put_u32(put_u32(f, EFFECT_SHARDS_DONE as int, 0), EFFECT_MERGE_CURSOR as int, 0);
    lemma_put_u64(d3, EFFECT_REDUCE_SKIPPED as int, 0);
    lemma_put_u64(put_u64(d3, EFFECT_REDUCE_SKIPPED as int, 0), EFFECT_APPLY_SKIPPED as int, 0);
    lemma_put_u32(put_u64(put_u64(d3, EFFECT_REDUCE_SKIPPED as int, 0), EFFECT_APPLY_SKIPPED as int, 0), EFFECT_SHARDS_CREATED as int, 0);
    assert(d4.len() == d.len());
    assert(g.len() == d.len());
    assert(nd.len() == d.len());
    assert(window(nd, EFFECT_EPOCH as int, 8) =~= window(b, EFFECT_EPOCH as int, 8));
    assert(window(nd, EFFECT_SHARD_COUNT as int, 4) =~= window(c, EFFECT_SHARD_COUNT as int, 4));
    assert(window(nd, EFFECT_TOTAL as int, 8) =~= window(f, EFFECT_TOTAL as int, 8));
    assert(window(nd, EFFECT_PARAMS as int, 128) =~= data.subrange(6, 134));
    assert(window(nd, EFFECT_AUTHORITY as int, 32) =~= accs[1].key@);
    assert(nd[EFFECT_STATUS as int] == a[EFFECT_STATUS as int]);
    assert(nd[EFFECT_FLAGS as int] == d1[EFFECT_FLAGS as int]);
}

/// What a successful REDUCE crank does to each member of its batch: member `j` (account
/// `4 + j`) is a member of this effect at global index `first + j`, at its derived
/// address; its body is left as it is, and it comes out stamped with the effect's epoch
/// for REDUCE (unchanged if it already was).
pub proof fn lemma_crank_reduces_members(accs: Seq<AccountV>, data: Seq<u8>, floor: u64, j: int)
    requires
        advance_spec(accs, data, floor, true) is Ok,
        0 <= j < crank_range(accs, data, true).1,
    ensures
        ({
            let new = advance_spec(accs, data, floor, true)->Ok_0;
            let e = accs[0];
            let (first, n) = crank_range(accs, data, true);
            let epoch = get_u64(e.data, EFFECT_EPOCH as int);
            let d = accs[4 + j].data;
            &&& 4 + j < accs.len()
            &&& member_verdict(accs[4 + j], e.key, accs[1].key, first + j) is Ok
            &&& new[4 + j].data == (if get_u64(d, MEMBER_LAST_REDUCE_EPOCH as int) >= epoch {
                d
            } else {
                put_u64(d, MEMBER_LAST_REDUCE_EPOCH as int, epoch)
            })
            &&& get_u64(new[4 + j].data, MEMBER_BODY_OFFSET as int) == get_u64(d, MEMBER_BODY_OFFSET as int)
            &&& get_u64(new[4 + j].data, MEMBER_LAST_REDUCE_EPOCH as int) >= epoch
        }),
{
    let e = accs[0];
    let sh = accs[1];
    let epoch = get_u64(e.data, EFFECT_EPOCH as int);
    let delta = get_u64(e.data, EFFECT_PARAMS as int);
    let (first, n) = crank_range(accs, data, true);
    let sd = shard_lazy_reset_bytes(sh.data, epoch);
    let acc0 = get_u64(sd, SHARD_ACC_PARTIAL as int);
    let ms = accs.subrange(4, 4 + n);
    lemma_member_prefix_ok(ms, e.key, sh.key, first, epoch, delta, true, acc0, n, j);
    assert(ms[j] == accs[4 + j]);
    let acc = member_prefix(ms, e.key, sh.key, first, epoch, delta, true, acc0, j)->Ok_0.1;
    lemma_reduce_once_per_epoch(accs[4 + j], e.key, sh.key, first + j, epoch, delta, acc, acc);
}

} // verus!
