//! freshet-royale: a battle-royale settlement built on the freshet guards.
//!
//! Each round, every enrolled player must `act`. A permissionless `sweep` then walks the
//! roster and eliminates everyone who did not act this round, players who are offline
//! and never showed up included: the effect happens whether or not the owner appears,
//! which a claim-when-you-touch-it design cannot express.
//!
//! The control flow (phase, cursor, exactly-once) comes from [`crate::state`]; this
//! module adds the Round and Player layouts, the elimination, and the account checks.
//! A single implicit shard and an unpaid sweep keep the demo on the mechanic.
//!
//! Round (68 bytes): disc 0, version 8, status 9, bump 10, round 12, total 20,
//! cursor 28, authority 36. Player (93 bytes): disc 0, version 8, bump 9, round key 12,
//! index 44, owner 52, acted_round 84, alive 92.
use crate::bytes::{
    bytes_eq, get_u64, lemma_get_u64_frame, lemma_put_u64, put, put_u64, put_u8, read_u64, window,
    write_bytes, write_u64,
};
use crate::monoid::zeros;
use crate::program::error::ProgramError;
use crate::program::instructions::{copy_data, datas_view, set_data, with_data};
use crate::program::layout::key_at;
use crate::program::security::{derive_address, derives, pda_of, PdaCheck, PdaCheckV};
use crate::program::{accounts_view, key_eq, Account, AccountV, Pubkey};
use crate::state::{advance_step, min_u64, status_code, status_of_code, Status};
use vstd::bytes::{spec_u64_to_le_bytes, u64_to_le_bytes};
use vstd::pervasive::unreached;
use vstd::prelude::*;
use vstd::slice::slice_subrange;

verus! {

/// The royale program id.
pub const ID: Pubkey = [
    9, 9, 9, 9, 9, 9, 9, 9, 9, 9, 9, 9, 9, 9, 9, 9, 9, 9, 9, 9, 9, 9, 9, 9, 9, 9, 9, 9, 9, 9, 9, 9,
];

/// "FRSHROND"
pub const DISC_ROUND: [u8; 8] = [70, 82, 83, 72, 82, 79, 78, 68];
/// "FRSHPLYR"
pub const DISC_PLAYER: [u8; 8] = [70, 82, 83, 72, 80, 76, 89, 82];

pub const E_WRONG_PHASE: u32 = 0;
pub const E_SHARD_COMPLETE: u32 = 1;
/// Owner, discriminator, derivation or bounds.
pub const E_BAD: u32 = 7;
pub const E_UNAUTH: u32 = 11;
pub const E_DEAD: u32 = 30;

pub const ROUND_LEN: usize = 68;
pub const ROUND_STATUS: usize = 9;
pub const ROUND_BUMP: usize = 10;
pub const ROUND_NUMBER: usize = 12;
pub const ROUND_TOTAL: usize = 20;
pub const ROUND_CURSOR: usize = 28;
pub const ROUND_AUTHORITY: usize = 36;

pub const PLAYER_LEN: usize = 93;
pub const PLAYER_BUMP: usize = 9;
pub const PLAYER_ROUND: usize = 12;
pub const PLAYER_INDEX: usize = 44;
pub const PLAYER_OWNER: usize = 52;
pub const PLAYER_ACTED: usize = 84;
pub const PLAYER_ALIVE: usize = 92;

/// `Custom(c)`.
pub open spec fn bad(c: u32) -> ProgramError {
    ProgramError::Custom(c)
}

/// The verdict of the account check: owned by this program, long enough, with the
/// expected discriminator.
pub open spec fn check_verdict(a: AccountV, disc: Seq<u8>, len: int) -> Result<(), ProgramError> {
    if a.owner@ != ID@ {
        Err(bad(E_BAD))
    } else if a.data.len() < len || a.data.subrange(0, 8) != disc {
        Err(bad(E_BAD))
    } else {
        Ok(())
    }
}

/// Owned by this program, at least `len` bytes, discriminator `disc`.
pub fn check(ai: &Account, disc: &[u8; 8], len: usize) -> (r: Result<(), ProgramError>)
    requires
        len >= 8,
    ensures
        r == check_verdict(ai@, disc@, len as int),
{
    if !key_eq(&ai.owner, &ID) {
        return Err(ProgramError::Custom(E_BAD));
    }
    let d = ai.data.as_slice();
    if d.len() < len || !bytes_eq(slice_subrange(d, 0, 8), disc) {
        return Err(ProgramError::Custom(E_BAD));
    }
    Ok(())
}

/// The round's phase as the guards see it: an undecodable status byte is a wrong phase.
pub open spec fn round_in(d: Seq<u8>, s: Status) -> bool {
    status_of_code(d[ROUND_STATUS as int]) == Ok::<Status, crate::state::Error>(s)
}

fn round_is(d: &[u8], s: Status) -> (r: bool)
    requires
        d@.len() > ROUND_STATUS,
    ensures
        r == round_in(d@, s),
{
    match Status::try_from(d[ROUND_STATUS]) {
        Ok(t) => t == s,
        Err(_) => false,
    }
}

/// The round authority must be `a`, and `a` must sign.
pub open spec fn authorized(rd: Seq<u8>, a: AccountV) -> bool {
    key_at(rd, ROUND_AUTHORITY as int) == a.key@ && a.is_signer
}

fn is_authorized(rd: &[u8], a: &Account) -> (r: bool)
    requires
        rd@.len() >= ROUND_LEN,
    ensures
        r == authorized(rd@, a@),
{
    bytes_eq(slice_subrange(rd, ROUND_AUTHORITY, ROUND_AUTHORITY + 32), &a.key) && a.is_signer
}

/// Seed prefix of player addresses: "ply".
pub open spec fn seed_player() -> Seq<u8> {
    seq![112u8, 108u8, 121u8]
}

/// The address check of player `index` of `round`.
pub open spec fn player_pda(key: Pubkey, round: Pubkey, index: u64, bump: u8) -> PdaCheckV {
    PdaCheckV { key, seeds: seq![seed_player(), round@, spec_u64_to_le_bytes(index), seq![bump]] }
}

/// The address check of player `index` of `round`.
pub fn player_pda_check(key: &Pubkey, round: &Pubkey, index: u64, bump: u8) -> (r: PdaCheck)
    ensures
        r@ == player_pda(*key, *round, index, bump),
{
    let prefix = vec![112u8, 108u8, 121u8];
    assert(prefix@ =~= seed_player());
    pda_of(key, prefix, round, u64_to_le_bytes(index), bump)
}

/// The verdict of the player address check: the key must derive from the seeds under
/// this program.
pub open spec fn player_pda_verdict(c: PdaCheckV) -> Result<(), ProgramError> {
    if derives(c.key, c.seeds, ID) {
        Ok(())
    } else {
        Err(bad(E_BAD))
    }
}

/// The key must be the address derived from the seeds under this program; otherwise
/// `E_BAD`.
fn verify_pda(c: &PdaCheck) -> (r: Result<(), ProgramError>)
    ensures
        r == player_pda_verdict(c@),
{
    match derive_address(&c.seeds, &ID) {
        Some(k) => if key_eq(&k, &c.key) {
            Ok(())
        } else {
            Err(ProgramError::Custom(E_BAD))
        },
        None => Err(ProgramError::Custom(E_BAD)),
    }
}

/// The bytes `open_round` writes: discriminator, version 1, status `Pending`, bump,
/// round 1 (0 is the never-acted sentinel), no players, cursor 0, the authority.
pub open spec fn open_round_bytes(d: Seq<u8>, bump: u8, authority: Pubkey) -> Seq<u8> {
    let d1 = put_u8(put_u8(put_u8(put(d, 0, DISC_ROUND@), 8, 1), ROUND_STATUS as int, status_code(Status::Pending)), ROUND_BUMP as int, bump);
    put(put_u64(put_u64(put_u64(d1, ROUND_NUMBER as int, 1), ROUND_TOTAL as int, 0), ROUND_CURSOR as int, 0), ROUND_AUTHORITY as int, authority@)
}

/// The outcome of `open_round`.
pub open spec fn open_round_spec(accs: Seq<AccountV>, data: Seq<u8>) -> Result<Seq<AccountV>, ProgramError> {
    if accs.len() < 2 {
        Err(ProgramError::NotEnoughAccountKeys)
    } else if data.len() == 0 || !accs[1].is_signer {
        Err(bad(E_UNAUTH))
    } else if accs[0].owner@ != ID@ {
        Err(bad(E_BAD))
    } else if accs[0].data.len() < ROUND_LEN || accs[0].data.subrange(0, 8) != zeros(8) {
        Err(bad(E_BAD))
    } else {
        Ok(accs.update(0, with_data(accs[0], open_round_bytes(accs[0].data, data[0], accs[1].key))))
    }
}

/// open_round: `data = [bump]`. Accounts: `[round (w, zeroed, 68 bytes), authority (signer)]`.
pub fn open_round(accounts: &mut Vec<Account>, data: &[u8]) -> (r: Result<(), ProgramError>)
    ensures
        match open_round_spec(accounts_view(old(accounts)@), data@) {
            Ok(new) => r is Ok && accounts_view(final(accounts)@) == new,
            Err(e) => r == Err::<(), ProgramError>(e) && final(accounts)@ == old(accounts)@,
        },
{
    if accounts.len() < 2 {
        return Err(ProgramError::NotEnoughAccountKeys);
    }
    if data.len() == 0 || !accounts[1].is_signer {
        return Err(ProgramError::Custom(E_UNAUTH));
    }
    let round = &accounts[0];
    if !key_eq(&round.owner, &ID) {
        return Err(ProgramError::Custom(E_BAD));
    }
    let zero: [u8; 8] = [0, 0, 0, 0, 0, 0, 0, 0];
    assert(zero@ =~= zeros(8));
    if round.data.len() < ROUND_LEN || !bytes_eq(slice_subrange(round.data.as_slice(), 0, 8), &zero) {
        return Err(ProgramError::Custom(E_BAD));
    }
    let authority = accounts[1].key;
    let mut d = copy_data(round);
    write_bytes(&mut d, 0, &DISC_ROUND);
    d.set(8, 1);
    d.set(ROUND_STATUS, Status::Pending.to_u8());
    d.set(ROUND_BUMP, data[0]);
    write_u64(&mut d, ROUND_NUMBER, 1);
    write_u64(&mut d, ROUND_TOTAL, 0);
    write_u64(&mut d, ROUND_CURSOR, 0);
    write_bytes(&mut d, ROUND_AUTHORITY, &authority);
    set_data(accounts, 0, d);
    Ok(())
}

/// The bytes `join` writes into a fresh player: discriminator, version 1, bump, the
/// round, its index, its owner, acted_round 0 (never), alive.
pub open spec fn join_bytes(d: Seq<u8>, bump: u8, round: Pubkey, index: u64, owner: Seq<u8>) -> Seq<u8> {
    let d1 = put_u8(put_u8(put(d, 0, DISC_PLAYER@), 8, 1), PLAYER_BUMP as int, bump);
    let d2 = put(put_u64(put(d1, PLAYER_ROUND as int, round@), PLAYER_INDEX as int, index), PLAYER_OWNER as int, owner);
    put_u8(put_u64(d2, PLAYER_ACTED as int, 0), PLAYER_ALIVE as int, 1)
}

/// The outcome of `join`: the player's address must derive from the round and the next
/// roster index; `None` where the roster count would overflow.
pub open spec fn join_spec(accs: Seq<AccountV>, data: Seq<u8>) -> Option<Result<Seq<AccountV>, ProgramError>> {
    if accs.len() < 3 {
        Some(Err(ProgramError::NotEnoughAccountKeys))
    } else if data.len() < 33 {
        Some(Err(ProgramError::InvalidInstructionData))
    } else if check_verdict(accs[0], DISC_ROUND@, ROUND_LEN as int) is Err {
        Some(Err(check_verdict(accs[0], DISC_ROUND@, ROUND_LEN as int)->Err_0))
    } else {
        let rd = accs[0].data;
        let p = accs[1];
        let index = get_u64(rd, ROUND_TOTAL as int);
        if !authorized(rd, accs[2]) {
            Some(Err(bad(E_UNAUTH)))
        } else if !round_in(rd, Status::Pending) {
            Some(Err(bad(E_WRONG_PHASE)))
        } else if player_pda_verdict(player_pda(p.key, accs[0].key, index, data[0])) is Err {
            Some(Err(bad(E_BAD)))
        } else if p.owner@ != ID@ {
            Some(Err(bad(E_BAD)))
        } else if p.key@ == accs[0].key@ {
            Some(Err(ProgramError::AccountBorrowFailed))
        } else if p.data.len() < PLAYER_LEN || p.data.subrange(0, 8) != zeros(8) {
            Some(Err(bad(E_BAD)))
        } else if index == u64::MAX {
            None
        } else {
            Some(Ok(
                accs.update(1, with_data(p, join_bytes(p.data, data[0], accs[0].key, index, data.subrange(1, 33))))
                    .update(0, with_data(accs[0], put_u64(rd, ROUND_TOTAL as int, (index + 1) as u64))),
            ))
        }
    }
}

/// join: `data = [player_bump, owner (32)]`. Accounts: `[round (w), player (w, zeroed),
/// authority (signer)]`. The player takes the next roster index.
pub fn join(accounts: &mut Vec<Account>, data: &[u8]) -> (r: Result<(), ProgramError>)
    requires
        join_spec(accounts_view(old(accounts)@), data@) is Some,
    ensures
        match join_spec(accounts_view(old(accounts)@), data@) {
            Some(Ok(new)) => r is Ok && accounts_view(final(accounts)@) == new,
            Some(Err(e)) => r == Err::<(), ProgramError>(e) && final(accounts)@ == old(accounts)@,
            None => false,
        },
{
    match join_checked(accounts, data) {
        Some(r) => r,
        None => unreached(),
    }
}

/// `join`, reporting `None` where the roster count would overflow.
pub(crate) fn join_checked(accounts: &mut Vec<Account>, data: &[u8]) -> (r: Option<Result<(), ProgramError>>)
    ensures
        match join_spec(accounts_view(old(accounts)@), data@) {
            Some(Ok(new)) => r == Some(Ok::<(), ProgramError>(())) && accounts_view(final(accounts)@) == new,
            Some(Err(e)) => r == Some(Err::<(), ProgramError>(e)) && final(accounts)@ == old(accounts)@,
            None => r is None && final(accounts)@ == old(accounts)@,
        },
{
    if accounts.len() < 3 {
        return Some(Err(ProgramError::NotEnoughAccountKeys));
    }
    if data.len() < 33 {
        return Some(Err(ProgramError::InvalidInstructionData));
    }
    let round = &accounts[0];
    match check(round, &DISC_ROUND, ROUND_LEN) {
        Ok(()) => {},
        Err(e) => return Some(Err(e)),
    }
    let rd = round.data.as_slice();
    if !is_authorized(rd, &accounts[2]) {
        return Some(Err(ProgramError::Custom(E_UNAUTH)));
    }
    if !round_is(rd, Status::Pending) {
        return Some(Err(ProgramError::Custom(E_WRONG_PHASE)));
    }
    let index = read_u64(rd, ROUND_TOTAL);
    let player = &accounts[1];
    match verify_pda(&player_pda_check(&player.key, &round.key, index, data[0])) {
        Ok(()) => {},
        Err(e) => return Some(Err(e)),
    }
    if !key_eq(&player.owner, &ID) {
        return Some(Err(ProgramError::Custom(E_BAD)));
    }
    if key_eq(&player.key, &round.key) {
        return Some(Err(ProgramError::AccountBorrowFailed));
    }
    let zero: [u8; 8] = [0, 0, 0, 0, 0, 0, 0, 0];
    assert(zero@ =~= zeros(8));
    if player.data.len() < PLAYER_LEN || !bytes_eq(slice_subrange(player.data.as_slice(), 0, 8), &zero) {
        return Some(Err(ProgramError::Custom(E_BAD)));
    }
    if index == u64::MAX {
        return None;
    }
    let rkey = round.key;
    let mut pd = copy_data(player);
    write_bytes(&mut pd, 0, &DISC_PLAYER);
    pd.set(8, 1);
    pd.set(PLAYER_BUMP, data[0]);
    write_bytes(&mut pd, PLAYER_ROUND, &rkey);
    write_u64(&mut pd, PLAYER_INDEX, index);
    write_bytes(&mut pd, PLAYER_OWNER, slice_subrange(data, 1, 33));
    write_u64(&mut pd, PLAYER_ACTED, 0);
    pd.set(PLAYER_ALIVE, 1);
    let mut nd = copy_data(round);
    write_u64(&mut nd, ROUND_TOTAL, index + 1);
    set_data(accounts, 1, pd);
    set_data(accounts, 0, nd);
    Some(Ok(()))
}

/// The outcome of `lock`: the action window opens, the sweep cursor rewinds.
pub open spec fn lock_spec(accs: Seq<AccountV>) -> Result<Seq<AccountV>, ProgramError> {
    if accs.len() < 2 {
        Err(ProgramError::NotEnoughAccountKeys)
    } else if check_verdict(accs[0], DISC_ROUND@, ROUND_LEN as int) is Err {
        Err(check_verdict(accs[0], DISC_ROUND@, ROUND_LEN as int)->Err_0)
    } else {
        let rd = accs[0].data;
        if !authorized(rd, accs[1]) {
            Err(bad(E_UNAUTH))
        } else if !round_in(rd, Status::Pending) || get_u64(rd, ROUND_TOTAL as int) == 0 {
            Err(bad(E_WRONG_PHASE))
        } else {
            Ok(accs.update(0, with_data(accs[0], put_u8(put_u64(rd, ROUND_CURSOR as int, 0), ROUND_STATUS as int, status_code(Status::Applying)))))
        }
    }
}

/// lock: start the round's action window. Accounts: `[round (w), authority (signer)]`.
pub fn lock(accounts: &mut Vec<Account>) -> (r: Result<(), ProgramError>)
    ensures
        match lock_spec(accounts_view(old(accounts)@)) {
            Ok(new) => r is Ok && accounts_view(final(accounts)@) == new,
            Err(e) => r == Err::<(), ProgramError>(e) && final(accounts)@ == old(accounts)@,
        },
{
    if accounts.len() < 2 {
        return Err(ProgramError::NotEnoughAccountKeys);
    }
    let round = &accounts[0];
    match check(round, &DISC_ROUND, ROUND_LEN) {
        Ok(()) => {},
        Err(e) => return Err(e),
    }
    let rd = round.data.as_slice();
    if !is_authorized(rd, &accounts[1]) {
        return Err(ProgramError::Custom(E_UNAUTH));
    }
    if !round_is(rd, Status::Pending) || read_u64(rd, ROUND_TOTAL) == 0 {
        return Err(ProgramError::Custom(E_WRONG_PHASE));
    }
    let mut nd = copy_data(round);
    write_u64(&mut nd, ROUND_CURSOR, 0);
    nd.set(ROUND_STATUS, Status::Applying.to_u8());
    set_data(accounts, 0, nd);
    Ok(())
}

/// The outcome of `act`: a living player stamps the current round as acted.
pub open spec fn act_spec(accs: Seq<AccountV>) -> Result<Seq<AccountV>, ProgramError> {
    if accs.len() < 3 {
        Err(ProgramError::NotEnoughAccountKeys)
    } else if check_verdict(accs[0], DISC_ROUND@, ROUND_LEN as int) is Err {
        Err(check_verdict(accs[0], DISC_ROUND@, ROUND_LEN as int)->Err_0)
    } else if check_verdict(accs[1], DISC_PLAYER@, PLAYER_LEN as int) is Err {
        Err(check_verdict(accs[1], DISC_PLAYER@, PLAYER_LEN as int)->Err_0)
    } else {
        let rd = accs[0].data;
        let pd = accs[1].data;
        if !round_in(rd, Status::Applying) {
            Err(bad(E_WRONG_PHASE))
        } else if key_at(pd, PLAYER_ROUND as int) != accs[0].key@ {
            Err(bad(E_BAD))
        } else if key_at(pd, PLAYER_OWNER as int) != accs[2].key@ || !accs[2].is_signer {
            Err(bad(E_UNAUTH))
        } else if pd[PLAYER_ALIVE as int] == 0 {
            Err(bad(E_DEAD))
        } else {
            Ok(accs.update(1, with_data(accs[1], put_u64(pd, PLAYER_ACTED as int, get_u64(rd, ROUND_NUMBER as int)))))
        }
    }
}

/// act: a player proves liveness this round; eliminated players cannot.
/// Accounts: `[round (r), player (w), owner (signer)]`.
pub fn act(accounts: &mut Vec<Account>) -> (r: Result<(), ProgramError>)
    ensures
        match act_spec(accounts_view(old(accounts)@)) {
            Ok(new) => r is Ok && accounts_view(final(accounts)@) == new,
            Err(e) => r == Err::<(), ProgramError>(e) && final(accounts)@ == old(accounts)@,
        },
{
    if accounts.len() < 3 {
        return Err(ProgramError::NotEnoughAccountKeys);
    }
    let round = &accounts[0];
    let player = &accounts[1];
    match check(round, &DISC_ROUND, ROUND_LEN) {
        Ok(()) => {},
        Err(e) => return Err(e),
    }
    match check(player, &DISC_PLAYER, PLAYER_LEN) {
        Ok(()) => {},
        Err(e) => return Err(e),
    }
    let rd = round.data.as_slice();
    if !round_is(rd, Status::Applying) {
        return Err(ProgramError::Custom(E_WRONG_PHASE));
    }
    let cur_round = read_u64(rd, ROUND_NUMBER);
    let pd = player.data.as_slice();
    if !bytes_eq(slice_subrange(pd, PLAYER_ROUND, PLAYER_ROUND + 32), &round.key) {
        return Err(ProgramError::Custom(E_BAD));
    }
    let owner = &accounts[2];
    if !bytes_eq(slice_subrange(pd, PLAYER_OWNER, PLAYER_OWNER + 32), &owner.key) || !owner.is_signer {
        return Err(ProgramError::Custom(E_UNAUTH));
    }
    if pd[PLAYER_ALIVE] == 0 {
        return Err(ProgramError::Custom(E_DEAD));
    }
    let mut nd = copy_data(player);
    write_u64(&mut nd, PLAYER_ACTED, cur_round);
    set_data(accounts, 1, nd);
    Ok(())
}

/// One player of a sweep, at roster index `gi`, in round `cur`: a distinct player of
/// this round at exactly that index. A player who did not act this round is
/// eliminated; one who did is left as it is. Returns the player's new bytes.
pub open spec fn sweep_step(p: AccountV, round: Pubkey, gi: int, cur: u64) -> Result<Seq<u8>, ProgramError> {
    if p.owner@ != ID@ {
        Err(bad(E_BAD))
    } else if p.key@ == round@ {
        Err(ProgramError::AccountBorrowFailed)
    } else if p.data.len() < PLAYER_LEN || p.data.subrange(0, 8) != DISC_PLAYER@ {
        Err(bad(E_BAD))
    } else if key_at(p.data, PLAYER_ROUND as int) != round@ || get_u64(p.data, PLAYER_INDEX as int) != gi {
        Err(bad(E_BAD))
    } else if player_pda_verdict(player_pda(p.key, round, gi as u64, p.data[PLAYER_BUMP as int])) is Err {
        Err(bad(E_BAD))
    } else if get_u64(p.data, PLAYER_ACTED as int) != cur {
        Ok(put_u8(p.data, PLAYER_ALIVE as int, 0))
    } else {
        Ok(p.data)
    }
}

/// The first `k` players of a sweep batch, in order, stopping at the first failure.
pub open spec fn sweep_prefix(ps: Seq<AccountV>, round: Pubkey, gi0: int, cur: u64, k: int) -> Result<
    Seq<Seq<u8>>,
    ProgramError,
>
    decreases k,
{
    if k <= 0 {
        Ok(Seq::empty())
    } else {
        match sweep_prefix(ps, round, gi0, cur, k - 1) {
            Err(x) => Err(x),
            Ok(ds) => match sweep_step(ps[k - 1], round, gi0 + k - 1, cur) {
                Err(x) => Err(x),
                Ok(d) => Ok(ds.push(d)),
            },
        }
    }
}

proof fn lemma_sweep_prefix_err(ps: Seq<AccountV>, round: Pubkey, gi0: int, cur: u64, j: int, k: int)
    requires
        0 <= j <= k,
        sweep_prefix(ps, round, gi0, cur, j) is Err,
    ensures
        sweep_prefix(ps, round, gi0, cur, k) == sweep_prefix(ps, round, gi0, cur, j),
    decreases k - j,
{
    if j < k {
        lemma_sweep_prefix_err(ps, round, gi0, cur, j, k - 1);
    }
}

proof fn lemma_sweep_prefix_len(ps: Seq<AccountV>, round: Pubkey, gi0: int, cur: u64, k: int)
    requires
        0 <= k,
        sweep_prefix(ps, round, gi0, cur, k) is Ok,
    ensures
        sweep_prefix(ps, round, gi0, cur, k)->Ok_0.len() == k,
    decreases k,
{
    if k > 0 {
        lemma_sweep_prefix_len(ps, round, gi0, cur, k - 1);
    }
}

/// The accounts after a sweep: the round's new bytes, and the new bytes of the
/// `ds.len()` players from account 1 on.
pub open spec fn swept(accs: Seq<AccountV>, rd: Seq<u8>, ds: Seq<Seq<u8>>) -> Seq<AccountV> {
    Seq::new(accs.len(), |i: int|
        if i == 0 {
            with_data(accs[0], rd)
        } else if 1 <= i < 1 + ds.len() {
            with_data(accs[i], ds[i - 1])
        } else {
            accs[i]
        })
}

/// The outcome of `sweep`: the batch size comes from the cursor and the roster
/// (`advance_step`), every player of the batch is checked and processed in order, and
/// the cursor moves past the batch.
pub open spec fn sweep_spec(accs: Seq<AccountV>, data: Seq<u8>) -> Result<Seq<AccountV>, ProgramError> {
    if accs.len() < 1 {
        Err(ProgramError::NotEnoughAccountKeys)
    } else if data.len() == 0 {
        Err(ProgramError::InvalidInstructionData)
    } else if check_verdict(accs[0], DISC_ROUND@, ROUND_LEN as int) is Err {
        Err(check_verdict(accs[0], DISC_ROUND@, ROUND_LEN as int)->Err_0)
    } else {
        let rd = accs[0].data;
        let rkey = accs[0].key;
        let cur = get_u64(rd, ROUND_NUMBER as int);
        let total = get_u64(rd, ROUND_TOTAL as int);
        let cursor = get_u64(rd, ROUND_CURSOR as int);
        if !round_in(rd, Status::Applying) {
            Err(bad(E_WRONG_PHASE))
        } else if cursor >= total {
            Err(bad(E_SHARD_COMPLETE))
        } else {
            let n = min_u64(data[0] as u64, (total - cursor) as u64);
            let ps = accs.subrange(1, 1 + n);
            if accs.len() - 1 < n {
                Err(ProgramError::NotEnoughAccountKeys)
            } else {
                match sweep_prefix(ps, rkey, cursor as int, cur, n as int) {
                    Err(e) => Err(e),
                    Ok(ds) => Ok(swept(accs, put_u64(rd, ROUND_CURSOR as int, (cursor + n) as u64), ds)),
                }
            }
        }
    }
}

/// sweep: `data = [batch]`. Accounts: `[round (w), players (w)...]` from the cursor on.
/// Eliminates every player of the batch who did not act this round, offline players
/// included.
#[verifier::loop_isolation(false)]
#[verifier::spinoff_prover]
pub fn sweep(accounts: &mut Vec<Account>, data: &[u8]) -> (r: Result<(), ProgramError>)
    ensures
        match sweep_spec(accounts_view(old(accounts)@), data@) {
            Ok(new) => r is Ok && accounts_view(final(accounts)@) == new,
            Err(e) => r == Err::<(), ProgramError>(e) && final(accounts)@ == old(accounts)@,
        },
{
    if accounts.len() < 1 {
        return Err(ProgramError::NotEnoughAccountKeys);
    }
    if data.len() == 0 {
        return Err(ProgramError::InvalidInstructionData);
    }
    let batch = data[0] as u64;
    let ghost accs = accounts_view(accounts@);
    let round = &accounts[0];
    match check(round, &DISC_ROUND, ROUND_LEN) {
        Ok(()) => {},
        Err(e) => return Err(e),
    }
    let rd = round.data.as_slice();
    if !round_is(rd, Status::Applying) {
        return Err(ProgramError::Custom(E_WRONG_PHASE));
    }
    let cur = read_u64(rd, ROUND_NUMBER);
    let total = read_u64(rd, ROUND_TOTAL);
    let cursor = read_u64(rd, ROUND_CURSOR);
    let n = match advance_step(cursor, total, batch) {
        Ok(n) => n,
        Err(_) => return Err(ProgramError::Custom(E_SHARD_COMPLETE)),
    };
    let count = accounts.len();
    if ((count - 1) as u64) < n {
        return Err(ProgramError::NotEnoughAccountKeys);
    }
    let rkey = round.key;
    let ghost ps = accs.subrange(1, 1 + n);
    let mut datas: Vec<Vec<u8>> = Vec::new();
    let mut j: u64 = 0;
    assert(datas_view(datas@) =~= Seq::<Seq<u8>>::empty());
    while j < n
        invariant
            0 <= j <= n,
            accounts@ == old(accounts)@,
            datas@.len() == j,
            sweep_prefix(ps, rkey, cursor as int, cur, j as int) == Ok::<Seq<Seq<u8>>, ProgramError>(datas_view(datas@)),
        decreases n - j,
    {
        let gi = cursor + j;
        let p = &accounts[1 + j as usize];
        assert(p@ == ps[j as int]);
        let ghost prev = datas_view(datas@);
        if !key_eq(&p.owner, &ID) {
            proof { lemma_sweep_prefix_err(ps, rkey, cursor as int, cur, j + 1, n as int); }
            return Err(ProgramError::Custom(E_BAD));
        }
        if key_eq(&p.key, &rkey) {
            proof { lemma_sweep_prefix_err(ps, rkey, cursor as int, cur, j + 1, n as int); }
            return Err(ProgramError::AccountBorrowFailed);
        }
        let pd = p.data.as_slice();
        if pd.len() < PLAYER_LEN || !bytes_eq(slice_subrange(pd, 0, 8), &DISC_PLAYER) {
            proof { lemma_sweep_prefix_err(ps, rkey, cursor as int, cur, j + 1, n as int); }
            return Err(ProgramError::Custom(E_BAD));
        }
        if !bytes_eq(slice_subrange(pd, PLAYER_ROUND, PLAYER_ROUND + 32), &rkey) || read_u64(pd, PLAYER_INDEX) != gi {
            proof { lemma_sweep_prefix_err(ps, rkey, cursor as int, cur, j + 1, n as int); }
            return Err(ProgramError::Custom(E_BAD));
        }
        match verify_pda(&player_pda_check(&p.key, &rkey, gi, pd[PLAYER_BUMP])) {
            Ok(()) => {},
            Err(e) => {
                proof { lemma_sweep_prefix_err(ps, rkey, cursor as int, cur, j + 1, n as int); }
                return Err(e);
            },
        }
        let mut nd = copy_data(p);
        if read_u64(pd, PLAYER_ACTED) != cur {
            nd.set(PLAYER_ALIVE, 0);
        }
        datas.push(nd);
        proof {
            assert(datas_view(datas@) =~= prev.push(nd@));
        }
        j = j + 1;
    }
    let ghost ds = datas_view(datas@);
    assert(ds.take(n as int) =~= ds);
    let mut nd = copy_data(&accounts[0]);
    write_u64(&mut nd, ROUND_CURSOR, cursor + n);
    set_data(accounts, 0, nd);
    let ghost base = accounts_view(accounts@);
    let mut j: u64 = n;
    while j > 0
        invariant
            0 <= j <= n,
            accounts@.len() == count,
            datas_view(datas@) == ds.take(j as int),
            accounts_view(accounts@) == Seq::new(count as nat, |i: int|
                if 1 + j <= i < 1 + n { with_data(accs[i], ds[i - 1]) } else { base[i] }),
        decreases j,
    {
        let d = datas.pop().unwrap();
        j = j - 1;
        assert(d@ == ds[j as int]);
        set_data(accounts, 1 + j as usize, d);
        assert(datas_view(datas@) =~= ds.take(j as int));
        assert(accounts_view(accounts@) =~= Seq::new(count as nat, |i: int|
                if 1 + j <= i < 1 + n { with_data(accs[i], ds[i - 1]) } else { base[i] }));
    }
    assert(accounts_view(accounts@) =~= swept(accs, put_u64(accs[0].data, ROUND_CURSOR as int, (cursor + n) as u64), ds));
    Ok(())
}

/// The outcome of `finish`: the round is resolved once the cursor covers the roster.
pub open spec fn finish_spec(accs: Seq<AccountV>) -> Result<Seq<AccountV>, ProgramError> {
    if accs.len() < 1 {
        Err(ProgramError::NotEnoughAccountKeys)
    } else if check_verdict(accs[0], DISC_ROUND@, ROUND_LEN as int) is Err {
        Err(check_verdict(accs[0], DISC_ROUND@, ROUND_LEN as int)->Err_0)
    } else {
        let rd = accs[0].data;
        if !round_in(rd, Status::Applying) {
            Err(bad(E_WRONG_PHASE))
        } else if get_u64(rd, ROUND_CURSOR as int) != get_u64(rd, ROUND_TOTAL as int) {
            Err(bad(E_SHARD_COMPLETE))
        } else {
            Ok(accs.update(0, with_data(accs[0], put_u8(rd, ROUND_STATUS as int, status_code(Status::Done)))))
        }
    }
}

/// finish: resolves the round once every player was swept. Accounts: `[round (w)]`.
pub fn finish(accounts: &mut Vec<Account>) -> (r: Result<(), ProgramError>)
    ensures
        match finish_spec(accounts_view(old(accounts)@)) {
            Ok(new) => r is Ok && accounts_view(final(accounts)@) == new,
            Err(e) => r == Err::<(), ProgramError>(e) && final(accounts)@ == old(accounts)@,
        },
{
    if accounts.len() < 1 {
        return Err(ProgramError::NotEnoughAccountKeys);
    }
    let round = &accounts[0];
    match check(round, &DISC_ROUND, ROUND_LEN) {
        Ok(()) => {},
        Err(e) => return Err(e),
    }
    let rd = round.data.as_slice();
    if !round_is(rd, Status::Applying) {
        return Err(ProgramError::Custom(E_WRONG_PHASE));
    }
    if read_u64(rd, ROUND_CURSOR) != read_u64(rd, ROUND_TOTAL) {
        return Err(ProgramError::Custom(E_SHARD_COMPLETE));
    }
    let mut nd = copy_data(round);
    nd.set(ROUND_STATUS, Status::Done.to_u8());
    set_data(accounts, 0, nd);
    Ok(())
}

/// The outcome of `next_round`: the round number grows, the cursor rewinds and the
/// action window reopens; `None` where the round number would overflow.
pub open spec fn next_round_spec(accs: Seq<AccountV>) -> Option<Result<Seq<AccountV>, ProgramError>> {
    if accs.len() < 2 {
        Some(Err(ProgramError::NotEnoughAccountKeys))
    } else if check_verdict(accs[0], DISC_ROUND@, ROUND_LEN as int) is Err {
        Some(Err(check_verdict(accs[0], DISC_ROUND@, ROUND_LEN as int)->Err_0))
    } else {
        let rd = accs[0].data;
        let number = get_u64(rd, ROUND_NUMBER as int);
        if !authorized(rd, accs[1]) {
            Some(Err(bad(E_UNAUTH)))
        } else if !round_in(rd, Status::Done) {
            Some(Err(bad(E_WRONG_PHASE)))
        } else if number == u64::MAX {
            None
        } else {
            Some(Ok(accs.update(0, with_data(accs[0], put_u8(
                put_u64(put_u64(rd, ROUND_NUMBER as int, (number + 1) as u64), ROUND_CURSOR as int, 0),
                ROUND_STATUS as int,
                status_code(Status::Applying),
            )))))
        }
    }
}

/// next_round: opens the next action window for the survivors.
/// Accounts: `[round (w), authority (signer)]`.
pub fn next_round(accounts: &mut Vec<Account>) -> (r: Result<(), ProgramError>)
    requires
        next_round_spec(accounts_view(old(accounts)@)) is Some,
    ensures
        match next_round_spec(accounts_view(old(accounts)@)) {
            Some(Ok(new)) => r is Ok && accounts_view(final(accounts)@) == new,
            Some(Err(e)) => r == Err::<(), ProgramError>(e) && final(accounts)@ == old(accounts)@,
            None => false,
        },
{
    match next_round_checked(accounts) {
        Some(r) => r,
        None => unreached(),
    }
}

/// `next_round`, reporting `None` where the round number would overflow.
pub(crate) fn next_round_checked(accounts: &mut Vec<Account>) -> (r: Option<Result<(), ProgramError>>)
    ensures
        match next_round_spec(accounts_view(old(accounts)@)) {
            Some(Ok(new)) => r == Some(Ok::<(), ProgramError>(())) && accounts_view(final(accounts)@) == new,
            Some(Err(e)) => r == Some(Err::<(), ProgramError>(e)) && final(accounts)@ == old(accounts)@,
            None => r is None && final(accounts)@ == old(accounts)@,
        },
{
    if accounts.len() < 2 {
        return Some(Err(ProgramError::NotEnoughAccountKeys));
    }
    let round = &accounts[0];
    match check(round, &DISC_ROUND, ROUND_LEN) {
        Ok(()) => {},
        Err(e) => return Some(Err(e)),
    }
    let rd = round.data.as_slice();
    if !is_authorized(rd, &accounts[1]) {
        return Some(Err(ProgramError::Custom(E_UNAUTH)));
    }
    if !round_is(rd, Status::Done) {
        return Some(Err(ProgramError::Custom(E_WRONG_PHASE)));
    }
    if read_u64(rd, ROUND_NUMBER) == u64::MAX {
        return None;
    }
    let next = read_u64(rd, ROUND_NUMBER) + 1;
    let mut nd = copy_data(round);
    write_u64(&mut nd, ROUND_NUMBER, next);
    write_u64(&mut nd, ROUND_CURSOR, 0);
    nd.set(ROUND_STATUS, Status::Applying.to_u8());
    set_data(accounts, 0, nd);
    Some(Ok(()))
}

/// The outcome of one royale instruction: the first byte selects the handler, the rest
/// is its data. `None` where the selected handler is undefined.
pub open spec fn process_spec(accs: Seq<AccountV>, ix: Seq<u8>) -> Option<Result<Seq<AccountV>, ProgramError>> {
    if ix.len() == 0 {
        Some(Err(ProgramError::InvalidInstructionData))
    } else {
        let tag = ix[0];
        let data = ix.subrange(1, ix.len() as int);
        if tag == 0 {
            Some(open_round_spec(accs, data))
        } else if tag == 1 {
            join_spec(accs, data)
        } else if tag == 2 {
            Some(lock_spec(accs))
        } else if tag == 3 {
            Some(act_spec(accs))
        } else if tag == 4 {
            Some(sweep_spec(accs, data))
        } else if tag == 5 {
            Some(finish_spec(accs))
        } else if tag == 6 {
            next_round_spec(accs)
        } else {
            Some(Err(ProgramError::InvalidInstructionData))
        }
    }
}

/// The royale entry: splits off the tag byte and runs the handler on the account
/// snapshots. `None` where a counter would overflow: there the transaction aborts.
#[verifier::spinoff_prover]
#[verifier::rlimit(40)]
pub fn process_instruction(accounts: &mut Vec<Account>, data: &[u8]) -> (r: Option<Result<(), ProgramError>>)
    ensures
        match process_spec(accounts_view(old(accounts)@), data@) {
            Some(Ok(new)) => r matches Some(Ok(_)) && accounts_view(final(accounts)@) == new,
            Some(Err(e)) => r == Some(Err::<(), ProgramError>(e)) && final(accounts)@ == old(accounts)@,
            None => r is None && final(accounts)@ == old(accounts)@,
        },
{
    if data.len() == 0 {
        return Some(Err(ProgramError::InvalidInstructionData));
    }
    let tag = data[0];
    let rest = slice_subrange(data, 1, data.len());
    assert(rest@ =~= data@.subrange(1, data@.len() as int));
    match tag {
        0 => Some(open_round(accounts, rest)),
        1 => join_checked(accounts, rest),
        2 => Some(lock(accounts)),
        3 => Some(act(accounts)),
        4 => Some(sweep(accounts, rest)),
        5 => Some(finish(accounts)),
        6 => next_round_checked(accounts),
        _ => Some(Err(ProgramError::InvalidInstructionData)),
    }
}

/// The elimination rule of a sweep: a player who did not act in round `cur` comes out
/// eliminated, one who did comes out unchanged; no player is ever revived; and sweeping
/// the result again in the same round changes nothing.
pub proof fn lemma_sweep_step(p: AccountV, round: Pubkey, gi: int, cur: u64)
    requires
        sweep_step(p, round, gi, cur) is Ok,
    ensures
        ({
            let d = sweep_step(p, round, gi, cur)->Ok_0;
            &&& d.len() == p.data.len()
            &&& get_u64(p.data, PLAYER_ACTED as int) != cur ==> d == p.data.update(PLAYER_ALIVE as int, 0u8)
            &&& get_u64(p.data, PLAYER_ACTED as int) == cur ==> d == p.data
            &&& p.data[PLAYER_ALIVE as int] == 0 ==> d[PLAYER_ALIVE as int] == 0
            &&& sweep_step(with_data(p, d), round, gi, cur) == Ok::<Seq<u8>, ProgramError>(d)
        }),
{
    let pd = p.data;
    if get_u64(pd, PLAYER_ACTED as int) != cur {
        let d = put_u8(pd, PLAYER_ALIVE as int, 0);
        assert(d.subrange(0, 8) =~= pd.subrange(0, 8));
        assert(key_at(d, PLAYER_ROUND as int) =~= key_at(pd, PLAYER_ROUND as int));
        crate::bytes::lemma_get_u64_frame(pd, d, PLAYER_INDEX as int);
        crate::bytes::lemma_get_u64_frame(pd, d, PLAYER_ACTED as int);
        assert(put_u8(d, PLAYER_ALIVE as int, 0) =~= d);
    }
}

/// Coverage of a sweep: player `j` of a completed prefix of `k` players went through
/// `sweep_step` at roster index `gi0 + j` and produced entry `j` of the prefix's bytes.
pub proof fn lemma_sweep_prefix_ok(ps: Seq<AccountV>, round: Pubkey, gi0: int, cur: u64, k: int, j: int)
    requires
        0 <= j < k,
        sweep_prefix(ps, round, gi0, cur, k) is Ok,
    ensures
        sweep_prefix(ps, round, gi0, cur, k)->Ok_0.len() == k,
        sweep_step(ps[j], round, gi0 + j, cur) == Ok::<Seq<u8>, ProgramError>(
            sweep_prefix(ps, round, gi0, cur, k)->Ok_0[j],
        ),
    decreases k,
{
    if sweep_prefix(ps, round, gi0, cur, k - 1) is Err {
        lemma_sweep_prefix_err(ps, round, gi0, cur, k - 1, k);
    }
    lemma_sweep_prefix_len(ps, round, gi0, cur, k - 1);
    if j < k - 1 {
        lemma_sweep_prefix_ok(ps, round, gi0, cur, k - 1, j);
    }
}

/// An eliminated player stays eliminated: whatever royale instruction succeeds, a
/// player account whose alive byte was off still has it off afterwards.
pub proof fn lemma_no_revival(accs: Seq<AccountV>, ix: Seq<u8>, i: int)
    requires
        process_spec(accs, ix) matches Some(Ok(_)),
        0 <= i < accs.len(),
        check_verdict(accs[i], DISC_PLAYER@, PLAYER_LEN as int) is Ok,
        accs[i].data[PLAYER_ALIVE as int] == 0,
    ensures
        process_spec(accs, ix)->Some_0->Ok_0.len() == accs.len(),
        process_spec(accs, ix)->Some_0->Ok_0[i].data[PLAYER_ALIVE as int] == 0,
{
    let pd = accs[i].data;
    assert(pd.subrange(0, 8)[4] == 80u8);
    assert(DISC_ROUND@[4] == 82u8);
    assert(zeros(8)[0] == 0u8);
    assert(pd.subrange(0, 8)[0] == 70u8);
    let tag = ix[0];
    let data = ix.subrange(1, ix.len() as int);
    if tag == 4 {
        let rd = accs[0].data;
        let cursor = get_u64(rd, ROUND_CURSOR as int);
        let total = get_u64(rd, ROUND_TOTAL as int);
        let n = min_u64(data[0] as u64, (total - cursor) as u64);
        let ps = accs.subrange(1, 1 + n);
        let cur = get_u64(rd, ROUND_NUMBER as int);
        if 1 <= i < 1 + n {
            lemma_sweep_prefix_ok(ps, accs[0].key, cursor as int, cur, n as int, i - 1);
            lemma_sweep_step(ps[i - 1], accs[0].key, cursor + i - 1, cur);
        } else if n > 0 {
            lemma_sweep_prefix_ok(ps, accs[0].key, cursor as int, cur, n as int, 0);
        } else {
            assert(sweep_prefix(ps, accs[0].key, cursor as int, cur, 0)->Ok_0.len() == 0);
        }
    }
}

/// Each new round's sweep covers the whole roster again: after `next_round` the round
/// number has grown by one, the sweep cursor is back at zero, the status is `Applying`
/// (3), the roster size is that of the finished round, and no other account changes.
pub proof fn lemma_next_round_rewinds_the_sweep(accs: Seq<AccountV>)
    requires
        next_round_spec(accs) matches Some(Ok(_)),
    ensures
        ({
            let new = next_round_spec(accs)->Some_0->Ok_0;
            let rd = accs[0].data;
            let nd = new[0].data;
            &&& new.len() == accs.len()
            &&& get_u64(nd, ROUND_CURSOR as int) == 0
            &&& get_u64(nd, ROUND_NUMBER as int) == get_u64(rd, ROUND_NUMBER as int) + 1
            &&& nd[ROUND_STATUS as int] == 3
            &&& get_u64(nd, ROUND_TOTAL as int) == get_u64(rd, ROUND_TOTAL as int)
            &&& forall|i: int| 1 <= i < accs.len() ==> new[i] == accs[i]
        }),
{
    let rd = accs[0].data;
    let number = get_u64(rd, ROUND_NUMBER as int);
    let a = put_u64(rd, ROUND_NUMBER as int, (number + 1) as u64);
    let b = put_u64(a, ROUND_CURSOR as int, 0);
    let nd = put_u8(b, ROUND_STATUS as int, status_code(Status::Applying));
    lemma_put_u64(rd, ROUND_NUMBER as int, (number + 1) as u64);
    lemma_put_u64(a, ROUND_CURSOR as int, 0);
    lemma_get_u64_frame(a, b, ROUND_NUMBER as int);
    assert(window(nd, ROUND_NUMBER as int, 8) =~= window(b, ROUND_NUMBER as int, 8));
    assert(window(nd, ROUND_CURSOR as int, 8) =~= window(b, ROUND_CURSOR as int, 8));
    assert(window(nd, ROUND_TOTAL as int, 8) =~= window(rd, ROUND_TOTAL as int, 8));
}

} // verus!
