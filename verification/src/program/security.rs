//! Account checks shared by the handlers: header, authority, keeper payment, lamport
//! moves, and the program-derived address checks.
use crate::bytes::bytes_eq;
use crate::program::error::{
    ProgramError, E_ACCOUNT_DATA_TOO_SMALL, E_BAD_DISCRIMINATOR, E_BAD_OWNER, E_BAD_VERSION,
    E_BAD_BUMP, E_BOUNTY_UNDERFUNDED, E_UNAUTHORIZED,
};
use crate::program::{key_eq, Account, AccountV, Pubkey, CONSUMER_ID};
use vstd::bytes::*;
use vstd::prelude::*;
use vstd::slice::slice_to_vec;

verus! {

/// The verdict of the header check: owner, minimum length, discriminator, version.
pub open spec fn header_verdict(
    a: AccountV,
    consumer: Pubkey,
    disc: Seq<u8>,
    version: u8,
    min_len: int,
) -> Result<(), ProgramError> {
    if a.owner@ != consumer@ {
        Err(ProgramError::Custom(E_BAD_OWNER))
    } else if a.data.len() < min_len {
        Err(ProgramError::Custom(E_ACCOUNT_DATA_TOO_SMALL))
    } else if a.data.subrange(0, 8) != disc {
        Err(ProgramError::Custom(E_BAD_DISCRIMINATOR))
    } else if a.data[8] > version {
        Err(ProgramError::Custom(E_BAD_VERSION))
    } else {
        Ok(())
    }
}

/// Owner is the consumer, length at least `min_len`, discriminator matches, version
/// supported. Run before any field of the account is read.
pub fn check_header(
    ai: &Account,
    consumer: &Pubkey,
    disc: &[u8; 8],
    version: u8,
    min_len: usize,
) -> (r: Result<(), ProgramError>)
    requires
        min_len >= 9,
    ensures
        r == header_verdict(ai@, *consumer, disc@, version, min_len as int),
{
    if !key_eq(&ai.owner, consumer) {
        return Err(ProgramError::Custom(E_BAD_OWNER));
    }
    if ai.data.len() < min_len {
        return Err(ProgramError::Custom(E_ACCOUNT_DATA_TOO_SMALL));
    }
    if !bytes_eq(&ai.data.as_slice()[0..8], disc) {
        return Err(ProgramError::Custom(E_BAD_DISCRIMINATOR));
    }
    if ai.data[8] > version {
        return Err(ProgramError::Custom(E_BAD_VERSION));
    }
    Ok(())
}

/// The verdict of the authorizer check: the stored authority must be this account, and
/// it must sign.
pub open spec fn authorize_verdict(a: AccountV, stored: Seq<u8>) -> Result<(), ProgramError> {
    if a.key@ != stored || !a.is_signer {
        Err(ProgramError::Custom(E_UNAUTHORIZED))
    } else {
        Ok(())
    }
}

/// The stored authority must be `authority_ai`, and it must sign (a program-derived
/// authority arrives as a signer too).
pub fn authorize(authority_ai: &Account, stored: &[u8]) -> (r: Result<(), ProgramError>)
    ensures
        r == authorize_verdict(authority_ai@, stored@),
{
    if !bytes_eq(&authority_ai.key, stored) || !authority_ai.is_signer {
        return Err(ProgramError::Custom(E_UNAUTHORIZED));
    }
    Ok(())
}

/// The verdict of the all-or-nothing bounty check.
pub open spec fn pay_verdict(escrow_lamports: u64, floor: u64, n: u64, bounty_per: u64) -> Result<
    u64,
    ProgramError,
> {
    if n * bounty_per > u64::MAX || escrow_lamports < floor || escrow_lamports - floor < n
        * bounty_per {
        Err(ProgramError::Custom(E_BOUNTY_UNDERFUNDED))
    } else {
        Ok((n * bounty_per) as u64)
    }
}

/// All-or-nothing bounty precheck: `n * bounty_per` if the escrow holds that much above
/// its rent floor, else `BountyUnderfunded`.
pub fn pay_amount(escrow_lamports: u64, floor: u64, n: u64, bounty_per: u64) -> (r: Result<
    u64,
    ProgramError,
>)
    ensures
        r == pay_verdict(escrow_lamports, floor, n, bounty_per),
{
    let amount = match n.checked_mul(bounty_per) {
        Some(a) => a,
        None => return Err(ProgramError::Custom(E_BOUNTY_UNDERFUNDED)),
    };
    let spendable = match escrow_lamports.checked_sub(floor) {
        Some(s) => s,
        None => return Err(ProgramError::Custom(E_BOUNTY_UNDERFUNDED)),
    };
    if spendable < amount {
        return Err(ProgramError::Custom(E_BOUNTY_UNDERFUNDED));
    }
    Ok(amount)
}

/// The verdict of a lamport move: both accounts writable and distinct, no underflow at
/// the source, no overflow at the destination. On success, the two new balances.
pub open spec fn transfer_verdict(from: AccountV, to: AccountV, amount: u64) -> Result<
    (u64, u64),
    ProgramError,
> {
    if !from.is_writable || !to.is_writable {
        Err(ProgramError::InvalidAccountData)
    } else if from.key@ == to.key@ {
        Err(ProgramError::AccountBorrowFailed)
    } else if from.lamports < amount || to.lamports + amount > u64::MAX {
        Err(ProgramError::ArithmeticOverflow)
    } else {
        Ok(((from.lamports - amount) as u64, (to.lamports + amount) as u64))
    }
}

/// A direct lamport move between two accounts; returns the new balances of `from` and
/// `to`. The same account on both sides is a conflicting double borrow.
pub fn transfer_lamports(from: &Account, to: &Account, amount: u64) -> (r: Result<
    (u64, u64),
    ProgramError,
>)
    ensures
        r == transfer_verdict(from@, to@, amount),
{
    if !from.is_writable || !to.is_writable {
        return Err(ProgramError::InvalidAccountData);
    }
    if key_eq(&from.key, &to.key) {
        return Err(ProgramError::AccountBorrowFailed);
    }
    let f = match from.lamports.checked_sub(amount) {
        Some(f) => f,
        None => return Err(ProgramError::ArithmeticOverflow),
    };
    let t = match to.lamports.checked_add(amount) {
        Some(t) => t,
        None => return Err(ProgramError::ArithmeticOverflow),
    };
    Ok((f, t))
}

/// The program-derived address of `seeds` under `program_id`, as
/// `solana_pubkey::Pubkey::create_program_address` computes it (a hash of the seeds, the
/// program id and a marker); `None` where it reports an error (too many or too long
/// seeds, or a hash that lies on the curve).
pub uninterp spec fn program_address(seeds: Seq<Seq<u8>>, program_id: Seq<u8>) -> Option<Seq<u8>>;

/// Calls `solana_pubkey::Pubkey::create_program_address(seeds, program_id)`. Trusted: the
/// result is the named derivation of exactly these seeds and this program id, and an
/// error of the call is `None`; nothing else about the derivation is claimed.
#[verifier::external_body]
pub(crate) fn derive_address(seeds: &Vec<Vec<u8>>, program_id: &Pubkey) -> (r: Option<Pubkey>)
    ensures
        match r {
            Some(k) => program_address(seeds@.map_values(|s: Vec<u8>| s@), program_id@) == Some(k@),
            None => program_address(seeds@.map_values(|s: Vec<u8>| s@), program_id@) is None,
        },
{
    let s: Vec<&[u8]> = seeds.iter().map(|x| x.as_slice()).collect();
    let pid = solana_pubkey::Pubkey::new_from_array(*program_id);
    match solana_pubkey::Pubkey::create_program_address(&s, &pid) {
        Ok(k) => Some(k.to_bytes()),
        Err(_) => None,
    }
}

/// Whether `key` is the address derived from `seeds` under `program`.
pub open spec fn derives(key: Pubkey, seeds: Seq<Seq<u8>>, program: Pubkey) -> bool {
    program_address(seeds, program@) == Some(key@)
}

/// The account key must be the program address of `seeds` (the last seed is the bump)
/// under `consumer`; otherwise `BadBump`.
pub fn verify_pda(key: &Pubkey, seeds: &Vec<Vec<u8>>, consumer: &Pubkey) -> (r: Result<(), ProgramError>)
    ensures
        r == (if derives(*key, seeds@.map_values(|s: Vec<u8>| s@), *consumer) {
            Ok::<(), ProgramError>(())
        } else {
            Err(ProgramError::Custom(E_BAD_BUMP))
        }),
{
    match derive_address(seeds, consumer) {
        Some(k) => if key_eq(&k, key) {
            Ok(())
        } else {
            Err(ProgramError::Custom(E_BAD_BUMP))
        },
        None => Err(ProgramError::Custom(E_BAD_BUMP)),
    }
}

/// The verdict of [`verify_pda`] on an address check.
pub open spec fn pda_verdict(c: PdaCheckV) -> Result<(), ProgramError> {
    if derives(c.key, c.seeds, CONSUMER_ID) {
        Ok(())
    } else {
        Err(ProgramError::Custom(E_BAD_BUMP))
    }
}

/// [`verify_pda`] on an address check under the consumer program.
pub fn check_pda(c: &PdaCheck) -> (r: Result<(), ProgramError>)
    ensures
        r == pda_verdict(c@),
{
    verify_pda(&c.key, &c.seeds, &CONSUMER_ID)
}

/// An address to check: `key` must be the address derived from `seeds` (the last seed
/// is the stored bump).
pub struct PdaCheck {
    pub key: Pubkey,
    pub seeds: Vec<Vec<u8>>,
}

/// The value of a [`PdaCheck`].
pub struct PdaCheckV {
    pub key: Pubkey,
    pub seeds: Seq<Seq<u8>>,
}

impl View for PdaCheck {
    type V = PdaCheckV;

    open spec fn view(&self) -> PdaCheckV {
        PdaCheckV { key: self.key, seeds: self.seeds@.map_values(|s: Vec<u8>| s@) }
    }
}

/// Seed prefix of shard addresses: "cas.s".
pub open spec fn seed_shard() -> Seq<u8> {
    seq![99u8, 97u8, 115u8, 46u8, 115u8]
}

/// Seed prefix of escrow addresses: "cas.e".
pub open spec fn seed_escrow() -> Seq<u8> {
    seq![99u8, 97u8, 115u8, 46u8, 101u8]
}

/// Seed prefix of member addresses: "cas.m".
pub open spec fn seed_member() -> Seq<u8> {
    seq![99u8, 97u8, 115u8, 46u8, 109u8]
}

/// The address check of shard `sid` of `effect`.
pub open spec fn shard_pda(key: Pubkey, effect: Pubkey, sid: u32, bump: u8) -> PdaCheckV {
    PdaCheckV { key, seeds: seq![seed_shard(), effect@, spec_u32_to_le_bytes(sid), seq![bump]] }
}

/// The address check of the escrow of shard `sid` of `effect`.
pub open spec fn escrow_pda(key: Pubkey, effect: Pubkey, sid: u32, bump: u8) -> PdaCheckV {
    PdaCheckV { key, seeds: seq![seed_escrow(), effect@, spec_u32_to_le_bytes(sid), seq![bump]] }
}

/// The address check of member `index` of `effect`.
pub open spec fn member_pda(key: Pubkey, effect: Pubkey, index: u64, bump: u8) -> PdaCheckV {
    PdaCheckV { key, seeds: seq![seed_member(), effect@, spec_u64_to_le_bytes(index), seq![bump]] }
}

pub(crate) fn pda_of(key: &Pubkey, prefix: Vec<u8>, effect: &Pubkey, id: Vec<u8>, bump: u8) -> (r: PdaCheck)
    ensures
        r@ == (PdaCheckV { key: *key, seeds: seq![prefix@, effect@, id@, seq![bump]] }),
{
    let mut seeds: Vec<Vec<u8>> = Vec::new();
    seeds.push(prefix);
    seeds.push(slice_to_vec(effect.as_slice()));
    seeds.push(id);
    let mut b: Vec<u8> = Vec::new();
    b.push(bump);
    seeds.push(b);
    let r = PdaCheck { key: *key, seeds };
    assert(r@.seeds =~= seq![prefix@, effect@, id@, seq![bump]]);
    r
}

/// The address check of shard `sid` of `effect`.
pub fn shard_pda_check(key: &Pubkey, effect: &Pubkey, sid: u32, bump: u8) -> (r: PdaCheck)
    ensures
        r@ == shard_pda(*key, *effect, sid, bump),
{
    let prefix = vec![99u8, 97u8, 115u8, 46u8, 115u8];
    assert(prefix@ =~= seed_shard());
    pda_of(key, prefix, effect, u32_to_le_bytes(sid), bump)
}

/// The address check of the escrow of shard `sid` of `effect`.
pub fn escrow_pda_check(key: &Pubkey, effect: &Pubkey, sid: u32, bump: u8) -> (r: PdaCheck)
    ensures
        r@ == escrow_pda(*key, *effect, sid, bump),
{
    let prefix = vec![99u8, 97u8, 115u8, 46u8, 101u8];
    assert(prefix@ =~= seed_escrow());
    pda_of(key, prefix, effect, u32_to_le_bytes(sid), bump)
}

/// The address check of member `index` of `effect`.
pub fn member_pda_check(key: &Pubkey, effect: &Pubkey, index: u64, bump: u8) -> (r: PdaCheck)
    ensures
        r@ == member_pda(*key, *effect, index, bump),
{
    let prefix = vec![99u8, 97u8, 115u8, 46u8, 109u8];
    assert(prefix@ =~= seed_member());
    pda_of(key, prefix, effect, u64_to_le_bytes(index), bump)
}

} // verus!
