use freshet::program::error::ProgramError;
use freshet::program::layout::{Effect, MemberHeader, Shard};
use freshet::program::process_instruction;
use freshet::program::security::{pay_amount, transfer_lamports};
use solana_pubkey::Pubkey as SolanaKey;
use freshet::program::{Account, Ix, Pubkey, CONSUMER_ID};
use freshet::state::Error as CoreErr;
use freshet::state::Machine;
use std::collections::HashMap;

const DELTA: u64 = 5;
const BOUNTY_PER: u64 = 1_000;
const FUND: u64 = 1_000_000_000;
/// Rent-exempt minimum of a 64-byte escrow at the default rent.
const ESCROW_FLOOR: u64 = 1_336_320;

#[test]
fn ix_tag_decode_is_stable_and_checked() {
    let all = [
        Ix::InitEffect,
        Ix::InitShards,
        Ix::Enroll,
        Ix::Seal,
        Ix::AdvanceReduce,
        Ix::ReduceShards,
        Ix::BeginApply,
        Ix::AdvanceApply,
        Ix::TryFinishApply,
        Ix::Finalize,
        Ix::RefundEscrow,
        Ix::TopUpBounty,
        Ix::Skip,
        Ix::SkipReduce,
        Ix::Cancel,
        Ix::Reset,
    ];
    for ix in all {
        assert_eq!(Ix::try_from(ix as u8).unwrap(), ix);
    }
    for v in 16u8..=255 {
        assert!(Ix::try_from(v).is_err(), "tag {v} must be rejected");
    }
}

fn code(e: CoreErr) -> u32 {
    match freshet::program::error::map(e) {
        ProgramError::Custom(c) => c,
        _ => panic!("expected Custom"),
    }
}

#[test]
fn core_err_maps_to_spec_12_codes() {
    assert_eq!(code(CoreErr::WrongPhase), 0);
    assert_eq!(code(CoreErr::ShardComplete), 1);
    assert_eq!(code(CoreErr::ShardNotComplete), 2);
    assert_eq!(code(CoreErr::AlreadyFinalized), 4);
    assert_eq!(code(CoreErr::BadShardCount), 13);
    assert_eq!(code(CoreErr::NotShardable), 13);
    assert_eq!(code(CoreErr::MergeOrder), 16);
    assert_eq!(code(CoreErr::PullNoReset), 17);
    assert_eq!(code(CoreErr::ShardIdOutOfRange), 18);
    assert_eq!(code(CoreErr::PullPushExclusive), 20);
    assert_eq!(code(CoreErr::EpochUninit), 21);
    assert_eq!(code(CoreErr::ShardsIncomplete), 22);
    assert_eq!(code(CoreErr::NotSealed), 23);
    assert_eq!(code(CoreErr::BadStatus), 25);
}

#[test]
fn pay_amount_is_all_or_nothing() {
    assert_eq!(pay_amount(10_000, 1_000, 3, 3_000), Ok(9_000));
    assert_eq!(pay_amount(10_000, 1_000, 3, 3_001), Err(ProgramError::Custom(12)));
    assert_eq!(pay_amount(500, 1_000, 0, 1), Err(ProgramError::Custom(12)));
    assert_eq!(pay_amount(u64::MAX, 0, 2, u64::MAX), Err(ProgramError::Custom(12)));
    assert_eq!(pay_amount(1_000, 1_000, 5, 0), Ok(0));
}

fn acct(key: Pubkey, lamports: u64) -> Account {
    Account { key, owner: [0u8; 32], is_signer: false, is_writable: true, lamports, data: vec![] }
}

#[test]
fn transfer_moves_exactly_the_amount() {
    let a = acct([1u8; 32], 100);
    let b = acct([2u8; 32], 5);
    assert_eq!(transfer_lamports(&a, &b, 40), Ok((60, 45)));
    assert_eq!(transfer_lamports(&a, &b, 101), Err(ProgramError::ArithmeticOverflow));
    assert_eq!(transfer_lamports(&a, &a, 1), Err(ProgramError::AccountBorrowFailed));
    let full = acct([3u8; 32], u64::MAX);
    assert_eq!(transfer_lamports(&a, &full, 1), Err(ProgramError::ArithmeticOverflow));
    let mut ro = acct([4u8; 32], 100);
    ro.is_writable = false;
    assert_eq!(transfer_lamports(&ro, &b, 1), Err(ProgramError::InvalidAccountData));
}

/// One account of an instruction: its address and how it is passed.
struct Meta {
    key: Pubkey,
    signer: bool,
    writable: bool,
}

fn w(key: Pubkey) -> Meta {
    Meta { key, signer: false, writable: true }
}
fn ro(key: Pubkey) -> Meta {
    Meta { key, signer: false, writable: false }
}
fn signer(key: Pubkey) -> Meta {
    Meta { key, signer: true, writable: false }
}
fn signer_w(key: Pubkey) -> Meta {
    Meta { key, signer: true, writable: true }
}

#[derive(Clone)]
struct Stored {
    owner: Pubkey,
    lamports: u64,
    data: Vec<u8>,
}

fn owned_zeroed(len: usize) -> Stored {
    Stored { owner: CONSUMER_ID, lamports: FUND, data: vec![0u8; len] }
}
fn wallet() -> Stored {
    Stored { owner: [0u8; 32], lamports: FUND, data: vec![] }
}

struct Harness {
    ledger: HashMap<Pubkey, Stored>,
    next: u8,
}

impl Harness {
    fn new() -> Self {
        Harness { ledger: HashMap::new(), next: 100 }
    }
    fn unique(&mut self) -> Pubkey {
        self.next += 1;
        let mut k = [0u8; 32];
        k[0] = self.next;
        k[31] = 0xAB;
        k
    }
    fn put(&mut self, k: Pubkey, a: Stored) {
        self.ledger.insert(k, a);
    }
    fn get(&self, k: &Pubkey) -> &Stored {
        self.ledger.get(k).expect("account in ledger")
    }
    fn run(&mut self, metas: Vec<Meta>, data: Vec<u8>) -> Result<(), ProgramError> {
        let mut accounts: Vec<Account> = metas
            .iter()
            .map(|m| {
                let s = self.ledger.get(&m.key).cloned().unwrap_or_else(wallet);
                Account {
                    key: m.key,
                    owner: s.owner,
                    is_signer: m.signer,
                    is_writable: m.writable,
                    lamports: s.lamports,
                    data: s.data,
                }
            })
            .collect();
        let r = process_instruction(&mut accounts, &data, ESCROW_FLOOR).expect("the transaction aborts");
        if r.is_ok() {
            for a in accounts {
                self.ledger.insert(a.key, Stored { owner: a.owner, lamports: a.lamports, data: a.data });
            }
        }
        r
    }
    fn raw(&mut self, metas: Vec<Meta>, data: Vec<u8>) -> Option<Result<(), ProgramError>> {
        let mut accounts: Vec<Account> = metas
            .iter()
            .map(|m| {
                let s = self.ledger.get(&m.key).cloned().unwrap_or_else(wallet);
                Account {
                    key: m.key,
                    owner: s.owner,
                    is_signer: m.signer,
                    is_writable: m.writable,
                    lamports: s.lamports,
                    data: s.data,
                }
            })
            .collect();
        process_instruction(&mut accounts, &data, ESCROW_FLOOR)
    }
    fn ok(&mut self, metas: Vec<Meta>, data: Vec<u8>) {
        let r = self.run(metas, data);
        assert!(r.is_ok(), "instruction failed: {:?}", r.as_ref().err());
        r.unwrap()
    }
}

/// The program address of `prefix ++ effect ++ id` and its bump.
fn pda(prefix: &[u8], effect: &Pubkey, id: &[u8]) -> (Pubkey, u8) {
    let (k, bump) =
        SolanaKey::find_program_address(&[prefix, effect, id], &SolanaKey::new_from_array(CONSUMER_ID));
    (k.to_bytes(), bump)
}

fn init_effect_data(shard_count: u32, delta: u64) -> Vec<u8> {
    init_effect_data_flags(shard_count, delta, 0)
}

fn init_effect_data_flags(shard_count: u32, delta: u64, flags: u8) -> Vec<u8> {
    let mut d = vec![0u8; 1 + 1 + 1 + 4 + 128];
    d[0] = 0;
    d[1] = 0;
    d[2] = flags;
    d[3..7].copy_from_slice(&shard_count.to_le_bytes());
    d[7..15].copy_from_slice(&delta.to_le_bytes());
    d
}

/// Builds a sealed single-pass effect with one shard and `total` members; returns the
/// effect, shard, escrow and members.
fn sealed_effect(
    h: &mut Harness,
    authority: Pubkey,
    total: u64,
    escrow_fund: u64,
) -> (Pubkey, Pubkey, Pubkey, Vec<Pubkey>) {
    sealed_effect_flags(h, authority, total, escrow_fund, 0)
}

fn sealed_effect_flags(
    h: &mut Harness,
    authority: Pubkey,
    total: u64,
    escrow_fund: u64,
    flags: u8,
) -> (Pubkey, Pubkey, Pubkey, Vec<Pubkey>) {
    let effect = h.unique();
    h.put(effect, owned_zeroed(296));
    h.put(authority, wallet());
    h.ok(vec![w(effect), signer(authority)], init_effect_data_flags(1, DELTA, flags));

    let (shard0, sbump) = pda(b"cas.s", &effect, &0u32.to_le_bytes());
    let (escrow0, ebump) = pda(b"cas.e", &effect, &0u32.to_le_bytes());
    h.put(shard0, owned_zeroed(152));
    h.put(escrow0, Stored { lamports: escrow_fund, ..owned_zeroed(64) });
    let mut ishd = vec![1u8];
    ishd.extend_from_slice(&0u32.to_le_bytes());
    ishd.push(sbump);
    ishd.push(ebump);
    ishd.extend_from_slice(&BOUNTY_PER.to_le_bytes());
    h.ok(vec![w(effect), w(shard0), w(escrow0), signer(authority)], ishd);

    let mut members = vec![];
    for i in 0..total {
        let (m, mbump) = pda(b"cas.m", &effect, &i.to_le_bytes());
        h.put(m, owned_zeroed(80));
        h.ok(vec![w(effect), w(m), signer(authority)], vec![2u8, mbump]);
        members.push(m);
    }
    h.ok(vec![w(effect), signer(authority)], vec![3u8]);
    (effect, shard0, escrow0, members)
}

/// Full single-pass lifecycle to Done: members credited exactly once, keeper paid per item.
#[test]
fn t5_full_lifecycle_reaches_done() {
    let mut h = Harness::new();
    let authority = h.unique();
    let cranker = h.unique();
    let total: u64 = 2;
    h.put(cranker, Stored { lamports: 0, ..wallet() });
    let (effect, shard0, escrow0, members) = sealed_effect(&mut h, authority, total, FUND);

    let mut metas = vec![ro(effect), w(shard0), w(escrow0), signer_w(cranker)];
    for m in &members {
        metas.push(w(*m));
    }
    h.ok(metas, vec![7u8, 2u8]);

    h.ok(vec![w(effect), ro(shard0)], vec![8u8]);
    h.ok(vec![w(effect)], vec![9u8]);

    let e = h.get(&effect);
    assert_eq!(e.data[9], 4, "status == Done(4)");
    assert_ne!(e.data[11] & (1 << 5), 0, "FINALIZED flag set");
    for m in &members {
        let body = u64::from_le_bytes(h.get(m).data[72..80].try_into().unwrap());
        assert_eq!(body, DELTA, "member credited by delta exactly once");
    }
    assert_eq!(h.get(&cranker).lamports, total * BOUNTY_PER, "keeper paid per item");
    assert_eq!(h.get(&escrow0).lamports, FUND - total * BOUNTY_PER);
}

/// A cross-escrow drain must fail: advancing effect A's shard while passing effect B's
/// escrow is rejected before any payout, leaving the victim escrow untouched.
#[test]
fn t3_cross_escrow_drain_fails() {
    let mut h = Harness::new();
    let authority = h.unique();
    let cranker = h.unique();
    let (effect_a, shard_a, _escrow_a, members_a) = sealed_effect(&mut h, authority, 1, FUND);
    let (_effect_b, _shard_b, escrow_b, _members_b) = sealed_effect(&mut h, authority, 1, FUND);
    let escrow_b_before = h.get(&escrow_b).lamports;

    let metas = vec![ro(effect_a), w(shard_a), w(escrow_b), signer_w(cranker), w(members_a[0])];
    let r = h.run(metas, vec![7u8, 1u8]);
    assert!(r.is_err(), "cross-escrow drain must be rejected");
    assert_eq!(r.err(), Some(ProgramError::Custom(18)));
    assert_eq!(h.get(&escrow_b).lamports, escrow_b_before, "victim escrow B must be untouched");
}

/// A second crank of the same range in the same epoch is refused, and the member keeps a
/// single credit.
#[test]
fn crank_past_the_shard_is_shard_complete() {
    let mut h = Harness::new();
    let authority = h.unique();
    let cranker = h.unique();
    let (effect, shard0, escrow0, members) = sealed_effect(&mut h, authority, 1, FUND);
    let metas = || vec![ro(effect), w(shard0), w(escrow0), signer_w(cranker), w(members[0])];
    h.ok(metas(), vec![7u8, 4u8]);
    let r = h.run(metas(), vec![7u8, 4u8]);
    assert_eq!(r.err(), Some(ProgramError::Custom(1)));
    let body = u64::from_le_bytes(h.get(&members[0]).data[72..80].try_into().unwrap());
    assert_eq!(body, DELTA);
}

/// A batch shorter than the accounts passed needs the effect itself in the tail slots.
#[test]
fn tail_slots_must_be_the_effect() {
    let mut h = Harness::new();
    let authority = h.unique();
    let cranker = h.unique();
    let stranger = h.unique();
    let (effect, shard0, escrow0, members) = sealed_effect(&mut h, authority, 1, FUND);
    let bad = vec![ro(effect), w(shard0), w(escrow0), signer_w(cranker), w(members[0]), ro(stranger)];
    assert_eq!(h.run(bad, vec![7u8, 1u8]).err(), Some(ProgramError::Custom(9)));
    let good = vec![ro(effect), w(shard0), w(escrow0), signer_w(cranker), w(members[0]), ro(effect)];
    h.ok(good, vec![7u8, 1u8]);
}

/// An escrow that cannot cover the batch above its rent floor pays nothing and blocks
/// the crank.
#[test]
fn underfunded_escrow_blocks_the_crank() {
    let mut h = Harness::new();
    let authority = h.unique();
    let cranker = h.unique();
    let (effect, shard0, escrow0, members) =
        sealed_effect(&mut h, authority, 2, ESCROW_FLOOR + BOUNTY_PER);
    let metas = vec![ro(effect), w(shard0), w(escrow0), signer_w(cranker), w(members[0]), w(members[1])];
    assert_eq!(h.run(metas, vec![7u8, 2u8]).err(), Some(ProgramError::Custom(12)));
    let metas = vec![ro(effect), w(shard0), w(escrow0), signer_w(cranker), w(members[0])];
    h.ok(metas, vec![7u8, 1u8]);
    assert_eq!(h.get(&escrow0).lamports, ESCROW_FLOOR);
}

#[test]
fn empty_and_unknown_instructions_are_invalid() {
    let mut h = Harness::new();
    let k = h.unique();
    assert_eq!(h.run(vec![w(k)], vec![]).err(), Some(ProgramError::InvalidInstructionData));
    assert_eq!(h.run(vec![w(k)], vec![16u8]).err(), Some(ProgramError::InvalidInstructionData));
    assert_eq!(h.run(vec![], vec![3u8]).err(), Some(ProgramError::NotEnoughAccountKeys));
}

fn body(h: &Harness, m: &Pubkey) -> u64 {
    u64::from_le_bytes(h.get(m).data[72..80].try_into().unwrap())
}

fn set_body(h: &mut Harness, m: &Pubkey, v: u64) {
    let mut a = h.get(m).clone();
    a.data[72..80].copy_from_slice(&v.to_le_bytes());
    h.put(*m, a);
}

fn le64(d: &[u8], off: usize) -> u64 {
    u64::from_le_bytes(d[off..off + 8].try_into().unwrap())
}

/// Two-phase lifecycle: REDUCE sums the bodies into the shard, the merge moves the sum
/// into the effect, then APPLY credits every member.
#[test]
fn two_phase_lifecycle_reduces_then_applies() {
    let mut h = Harness::new();
    let authority = h.unique();
    let cranker = h.unique();
    h.put(cranker, Stored { lamports: 0, ..wallet() });
    let (effect, shard0, escrow0, members) = sealed_effect_flags(&mut h, authority, 3, FUND, 2);
    assert_eq!(h.get(&effect).data[9], 1, "sealed two-phase effect is Reducing");
    // the consumer bodies, written after enrolment
    for (i, m) in members.iter().enumerate() {
        set_body(&mut h, m, 10 * (i as u64 + 1));
    }
    let mut metas = vec![ro(effect), w(shard0), w(escrow0), signer_w(cranker)];
    for m in &members {
        metas.push(w(*m));
    }
    h.ok(metas, vec![4u8, 3u8]);
    assert_eq!(le64(&h.get(&shard0).data, 72), 60, "partial accumulator is the sum");
    assert_eq!(le64(&h.get(&shard0).data, 56), 3, "REDUCE cursor covers the shard");
    h.ok(vec![w(effect), ro(shard0)], vec![5u8]);
    let e = h.get(&effect).data.clone();
    assert_eq!(e[9], 2, "every shard merged: Reduced");
    assert_eq!(le64(&e, 82), 60, "acc_global holds the merged sum");
    h.ok(vec![w(effect)], vec![6u8]);
    assert_eq!(h.get(&effect).data[9], 3, "Applying");
    let mut metas = vec![ro(effect), w(shard0), w(escrow0), signer_w(cranker)];
    for m in &members {
        metas.push(w(*m));
    }
    h.ok(metas, vec![7u8, 3u8]);
    h.ok(vec![w(effect), ro(shard0)], vec![8u8]);
    h.ok(vec![w(effect)], vec![9u8]);
    assert_eq!(h.get(&effect).data[9], 4);
    for (i, m) in members.iter().enumerate() {
        assert_eq!(body(&h, m), 10 * (i as u64 + 1) + DELTA);
    }
    assert_eq!(h.get(&cranker).lamports, 6 * BOUNTY_PER, "paid for both phases");
}

/// After `reset` the same members are credited once more in the new epoch, and only once.
#[test]
fn reset_reruns_in_a_new_epoch_exactly_once() {
    let mut h = Harness::new();
    let authority = h.unique();
    let cranker = h.unique();
    let (effect, shard0, escrow0, members) = sealed_effect(&mut h, authority, 2, FUND);
    let crank = |h: &mut Harness| {
        let metas = vec![ro(effect), w(shard0), w(escrow0), signer_w(cranker), w(members[0]), w(members[1])];
        h.run(metas, vec![7u8, 2u8])
    };
    crank(&mut h).unwrap();
    h.ok(vec![w(effect), ro(shard0)], vec![8u8]);
    // not resettable while the phase is still open is covered by the state tests; here Done
    h.ok(vec![w(effect), signer(authority)], vec![15u8]);
    let e = h.get(&effect).data.clone();
    assert_eq!(le64(&e, 26), 2, "reset bumps the epoch");
    assert_eq!(e[9], 3, "single-pass reset re-enters Applying");
    assert_eq!(e[11] & (1 << 5), 0, "finalized flag cleared");
    crank(&mut h).unwrap();
    for m in &members {
        assert_eq!(body(&h, m), 2 * DELTA, "credited once per epoch");
        assert_eq!(le64(&h.get(m).data, 58), 2, "stamped with the new epoch");
    }
    assert_eq!(crank(&mut h).err(), Some(ProgramError::Custom(1)));
}

/// `cancel` stops an effect; `refund_escrow` then returns the surplus above the rent
/// floor to the authority once per epoch.
#[test]
fn cancel_then_refund_returns_the_surplus_once() {
    let mut h = Harness::new();
    let authority = h.unique();
    let (effect, _shard0, escrow0, _members) = sealed_effect(&mut h, authority, 1, FUND);
    let stranger = h.unique();
    assert_eq!(h.run(vec![w(effect), signer(stranger)], vec![14u8]).err(), Some(ProgramError::Custom(11)));
    h.ok(vec![w(effect), signer(authority)], vec![14u8]);
    assert_eq!(h.get(&effect).data[9], 5, "Cancelled");
    assert_eq!(h.run(vec![w(effect), signer(authority)], vec![14u8]).err(), Some(ProgramError::Custom(0)));
    let before = h.get(&authority).lamports;
    h.ok(vec![ro(effect), w(escrow0), w(authority)], vec![10u8]);
    assert_eq!(h.get(&escrow0).lamports, ESCROW_FLOOR);
    assert_eq!(h.get(&authority).lamports, before + FUND - ESCROW_FLOOR);
    h.ok(vec![ro(effect), w(escrow0), w(authority)], vec![10u8]);
    assert_eq!(h.get(&authority).lamports, before + FUND - ESCROW_FLOOR, "one refund per epoch");
    // the refund goes to the stored authority only
    assert_eq!(h.run(vec![ro(effect), w(escrow0), w(stranger)], vec![10u8]).err(), Some(ProgramError::Custom(11)));
}

#[test]
fn top_up_bounty_funds_the_escrow() {
    let mut h = Harness::new();
    let authority = h.unique();
    let payer = h.unique();
    let (_effect, _shard0, escrow0, _members) = sealed_effect(&mut h, authority, 1, FUND);
    let mut data = vec![11u8];
    data.extend_from_slice(&5_000u64.to_le_bytes());
    h.ok(vec![w(escrow0), signer_w(payer)], data.clone());
    assert_eq!(h.get(&escrow0).lamports, FUND + 5_000);
    assert_eq!(h.get(&payer).lamports, FUND - 5_000);
    assert_eq!(h.run(vec![w(escrow0), signer_w(payer)], vec![11u8, 1]).err(), Some(ProgramError::InvalidInstructionData));
}

/// Skipping the last member still lets the shard finish: completion is cursor-derived.
#[test]
fn skip_of_the_last_member_still_finishes() {
    let mut h = Harness::new();
    let authority = h.unique();
    let cranker = h.unique();
    let (effect, shard0, escrow0, members) = sealed_effect(&mut h, authority, 2, FUND);
    h.ok(vec![ro(effect), w(shard0), w(escrow0), signer_w(cranker), w(members[0])], vec![7u8, 1u8]);
    assert_eq!(
        h.run(vec![w(effect), w(shard0), signer(authority), w(members[0])], vec![12u8]).err(),
        custom(5),
        "only the member at the cursor may be skipped"
    );
    h.ok(vec![w(effect), w(shard0), signer(authority), w(members[1])], vec![12u8]);
    assert_eq!(le64(&h.get(&effect).data, 282), 1, "apply_skipped_count grows");
    h.ok(vec![w(effect), ro(shard0)], vec![8u8]);
    assert_eq!(h.get(&effect).data[9], 4);
    assert_eq!(body(&h, &members[0]), DELTA);
    assert_eq!(body(&h, &members[1]), 0, "the skipped member's body is untouched");
    assert_eq!(le64(&h.get(&members[1]).data, 58), 1, "the skipped member is stamped");
}

/// A counter at its limit aborts the transaction instead of wrapping.
#[test]
fn enrolment_at_the_last_index_aborts() {
    let mut h = Harness::new();
    let authority = h.unique();
    let effect = h.unique();
    h.put(effect, owned_zeroed(296));
    h.ok(vec![w(effect), signer(authority)], init_effect_data(1, DELTA));
    let mut e = h.get(&effect).clone();
    e.data[34..42].copy_from_slice(&u64::MAX.to_le_bytes());
    h.put(effect, e);
    let (m, mbump) = pda(b"cas.m", &effect, &u64::MAX.to_le_bytes());
    h.put(m, owned_zeroed(80));
    assert!(h.raw(vec![w(effect), w(m), signer(authority)], vec![2u8, mbump]).is_none());
    // an earlier refusal still wins
    let stranger = h.unique();
    assert!(matches!(
        h.raw(vec![w(effect), w(m), signer(stranger)], vec![2u8, mbump]),
        Some(Err(ProgramError::Custom(11)))
    ));
}

#[test]
fn layout_accessors_read_and_write_by_copy() {
    let mut e = Effect { bytes: vec![0u8; 296] };
    e.set_epoch(7);
    e.set_shards_done(3);
    e.set_status(freshet::state::Status::Applying);
    assert_eq!(e.epoch(), 7);
    assert_eq!(e.shards_done(), 3);
    assert_eq!(e.status(), Ok(freshet::state::Status::Applying));
    assert_eq!(&e.bytes[26..34], &7u64.to_le_bytes());
    assert!(!e.pull_enabled());
    let mut s = Shard { bytes: vec![0u8; 152] };
    s.set_apply_cursor(5);
    s.set_epoch(1);
    s.lazy_reset(2);
    assert_eq!(s.apply_cursor(), 0, "a stale shard rewinds on first touch");
    assert_eq!(s.epoch(), 2);
    s.set_apply_cursor(4);
    s.lazy_reset(2);
    assert_eq!(s.apply_cursor(), 4, "a current shard is left alone");
    let mut m = MemberHeader { bytes: vec![0u8; 80] };
    m.set_last_apply_epoch(9);
    assert_eq!(m.last_apply_epoch(), 9);
    assert_eq!(m.index(), 0);
}

/// The hot path never writes the effect, and the escrow keeps its rent floor.
#[test]
fn crank_leaves_the_effect_untouched() {
    let mut h = Harness::new();
    let authority = h.unique();
    let cranker = h.unique();
    let (effect, shard0, escrow0, members) =
        sealed_effect(&mut h, authority, 2, ESCROW_FLOOR + 2 * BOUNTY_PER);
    let before = h.get(&effect).clone();
    let metas = vec![ro(effect), w(shard0), w(escrow0), signer_w(cranker), w(members[0]), w(members[1])];
    h.ok(metas, vec![7u8, 9u8]);
    assert_eq!(h.get(&effect).data, before.data);
    assert_eq!(h.get(&effect).lamports, before.lamports);
    assert_eq!(h.get(&escrow0).lamports, ESCROW_FLOOR);
    assert_eq!(h.get(&cranker).lamports, FUND + 2 * BOUNTY_PER);
    assert_eq!(le64(&h.get(&shard0).data, 64), 2, "a batch of 9 is clamped to the 2 remaining");
}

fn custom(c: u32) -> Option<ProgramError> {
    Some(ProgramError::Custom(c))
}

/// Each stable error code comes from the input that the account checks and the guards
/// refuse.
#[test]
fn error_codes_at_the_handlers() {
    let mut h = Harness::new();
    let authority = h.unique();
    let effect = h.unique();
    h.put(authority, wallet());
    // init_effect refusals
    h.put(effect, owned_zeroed(296));
    assert_eq!(h.run(vec![w(effect), signer(authority)], init_effect_data_flags(1, DELTA, 16)).err(), custom(19));
    assert_eq!(h.run(vec![w(effect), signer(authority)], init_effect_data(0, DELTA)).err(), custom(13));
    assert_eq!(h.run(vec![w(effect), signer(authority)], init_effect_data(2, DELTA)).err(), custom(13));
    assert_eq!(h.run(vec![w(effect), ro(authority)], init_effect_data(1, DELTA)).err(), custom(11));
    let small = h.unique();
    h.put(small, owned_zeroed(100));
    assert_eq!(h.run(vec![w(small), signer(authority)], init_effect_data(1, DELTA)).err(), custom(24));
    let foreign = h.unique();
    h.put(foreign, Stored { owner: [5u8; 32], ..owned_zeroed(296) });
    assert_eq!(h.run(vec![w(foreign), signer(authority)], init_effect_data(1, DELTA)).err(), custom(7));
    assert_eq!(h.run(vec![w(effect), signer(authority)], vec![0u8, 1, 2]).err(), Some(ProgramError::InvalidInstructionData));
    h.ok(vec![w(effect), signer(authority)], init_effect_data(1, DELTA));
    assert_eq!(h.run(vec![w(effect), signer(authority)], init_effect_data(1, DELTA)).err(), custom(10));
    // header checks on an existing effect
    assert_eq!(h.run(vec![w(foreign), signer(authority)], vec![3u8]).err(), custom(7));
    assert_eq!(h.run(vec![w(small), signer(authority)], vec![3u8]).err(), custom(24));
    let mut wrong_disc = h.get(&effect).clone();
    wrong_disc.data[0] = b'X';
    let wd = h.unique();
    h.put(wd, wrong_disc);
    assert_eq!(h.run(vec![w(wd), signer(authority)], vec![3u8]).err(), custom(6));
    let mut newer = h.get(&effect).clone();
    newer.data[8] = 3;
    let nv = h.unique();
    h.put(nv, newer);
    assert_eq!(h.run(vec![w(nv), signer(authority)], vec![3u8]).err(), custom(15));
    let mut corrupt = h.get(&effect).clone();
    corrupt.data[9] = 6;
    let cs = h.unique();
    h.put(cs, corrupt);
    assert_eq!(h.run(vec![w(cs), signer(authority)], vec![3u8]).err(), custom(25));
    // seal guards
    assert_eq!(h.run(vec![w(effect), signer(authority)], vec![3u8]).err(), custom(13), "no members yet");
    let mut pull = h.get(&effect).clone();
    pull.data[11] |= 8;
    let pe = h.unique();
    h.put(pe, pull);
    assert_eq!(h.run(vec![w(pe), signer(authority)], vec![3u8]).err(), custom(20));
    let (m, mbump) = pda(b"cas.m", &effect, &0u64.to_le_bytes());
    h.put(m, owned_zeroed(80));
    h.ok(vec![w(effect), w(m), signer(authority)], vec![2u8, mbump]);
    assert_eq!(h.run(vec![w(effect), signer(authority)], vec![3u8]).err(), custom(22), "no shard created");
    let mut uninit = h.get(&effect).clone();
    uninit.data[26..34].copy_from_slice(&0u64.to_le_bytes());
    let ue = h.unique();
    h.put(ue, uninit);
    assert_eq!(h.run(vec![w(ue), signer(authority)], vec![3u8]).err(), custom(21));
    // the wrong phase, finalize before Done, reset before sealing
    assert_eq!(h.run(vec![w(effect)], vec![9u8]).err(), custom(0));
    h.ok(vec![w(effect), signer(authority)], vec![14u8]);
    assert_eq!(h.run(vec![w(effect), signer(authority)], vec![15u8]).err(), custom(23));
    // a pull effect cannot be reset
    let mut pulled = h.get(&effect).clone();
    pulled.data[11] |= 8;
    let pr = h.unique();
    h.put(pr, pulled);
    assert_eq!(h.run(vec![w(pr), signer(authority)], vec![15u8]).err(), custom(17));
}

/// Finalize marks a Done effect once; the APPLY credit saturates at the top of a body.
#[test]
fn finalize_once_and_saturating_credit() {
    let mut h = Harness::new();
    let authority = h.unique();
    let cranker = h.unique();
    let (effect, shard0, escrow0, members) = sealed_effect(&mut h, authority, 2, FUND);
    set_body(&mut h, &members[1], u64::MAX - 1);
    let metas = || vec![ro(effect), w(shard0), w(escrow0), signer_w(cranker), w(members[0]), w(members[1])];
    // members passed out of order are refused
    let swapped = vec![ro(effect), w(shard0), w(escrow0), signer_w(cranker), w(members[1]), w(members[0])];
    assert_eq!(h.run(swapped, vec![7u8, 2u8]).err(), custom(5));
    assert_eq!(body(&h, &members[0]), 0, "a failed batch changes nothing");
    // promotion before the shard is complete
    assert_eq!(h.run(vec![w(effect), ro(shard0)], vec![8u8]).err(), custom(2));
    h.ok(metas(), vec![7u8, 2u8]);
    assert_eq!(body(&h, &members[0]), DELTA);
    assert_eq!(body(&h, &members[1]), u64::MAX, "the credit saturates");
    assert_eq!(le64(&h.get(&members[1]).data, 58), 1);
    h.ok(vec![w(effect), ro(shard0)], vec![8u8]);
    h.ok(vec![w(effect)], vec![9u8]);
    assert_eq!(h.run(vec![w(effect)], vec![9u8]).err(), custom(4));
}

/// The address checks run where the account checks do: a wrong address is refused with
/// `BadBump` before the slot is looked at.
#[test]
fn wrong_addresses_are_refused_first() {
    let mut h = Harness::new();
    let authority = h.unique();
    let effect = h.unique();
    h.put(effect, owned_zeroed(296));
    h.put(authority, wallet());
    h.ok(vec![w(effect), signer(authority)], init_effect_data(1, DELTA));
    let stranger = h.unique();
    h.put(stranger, Stored { data: vec![1u8; 80], ..owned_zeroed(80) });
    assert_eq!(h.run(vec![w(effect), w(stranger), signer(authority)], vec![2u8, 1u8]).err(), custom(8));
    let (m, mbump) = pda(b"cas.m", &effect, &0u64.to_le_bytes());
    h.put(m, owned_zeroed(80));
    assert_eq!(
        h.run(vec![w(effect), w(m), signer(authority)], vec![2u8, mbump.wrapping_add(1)]).err(),
        custom(8),
        "a bump other than the canonical one derives another address"
    );
    h.ok(vec![w(effect), w(m), signer(authority)], vec![2u8, mbump]);
    let (shard0, sbump) = pda(b"cas.s", &effect, &0u32.to_le_bytes());
    let (escrow0, ebump) = pda(b"cas.e", &effect, &0u32.to_le_bytes());
    h.put(shard0, owned_zeroed(152));
    h.put(escrow0, owned_zeroed(64));
    let mut ishd = vec![1u8];
    ishd.extend_from_slice(&0u32.to_le_bytes());
    ishd.push(sbump);
    ishd.push(ebump);
    ishd.extend_from_slice(&BOUNTY_PER.to_le_bytes());
    // the escrow of shard 0 passed as the shard of shard 1
    let mut other = vec![1u8];
    other.extend_from_slice(&1u32.to_le_bytes());
    other.push(sbump);
    other.push(ebump);
    other.extend_from_slice(&BOUNTY_PER.to_le_bytes());
    assert_eq!(h.run(vec![w(effect), w(shard0), w(escrow0), signer(authority)], other).err(), custom(8));
    h.ok(vec![w(effect), w(shard0), w(escrow0), signer(authority)], ishd);
}

/// A second `init_shards` on a created pair takes the fund-only branch: nothing changes.
#[test]
fn init_shards_again_is_fund_only() {
    let mut h = Harness::new();
    let authority = h.unique();
    let effect = h.unique();
    h.put(effect, owned_zeroed(296));
    h.put(authority, wallet());
    h.ok(vec![w(effect), signer(authority)], init_effect_data(1, DELTA));
    let (shard0, sbump) = pda(b"cas.s", &effect, &0u32.to_le_bytes());
    let (escrow0, ebump) = pda(b"cas.e", &effect, &0u32.to_le_bytes());
    h.put(shard0, owned_zeroed(152));
    h.put(escrow0, owned_zeroed(64));
    let mut ishd = vec![1u8];
    ishd.extend_from_slice(&0u32.to_le_bytes());
    ishd.push(sbump);
    ishd.push(ebump);
    ishd.extend_from_slice(&BOUNTY_PER.to_le_bytes());
    let metas = || vec![w(effect), w(shard0), w(escrow0), signer(authority)];
    h.ok(metas(), ishd.clone());
    let mut s = h.get(&shard0).clone();
    s.data[56..64].copy_from_slice(&3u64.to_le_bytes());
    h.put(shard0, s);
    let (e_before, s_before, x_before) =
        (h.get(&effect).data.clone(), h.get(&shard0).data.clone(), h.get(&escrow0).data.clone());
    h.ok(metas(), ishd.clone());
    assert_eq!(h.get(&effect).data, e_before, "shards_created is not counted twice");
    assert_eq!(h.get(&shard0).data, s_before, "cursors and epoch are left alone");
    assert_eq!(h.get(&escrow0).data, x_before);
    assert_eq!(u32::from_le_bytes(h.get(&effect).data[290..294].try_into().unwrap()), 1);
    // a slot that holds something else is still occupied
    let mut junk = h.get(&escrow0).clone();
    junk.data[0] = b'X';
    h.put(escrow0, junk);
    assert_eq!(h.run(metas(), ishd).err(), custom(10));
}

/// `skip_reduce` stamps the member at the REDUCE cursor with the epoch and counts it.
#[test]
fn skip_reduce_stamps_the_member_at_the_cursor() {
    let mut h = Harness::new();
    let authority = h.unique();
    let (effect, shard0, _escrow0, members) = sealed_effect_flags(&mut h, authority, 2, FUND, 2);
    h.ok(vec![w(effect), w(shard0), signer(authority), w(members[0])], vec![13u8]);
    assert_eq!(le64(&h.get(&members[0]).data, 50), 1, "last_reduce_epoch stamped");
    assert_eq!(le64(&h.get(&members[0]).data, 58), 0, "the APPLY stamp is left alone");
    assert_eq!(le64(&h.get(&effect).data, 42), 1, "reduce_skipped_count grows");
    assert_eq!(le64(&h.get(&shard0).data, 56), 1, "the REDUCE cursor moves past it");
    assert_eq!(
        h.run(vec![w(effect), w(shard0), signer(authority), w(effect)], vec![13u8]).err(),
        Some(ProgramError::AccountBorrowFailed)
    );
}

/// `reduce_shards` merges only a shard at its derived address: a copy of a fully reduced
/// shard under another key is refused, and the real shard still merges.
#[test]
fn reduce_shards_refuses_a_shard_copy() {
    let mut h = Harness::new();
    let authority = h.unique();
    let cranker = h.unique();
    h.put(cranker, Stored { lamports: 0, ..wallet() });
    let (effect, shard0, escrow0, members) = sealed_effect_flags(&mut h, authority, 2, FUND, 2);
    let mut metas = vec![ro(effect), w(shard0), w(escrow0), signer_w(cranker)];
    for m in &members {
        metas.push(w(*m));
    }
    h.ok(metas, vec![4u8, 2u8]);
    let copy = h.unique();
    let copied = h.get(&shard0).clone();
    h.put(copy, copied);
    assert_eq!(h.run(vec![w(effect), ro(copy)], vec![5u8]).err(), custom(8));
    assert_eq!(h.get(&effect).data[9], 1, "still Reducing");
    h.ok(vec![w(effect), ro(shard0)], vec![5u8]);
    assert_eq!(h.get(&effect).data[9], 2, "Reduced");
}

/// The handlers move the stored control state exactly as the control state machine
/// moves: after each crank and each promotion the shard's epoch and cursors and the
/// effect's status and counters agree with a `Machine` taking the same steps.
#[test]
fn handlers_track_the_control_state_machine() {
    let mut h = Harness::new();
    let authority = h.unique();
    let cranker = h.unique();
    h.put(cranker, Stored { lamports: 0, ..wallet() });
    let (effect, shard0, escrow0, members) = sealed_effect_flags(&mut h, authority, 3, FUND, 2);
    let mut m = Machine::init(1, true, false, false).unwrap();
    m.enroll(3).unwrap();
    m.create_shards(1).unwrap();
    m.seal().unwrap();
    let agree = |h: &Harness, m: &Machine| {
        let s = &h.get(&shard0).data;
        let e = &h.get(&effect).data;
        let st = m.shards[0];
        assert_eq!(le64(s, 48), st.epoch);
        assert_eq!(le64(s, 56), st.reduce_cursor);
        assert_eq!(le64(s, 64), st.apply_cursor);
        assert_eq!(e[9], m.status.to_u8());
        assert_eq!(u32::from_le_bytes(e[18..22].try_into().unwrap()), m.shards_done);
        assert_eq!(u32::from_le_bytes(e[22..26].try_into().unwrap()), m.merge_cursor);
        assert_eq!(le64(e, 26), m.epoch);
        assert_eq!(le64(e, 34), m.total);
    };
    agree(&h, &m);
    for (tag, first, n) in [(4u8, 0usize, 2u64), (4, 2, 1)] {
        let mut metas = vec![ro(effect), w(shard0), w(escrow0), signer_w(cranker)];
        for x in &members[first..first + n as usize] {
            metas.push(w(*x));
        }
        h.ok(metas, vec![tag, n as u8]);
        assert_eq!(m.advance_reduce(0, n), Ok(n));
        agree(&h, &m);
    }
    h.ok(vec![w(effect), ro(shard0)], vec![5u8]);
    m.reduce_shards(&[0]).unwrap();
    agree(&h, &m);
    h.ok(vec![w(effect)], vec![6u8]);
    m.begin_apply().unwrap();
    agree(&h, &m);
    let mut metas = vec![ro(effect), w(shard0), w(escrow0), signer_w(cranker)];
    for x in &members {
        metas.push(w(*x));
    }
    h.ok(metas, vec![7u8, 5u8]);
    assert_eq!(m.advance_apply(0, 5), Ok(3));
    agree(&h, &m);
    h.ok(vec![w(effect), ro(shard0)], vec![8u8]);
    m.try_finish_apply(&[0]).unwrap();
    agree(&h, &m);
}

/// A shard whose id lies outside the partition owns no member: its skip goes past the
/// phase and bound checks and is refused by the member check.
#[test]
fn skip_of_a_shard_outside_the_partition_finds_no_member() {
    let mut h = Harness::new();
    let authority = h.unique();
    let (effect, shard0, _escrow0, members) = sealed_effect(&mut h, authority, 2, FUND);
    for id in [1u32, u32::MAX] {
        let stray = h.unique();
        let mut s = h.get(&shard0).clone();
        s.data[12..16].copy_from_slice(&id.to_le_bytes());
        h.put(stray, s);
        assert_eq!(
            h.run(vec![w(effect), w(stray), signer(authority), w(members[0])], vec![12u8]).err(),
            custom(5)
        );
    }
    assert_eq!(le64(&h.get(&effect).data, 282), 0, "nothing was skipped");
}

/// A skip moves the stored control state as the control state machine's skip does.
#[test]
fn skip_tracks_the_control_state_machine() {
    let mut h = Harness::new();
    let authority = h.unique();
    let cranker = h.unique();
    let (effect, shard0, escrow0, members) = sealed_effect(&mut h, authority, 2, FUND);
    let mut m = Machine::init(1, false, false, false).unwrap();
    m.enroll(2).unwrap();
    m.create_shards(1).unwrap();
    m.seal().unwrap();
    h.ok(vec![w(effect), w(shard0), signer(authority), w(members[0])], vec![12u8]);
    m.skip(0).unwrap();
    h.ok(vec![ro(effect), w(shard0), w(escrow0), signer_w(cranker), w(members[1])], vec![7u8, 1u8]);
    assert_eq!(m.advance_apply(0, 1), Ok(1));
    let s = &h.get(&shard0).data;
    let e = &h.get(&effect).data;
    assert_eq!(le64(s, 48), m.shards[0].epoch);
    assert_eq!(le64(s, 64), m.shards[0].apply_cursor);
    assert_eq!(le64(e, 282), m.apply_skipped);
    assert_eq!(m.apply_skipped, 1);
    h.ok(vec![w(effect), ro(shard0)], vec![8u8]);
    m.try_finish_apply(&[0]).unwrap();
    assert_eq!(h.get(&effect).data[9], m.status.to_u8());
}
