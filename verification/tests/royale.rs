use freshet::program::error::ProgramError;
use solana_pubkey::Pubkey as SolanaKey;
use freshet::program::{Account, Pubkey};
use freshet::royale::{process_instruction, ID};
use std::collections::HashMap;

const FUND: u64 = 1_000_000_000;
const ALIVE_OFFSET: usize = 92;
const STATUS_OFFSET: usize = 9;
const STATUS_DONE: u8 = 4;

struct Meta {
    key: Pubkey,
    signer: bool,
    writable: bool,
}

fn w(key: Pubkey) -> Meta {
    Meta { key, signer: false, writable: true }
}
fn ro(key: Pubkey) -> Meta {
    Meta { key, signer: false, writable: false }
}
fn sgn(key: Pubkey) -> Meta {
    Meta { key, signer: true, writable: false }
}

#[derive(Clone)]
struct Stored {
    owner: Pubkey,
    lamports: u64,
    data: Vec<u8>,
}

fn owned(len: usize) -> Stored {
    Stored { owner: ID, lamports: FUND, data: vec![0u8; len] }
}
fn wallet() -> Stored {
    Stored { owner: [0u8; 32], lamports: FUND, data: vec![] }
}

struct H {
    led: HashMap<Pubkey, Stored>,
    next: u8,
}

impl H {
    fn new() -> Self {
        H { led: HashMap::new(), next: 0 }
    }
    fn unique(&mut self) -> Pubkey {
        self.next += 1;
        let mut k = [0u8; 32];
        k[0] = self.next;
        k[31] = 0xCD;
        k
    }
    fn put(&mut self, k: Pubkey, a: Stored) {
        self.led.insert(k, a);
    }
    fn run(&mut self, metas: Vec<Meta>, data: Vec<u8>) -> Result<(), ProgramError> {
        let mut accounts: Vec<Account> = metas
            .iter()
            .map(|m| {
                let s = self.led.get(&m.key).cloned().unwrap_or_else(wallet);
                Account {
                    key: m.key,
                    owner: s.owner,
                    is_signer: m.signer,
                    is_writable: m.writable,
                    lamports: s.lamports,
                    data: s.data,
                }
            })
            .collect();
        let r = process_instruction(&mut accounts, &data).expect("the transaction aborts");
        if r.is_ok() {
            for a in accounts {
                self.led.insert(a.key, Stored { owner: a.owner, lamports: a.lamports, data: a.data });
            }
        }
        r
    }
    fn raw(&mut self, metas: Vec<Meta>, data: Vec<u8>) -> Option<Result<(), ProgramError>> {
        let mut accounts: Vec<Account> = metas
            .iter()
            .map(|m| {
                let s = self.led.get(&m.key).cloned().unwrap_or_else(wallet);
                Account {
                    key: m.key,
                    owner: s.owner,
                    is_signer: m.signer,
                    is_writable: m.writable,
                    lamports: s.lamports,
                    data: s.data,
                }
            })
            .collect();
        process_instruction(&mut accounts, &data)
    }
    fn ok(&mut self, metas: Vec<Meta>, data: Vec<u8>) {
        let r = self.run(metas, data);
        assert!(r.is_ok(), "instruction failed: {:?}", r.as_ref().err());
        r.unwrap()
    }
    fn data(&self, k: &Pubkey) -> &[u8] {
        &self.led.get(k).unwrap().data
    }
}

/// The address of player `index` of `round`, and its bump.
fn player_address(round: &Pubkey, index: u64) -> (Pubkey, u8) {
    let (k, bump) = SolanaKey::find_program_address(
        &[b"ply", round, &index.to_le_bytes()],
        &SolanaKey::new_from_array(ID),
    );
    (k.to_bytes(), bump)
}

/// Opens a round with `n` players, each with its own owner, and locks it.
fn locked_round(h: &mut H, n: u64) -> (Pubkey, Pubkey, Vec<Pubkey>, Vec<Pubkey>) {
    let round = h.unique();
    let authority = h.unique();
    h.put(round, owned(68));
    h.put(authority, wallet());
    h.ok(vec![w(round), sgn(authority)], vec![0u8, 0u8]);
    let mut owners = vec![];
    let mut players = vec![];
    for i in 0..n {
        let owner = h.unique();
        let (p, bump) = player_address(&round, i);
        h.put(p, owned(93));
        h.put(owner, wallet());
        let mut d = vec![1u8, bump];
        d.extend_from_slice(&owner);
        h.ok(vec![w(round), w(p), sgn(authority)], d);
        owners.push(owner);
        players.push(p);
    }
    h.ok(vec![w(round), sgn(authority)], vec![2u8]);
    (round, authority, owners, players)
}

#[test]
fn idle_player_is_eliminated_actors_survive() {
    let mut h = H::new();
    let (round, _authority, owners, players) = locked_round(&mut h, 3);

    // players 0 and 1 act; player 2 stays offline (never sends a transaction)
    h.ok(vec![ro(round), w(players[0]), sgn(owners[0])], vec![3u8]);
    h.ok(vec![ro(round), w(players[1]), sgn(owners[1])], vec![3u8]);

    // permissionless sweep over the whole roster, then resolve the round
    h.ok(vec![w(round), w(players[0]), w(players[1]), w(players[2])], vec![4u8, 3u8]);
    h.ok(vec![w(round)], vec![5u8]);

    assert_eq!(h.data(&round)[STATUS_OFFSET], STATUS_DONE, "round resolved");
    assert_eq!(h.data(&players[0])[ALIVE_OFFSET], 1, "actor survives");
    assert_eq!(h.data(&players[1])[ALIVE_OFFSET], 1, "actor survives");
    assert_eq!(
        h.data(&players[2])[ALIVE_OFFSET],
        0,
        "offline player eliminated by the crank — the push-mode effect pull can't express"
    );
}

#[test]
fn eliminated_player_cannot_act_next_round() {
    let mut h = H::new();
    let (round, authority, owners, players) = locked_round(&mut h, 2);
    h.ok(vec![ro(round), w(players[0]), sgn(owners[0])], vec![3u8]);
    h.ok(vec![w(round), w(players[0]), w(players[1])], vec![4u8, 2u8]);
    h.ok(vec![w(round)], vec![5u8]);
    h.ok(vec![w(round), sgn(authority)], vec![6u8]);
    assert_eq!(u64::from_le_bytes(h.data(&round)[12..20].try_into().unwrap()), 2);
    let r = h.run(vec![ro(round), w(players[1]), sgn(owners[1])], vec![3u8]);
    assert_eq!(r.err(), Some(ProgramError::Custom(30)));
    h.ok(vec![ro(round), w(players[0]), sgn(owners[0])], vec![3u8]);
    assert_eq!(u64::from_le_bytes(h.data(&players[0])[84..92].try_into().unwrap()), 2);
}

#[test]
fn sweep_is_batched_and_resumable() {
    let mut h = H::new();
    let (round, _authority, owners, players) = locked_round(&mut h, 3);
    h.ok(vec![ro(round), w(players[2]), sgn(owners[2])], vec![3u8]);
    // finishing before the roster is covered is refused
    assert_eq!(h.run(vec![w(round)], vec![5u8]).err(), Some(ProgramError::Custom(1)));
    h.ok(vec![w(round), w(players[0]), w(players[1])], vec![4u8, 2u8]);
    assert_eq!(u64::from_le_bytes(h.data(&round)[28..36].try_into().unwrap()), 2);
    // the next batch starts at the cursor: passing player 0 again is refused
    assert_eq!(h.run(vec![w(round), w(players[0])], vec![4u8, 1u8]).err(), Some(ProgramError::Custom(7)));
    h.ok(vec![w(round), w(players[2])], vec![4u8, 5u8]);
    assert_eq!(h.run(vec![w(round), w(players[2])], vec![4u8, 1u8]).err(), Some(ProgramError::Custom(1)));
    h.ok(vec![w(round)], vec![5u8]);
    assert_eq!(h.data(&players[0])[ALIVE_OFFSET], 0);
    assert_eq!(h.data(&players[1])[ALIVE_OFFSET], 0);
    assert_eq!(h.data(&players[2])[ALIVE_OFFSET], 1);
}

#[test]
fn only_the_authority_opens_the_window() {
    let mut h = H::new();
    let round = h.unique();
    let authority = h.unique();
    let other = h.unique();
    h.put(round, owned(68));
    assert_eq!(h.run(vec![w(round), ro(authority)], vec![0u8, 0u8]).err(), Some(ProgramError::Custom(11)));
    h.ok(vec![w(round), sgn(authority)], vec![0u8, 7u8]);
    assert_eq!(&h.data(&round)[0..8], b"FRSHROND");
    assert_eq!(h.data(&round)[10], 7);
    assert_eq!(u64::from_le_bytes(h.data(&round)[12..20].try_into().unwrap()), 1);
    // a second open on the same account is refused
    assert_eq!(h.run(vec![w(round), sgn(authority)], vec![0u8, 0u8]).err(), Some(ProgramError::Custom(7)));
    // locking an empty roster is the wrong phase; a stranger may not lock
    assert_eq!(h.run(vec![w(round), sgn(other)], vec![2u8]).err(), Some(ProgramError::Custom(11)));
    assert_eq!(h.run(vec![w(round), sgn(authority)], vec![2u8]).err(), Some(ProgramError::Custom(0)));
    assert_eq!(h.run(vec![w(round)], vec![9u8]).err(), Some(ProgramError::InvalidInstructionData));
}

fn bad(c: u32) -> Option<ProgramError> {
    Some(ProgramError::Custom(c))
}

#[test]
fn refusals_of_the_round() {
    let mut h = H::new();
    let (round, authority, owners, players) = locked_round(&mut h, 2);
    // no joining once the window is open
    let late = h.unique();
    h.put(late, owned(93));
    let mut d = vec![1u8, 0u8];
    d.extend_from_slice(&owners[0]);
    assert_eq!(h.run(vec![w(round), w(late), sgn(authority)], d.clone()).err(), bad(0));
    assert_eq!(h.run(vec![w(round), w(late), sgn(authority)], vec![1u8, 0u8]).err(), Some(ProgramError::InvalidInstructionData));
    // only the player's owner acts for it
    assert_eq!(h.run(vec![ro(round), w(players[0]), sgn(owners[1])], vec![3u8]).err(), bad(11));
    assert_eq!(h.run(vec![ro(round), w(players[0]), ro(owners[0])], vec![3u8]).err(), bad(11));
    // a player of another round is refused
    let (other, _a2, _o2, _p2) = locked_round(&mut h, 1);
    assert_eq!(h.run(vec![ro(other), w(players[0]), sgn(owners[0])], vec![3u8]).err(), bad(7));
    // the round itself in a player slot is a double borrow
    assert_eq!(h.run(vec![w(round), w(round)], vec![4u8, 1u8]).err(), Some(ProgramError::AccountBorrowFailed));
    // too few players for the batch
    assert_eq!(h.run(vec![w(round), w(players[0])], vec![4u8, 2u8]).err(), Some(ProgramError::NotEnoughAccountKeys));
    // next_round only once the round is resolved, and only by the authority
    assert_eq!(h.run(vec![w(round), sgn(authority)], vec![6u8]).err(), bad(0));
    h.ok(vec![w(round), w(players[0]), w(players[1])], vec![4u8, 2u8]);
    h.ok(vec![w(round)], vec![5u8]);
    assert_eq!(h.run(vec![w(round), sgn(owners[0])], vec![6u8]).err(), bad(11));
    assert_eq!(h.run(vec![w(round)], vec![5u8]).err(), bad(0));
}

/// A round number at its limit aborts `next_round` instead of wrapping.
#[test]
fn next_round_at_the_last_round_number_aborts() {
    let mut h = H::new();
    let (round, authority, _owners, players) = locked_round(&mut h, 1);
    h.ok(vec![w(round), w(players[0])], vec![4u8, 1u8]);
    h.ok(vec![w(round)], vec![5u8]);
    let mut r = h.led.get(&round).unwrap().clone();
    r.data[12..20].copy_from_slice(&u64::MAX.to_le_bytes());
    h.put(round, r);
    assert!(h.raw(vec![w(round), sgn(authority)], vec![6u8]).is_none());
    let stranger = h.unique();
    assert!(matches!(h.raw(vec![w(round), sgn(stranger)], vec![6u8]), Some(Err(ProgramError::Custom(11)))));
}

#[test]
fn a_player_at_another_address_is_refused() {
    let mut h = H::new();
    let round = h.unique();
    let authority = h.unique();
    h.put(round, owned(68));
    h.ok(vec![w(round), sgn(authority)], vec![0u8, 0u8]);
    let owner = h.unique();
    let (p1, bump1) = player_address(&round, 1);
    h.put(p1, owned(93));
    let mut d = vec![1u8, bump1];
    d.extend_from_slice(&owner);
    assert_eq!(h.run(vec![w(round), w(p1), sgn(authority)], d).err(), bad(7), "index 0 is next, not 1");
    let (p0, bump0) = player_address(&round, 0);
    h.put(p0, owned(93));
    let mut d = vec![1u8, bump0];
    d.extend_from_slice(&owner);
    h.ok(vec![w(round), w(p0), sgn(authority)], d);
}
