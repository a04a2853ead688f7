//! The REDUCE accumulator. A [`Monoid`] is associative and commutative with an identity,
//! so shard partials merge in any order and count to the same result; the identity
//! seeds every accumulator explicitly (all-zero bytes are not the identity of every
//! monoid). Accumulators live on chain in a fixed 64-byte little-endian window.
use crate::bytes::{read_u64, window, write_u64, zero_window};
use crate::partition::{len_of, lemma_partition_bounds, lemma_partition_contiguous, lemma_partition_ordered, start_of};
use vstd::bytes::*;
use vstd::prelude::*;

verus! {

/// Size of the on-chain accumulator window (`acc_global` / `acc_partial`).
pub const ACC_BYTES: usize = 64;

/// `n` zero bytes.
pub open spec fn zeros(n: nat) -> Seq<u8> {
    Seq::new(n, |_i: int| 0u8)
}

/// A commutative monoid with a 64-byte serialization.
pub trait Monoid: Copy + Sized + PartialEq + core::fmt::Debug {
    /// The identity element.
    spec fn spec_identity() -> Self;

    /// The monoid operation.
    spec fn spec_combine(self, other: Self) -> Self;

    /// The 64-byte window this value is stored as.
    spec fn spec_to_acc(self) -> Seq<u8>;

    /// The value a 64-byte window decodes to.
    spec fn spec_from_acc(b: Seq<u8>) -> Self;

    /// The identity element.
    fn identity() -> (r: Self)
        ensures
            r == Self::spec_identity(),
    ;

    /// Combines two accumulators.
    fn combine(self, other: Self) -> (r: Self)
        ensures
            r == self.spec_combine(other),
    ;

    /// Serializes into the 64-byte window (little-endian, zero-padded tail).
    fn to_acc_bytes(&self) -> (r: [u8; ACC_BYTES])
        ensures
            r@ == self.spec_to_acc(),
    ;

    /// Deserializes from the 64-byte window.
    fn from_acc_bytes(b: &[u8; ACC_BYTES]) -> (r: Self)
        ensures
            r == Self::spec_from_acc(b@),
    ;

    /// The identity is neutral on both sides.
    proof fn lemma_identity(a: Self)
        ensures
            a.spec_combine(Self::spec_identity()) == a,
            Self::spec_identity().spec_combine(a) == a,
    ;

    /// The operation is commutative.
    proof fn lemma_commutative(a: Self, b: Self)
        ensures
            a.spec_combine(b) == b.spec_combine(a),
    ;

    /// The operation is associative.
    proof fn lemma_associative(a: Self, b: Self, c: Self)
        ensures
            a.spec_combine(b).spec_combine(c) == a.spec_combine(b.spec_combine(c)),
    ;

    /// Decoding inverts encoding.
    proof fn lemma_acc_roundtrip(a: Self)
        ensures
            a.spec_to_acc().len() == ACC_BYTES,
            Self::spec_from_acc(a.spec_to_acc()) == a,
    ;
}

/// Saturating sum (pot total, vote tally, headcount).
#[derive(Clone, Copy, PartialEq, Eq, Debug, Structural)]
pub struct Sum(pub u64);

/// `a + b`, clamped to `u64::MAX`.
pub open spec fn sat_add(a: u64, b: u64) -> u64 {
    if a + b > u64::MAX { u64::MAX } else { (a + b) as u64 }
}

impl Monoid for Sum {
    open spec fn spec_identity() -> Self {
        Sum(0)
    }

    open spec fn spec_combine(self, other: Self) -> Self {
        Sum(sat_add(self.0, other.0))
    }

    open spec fn spec_to_acc(self) -> Seq<u8> {
        spec_u64_to_le_bytes(self.0) + zeros(56)
    }

    open spec fn spec_from_acc(b: Seq<u8>) -> Self {
        Sum(spec_u64_from_le_bytes(window(b, 0, 8)))
    }

    fn identity() -> (r: Self) {
        Sum(0)
    }

    fn combine(self, other: Self) -> (r: Self) {
        Sum(self.0.saturating_add(other.0))
    }

    fn to_acc_bytes(&self) -> (r: [u8; ACC_BYTES]) {
        let mut out = zero_window();
        let ghost before = out@;
        write_u64(&mut out, 0, self.0);
        proof {
            lemma_auto_spec_u64_to_from_le_bytes();
            let le = spec_u64_to_le_bytes(self.0);
            assert forall|i: int| 0 <= i < 64 implies out@[i] == self.spec_to_acc()[i] by {
                assert(out@[i] == (before.take(0) + le + before.skip(8))[i]);
            }
            assert(out@ =~= self.spec_to_acc());
        }
        out
    }

    fn from_acc_bytes(b: &[u8; ACC_BYTES]) -> (r: Self) {
        Sum(read_u64(b, 0))
    }

    proof fn lemma_identity(a: Self) {
    }

    proof fn lemma_commutative(a: Self, b: Self) {
    }

    proof fn lemma_associative(a: Self, b: Self, c: Self) {
    }

    proof fn lemma_acc_roundtrip(a: Self) {
        lemma_auto_spec_u64_to_from_le_bytes();
        assert(window(a.spec_to_acc(), 0, 8) =~= spec_u64_to_le_bytes(a.0));
    }
}

/// Highest score and the winning member's global index. Ties resolve to the lower index,
/// which keeps `combine` commutative. The identity is "no entry": score 0 and the winner
/// sentinel `u64::MAX`.
#[derive(Clone, Copy, PartialEq, Eq, Debug, Structural)]
pub struct MaxWinner {
    pub score: u64,
    pub winner: u64,
}

impl Monoid for MaxWinner {
    open spec fn spec_identity() -> Self {
        MaxWinner { score: 0, winner: u64::MAX }
    }

    open spec fn spec_combine(self, other: Self) -> Self {
        if other.score > self.score {
            other
        } else if other.score < self.score {
            self
        } else if other.winner < self.winner {
            other
        } else {
            self
        }
    }

    open spec fn spec_to_acc(self) -> Seq<u8> {
        spec_u64_to_le_bytes(self.score) + spec_u64_to_le_bytes(self.winner) + zeros(48)
    }

    open spec fn spec_from_acc(b: Seq<u8>) -> Self {
        MaxWinner {
            score: spec_u64_from_le_bytes(window(b, 0, 8)),
            winner: spec_u64_from_le_bytes(window(b, 8, 8)),
        }
    }

    fn identity() -> (r: Self) {
        MaxWinner { score: 0, winner: u64::MAX }
    }

    fn combine(self, other: Self) -> (r: Self) {
        if other.score > self.score {
            other
        } else if other.score < self.score {
            self
        } else if other.winner < self.winner {
            other  // tie on score: the lower index wins
        } else {
            self
        }
    }

    fn to_acc_bytes(&self) -> (r: [u8; ACC_BYTES]) {
        let mut out = zero_window();
        let ghost before = out@;
        write_u64(&mut out, 0, self.score);
        let ghost mid = out@;
        write_u64(&mut out, 8, self.winner);
        proof {
            lemma_auto_spec_u64_to_from_le_bytes();
            let s = spec_u64_to_le_bytes(self.score);
            let w = spec_u64_to_le_bytes(self.winner);
            assert forall|i: int| 0 <= i < 64 implies out@[i] == self.spec_to_acc()[i] by {
                assert(mid == before.take(0) + s + before.skip(8));
                assert(out@ == mid.take(8) + w + mid.skip(16));
                assert(out@[i] == (mid.take(8) + w + mid.skip(16))[i]);
                if i < 8 {
                    assert(mid[i] == s[i]);
                } else if i >= 16 {
                    assert(mid[i] == before[i]);
                }
            }
            assert(out@ =~= self.spec_to_acc());
        }
        out
    }

    fn from_acc_bytes(b: &[u8; ACC_BYTES]) -> (r: Self) {
        let score = read_u64(b, 0);
        let winner = read_u64(b, 8);
        MaxWinner { score, winner }
    }

    proof fn lemma_identity(a: Self) {
    }

    proof fn lemma_commutative(a: Self, b: Self) {
    }

    proof fn lemma_associative(a: Self, b: Self, c: Self) {
    }

    proof fn lemma_acc_roundtrip(a: Self) {
        lemma_auto_spec_u64_to_from_le_bytes();
        assert(window(a.spec_to_acc(), 0, 8) =~= spec_u64_to_le_bytes(a.score));
        assert(window(a.spec_to_acc(), 8, 8) =~= spec_u64_to_le_bytes(a.winner));
    }
}

/// Folds `s` left to right from the identity.
pub open spec fn fold<M: Monoid>(s: Seq<M>) -> M
    decreases s.len(),
{
    if s.len() == 0 {
        M::spec_identity()
    } else {
        fold(s.drop_last()).spec_combine(s.last())
    }
}

/// Folding a concatenation combines the two folds.
pub proof fn lemma_fold_concat<M: Monoid>(a: Seq<M>, b: Seq<M>)
    ensures
        fold(a + b) == fold(a).spec_combine(fold(b)),
    decreases b.len(),
{
    if b.len() == 0 {
        assert(a + b =~= a);
        M::lemma_identity(fold(a));
    } else {
        assert((a + b).drop_last() =~= a + b.drop_last());
        assert((a + b).last() == b.last());
        lemma_fold_concat(a, b.drop_last());
        M::lemma_associative(fold(a), fold(b.drop_last()), b.last());
    }
}

/// The partial accumulator of shard `id`: the fold of the members it owns.
pub open spec fn shard_partial<M: Monoid>(members: Seq<M>, shards: int, id: int) -> M {
    let total = members.len() as int;
    fold(
        members.subrange(
            start_of(total, shards, id),
            start_of(total, shards, id) + len_of(total, shards, id),
        ),
    )
}

/// The merge of the partials of shards `0..k`, in ascending shard order.
pub open spec fn merge_partials<M: Monoid>(members: Seq<M>, shards: int, k: int) -> M
    decreases k,
{
    if k <= 0 {
        M::spec_identity()
    } else {
        merge_partials(members, shards, k - 1).spec_combine(shard_partial(members, shards, k - 1))
    }
}

/// Shard-count invariance: reducing each shard from the identity and merging the
/// partials in ascending order gives the same accumulator as one fold over all members,
/// for every shard count `1 <= shards`.
pub proof fn lemma_reduce_shard_count_invariant<M: Monoid>(members: Seq<M>, shards: int)
    requires
        1 <= shards,
    ensures
        merge_partials(members, shards, shards) == fold(members),
{
    let total = members.len() as int;
    lemma_partition_bounds(total, shards);
    lemma_merge_prefix(members, shards, shards);
    assert(members.subrange(0, total) =~= members);
}

proof fn lemma_merge_prefix<M: Monoid>(members: Seq<M>, shards: int, k: int)
    requires
        1 <= shards,
        0 <= k <= shards,
    ensures
        merge_partials(members, shards, k) == fold(
            members.subrange(0, start_of(members.len() as int, shards, k)),
        ),
    decreases k,
{
    let total = members.len() as int;
    lemma_partition_bounds(total, shards);
    if k == 0 {
        assert(members.subrange(0, 0) =~= Seq::<M>::empty());
    } else {
        lemma_merge_prefix(members, shards, k - 1);
        lemma_partition_contiguous(total, shards, k - 1);
        let lo = start_of(total, shards, k - 1);
        let hi = start_of(total, shards, k);
        if k < shards {
            lemma_partition_ordered(total, shards, k, shards);
            lemma_partition_contiguous(total, shards, k);
        }
        assert(total / shards >= 0) by (nonlinear_arith)
            requires total >= 0, shards >= 1;
        if k - 1 > 0 {
            lemma_partition_ordered(total, shards, 0, k - 1);
        }
        assert(0 <= lo <= hi <= total);
        let a = members.subrange(0, lo);
        let b = members.subrange(lo, hi);
        assert(a + b =~= members.subrange(0, hi));
        lemma_fold_concat(a, b);
    }
}

} // verus!
