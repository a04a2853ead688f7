use freshet::monoid::{MaxWinner, Monoid, Sum, ACC_BYTES};
use freshet::partition::{partition_len, partition_start};

fn check_laws<M: Monoid>(samples: &[M]) {
    for &a in samples {
        assert_eq!(a.combine(M::identity()), a, "right identity for {a:?}");
        assert_eq!(M::identity().combine(a), a, "left identity for {a:?}");
        for &b in samples {
            assert_eq!(a.combine(b), b.combine(a), "commutativity {a:?} {b:?}");
            for &c in samples {
                assert_eq!(
                    a.combine(b).combine(c),
                    a.combine(b.combine(c)),
                    "associativity {a:?} {b:?} {c:?}"
                );
            }
        }
    }
}

fn assert_acc_roundtrip<M: Monoid>(v: M) {
    assert_eq!(M::from_acc_bytes(&v.to_acc_bytes()), v, "acc-bytes round-trip {v:?}");
}

#[test]
fn identity_and_values_roundtrip_through_acc_bytes() {
    assert_acc_roundtrip(Sum::identity());
    assert_acc_roundtrip(Sum(123_456_789));
    assert_acc_roundtrip(MaxWinner::identity());
    assert_acc_roundtrip(MaxWinner { score: 99, winner: 7 });
    // The identity of MaxWinner is not all-zeroes (winner sentinel = u64::MAX).
    assert_eq!(MaxWinner::identity().winner, u64::MAX);
    assert_ne!(MaxWinner::identity().to_acc_bytes(), [0u8; ACC_BYTES]);
}

#[test]
fn sum_is_a_monoid() {
    let s: Vec<Sum> = [0u64, 1, 7, 42, 1000].iter().map(|&x| Sum(x)).collect();
    check_laws(&s);
    assert_eq!(Sum(3).combine(Sum(4)), Sum(7));
}

#[test]
fn sum_saturates() {
    assert_eq!(Sum(u64::MAX).combine(Sum(5)), Sum(u64::MAX));
}

#[test]
fn maxwinner_is_a_monoid() {
    let s: Vec<MaxWinner> = [(0u64, 9u64), (5, 1), (5, 3), (8, 2), (8, 0)]
        .iter()
        .map(|&(score, winner)| MaxWinner { score, winner })
        .collect();
    check_laws(&s);
}

#[test]
fn reduce_is_invariant_under_shard_count() {
    let scores = [3u64, 0, 9, 9, 1, 0, 5, 9, 2, 0];
    let total = scores.len() as u64;
    let member = |i: u64| MaxWinner { score: scores[i as usize], winner: i };

    let mut single = MaxWinner::identity();
    for i in 0..total {
        single = single.combine(member(i));
    }
    assert_eq!(single, MaxWinner { score: 9, winner: 2 }, "max 9, lowest tied index 2");

    for p in 1..=total {
        let mut acc = MaxWinner::identity();
        for sid in 0..p {
            let start = partition_start(total, p, sid);
            let len = partition_len(total, p, sid);
            let mut partial = MaxWinner::identity();
            for j in 0..len {
                partial = partial.combine(member(start + j));
            }
            acc = acc.combine(partial);
        }
        assert_eq!(acc, single, "REDUCE result must be invariant under P={p}");
    }
}

#[test]
fn maxwinner_picks_higher_score_then_lower_index() {
    let a = MaxWinner { score: 5, winner: 3 };
    let b = MaxWinner { score: 8, winner: 7 };
    assert_eq!(a.combine(b), b, "higher score wins");
    let c = MaxWinner { score: 8, winner: 2 };
    assert_eq!(b.combine(c), c, "tie -> lower index wins");
}

#[test]
fn acc_bytes_are_little_endian_and_zero_padded() {
    let b = Sum(0x0102_0304_0506_0708).to_acc_bytes();
    assert_eq!(&b[0..8], &[8, 7, 6, 5, 4, 3, 2, 1]);
    assert!(b[8..].iter().all(|&x| x == 0));
    let m = MaxWinner { score: 1, winner: 256 }.to_acc_bytes();
    assert_eq!(m[0], 1);
    assert_eq!(m[8], 0);
    assert_eq!(m[9], 1);
    assert!(m[16..].iter().all(|&x| x == 0));
    let mut raw = [0u8; ACC_BYTES];
    raw[0] = 5;
    raw[9] = 2;
    assert_eq!(MaxWinner::from_acc_bytes(&raw), MaxWinner { score: 5, winner: 512 });
    assert_eq!(Sum::from_acc_bytes(&raw), Sum(5));
}
