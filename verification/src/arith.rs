//! Width-independent arithmetic model of a bit pattern.
//!
//! Every flag type in this crate stores its bits in an unsigned integer, so
//! the mathematical reading of a value is shared: `bit_len` is the number of
//! binary digits, `highest_one` the largest power of two not above the value,
//! `pop_count` the number of set bits, and `nat_bit` the membership of one
//! bit position.  The lemmas here relate those functions to each other and to
//! `pow2`; the width-specific modules instantiate them.

use vstd::prelude::*;

verus! {

use vstd::arithmetic::power2::pow2;
use vstd::arithmetic::power2::lemma_pow2_unfold;
use vstd::arithmetic::power2::lemma_pow2_pos;
use vstd::arithmetic::div_mod::lemma_div_decreases;

/// Number of binary digits of `n`: `0` for `0`, and one more than the
/// zero-based position of the highest set bit otherwise.
pub open spec fn bit_len(n: nat) -> nat
    decreases n,
{
    if n == 0 {
        0
    } else {
        (1 + bit_len(n / 2)) as nat
    }
}

/// The largest power of two that is at most `n`, or `0` for `0`.
pub open spec fn highest_one(n: nat) -> nat
    decreases n,
{
    if n == 0 {
        0
    } else if n == 1 {
        1
    } else {
        2 * highest_one(n / 2)
    }
}

/// The number of set bits in the binary expansion of `n`.
pub open spec fn pop_count(n: nat) -> nat
    decreases n,
{
    if n == 0 {
        0
    } else {
        (n % 2 + pop_count(n / 2)) as nat
    }
}

/// Whether bit `i` is set in the binary expansion of `n`.
pub open spec fn nat_bit(n: nat, i: nat) -> bool {
    (n / pow2(i)) % 2 == 1
}

/// The ascending positions of the set bits of `n`, each offset by `base`.
pub open spec fn bit_positions(n: nat, base: nat) -> Seq<nat>
    decreases n,
{
    if n == 0 {
        Seq::empty()
    } else if n % 2 == 1 {
        seq![base] + bit_positions(n / 2, (base + 1) as nat)
    } else {
        bit_positions(n / 2, (base + 1) as nat)
    }
}

/// Bit zero of `n` is its parity.
pub proof fn lemma_nat_bit_zero(n: nat)
    ensures
        nat_bit(n, 0) == (n % 2 == 1),
{
    assert(pow2(0) == 1) by {
        vstd::arithmetic::power2::lemma2_to64();
    }
    assert(n / 1 == n) by {
        vstd::arithmetic::div_mod::lemma_div_basics_1(n as int);
    }
}

/// Bit `i + 1` of `n` is bit `i` of `n / 2`.
pub proof fn lemma_nat_bit_step(n: nat, i: nat)
    ensures
        nat_bit(n, (i + 1) as nat) == nat_bit(n / 2, i),
{
    lemma_pow2_unfold((i + 1) as nat);
    lemma_pow2_pos(i);
    assert((n / 2) / pow2(i) == n / (2 * pow2(i))) by {
        vstd::arithmetic::div_mod::lemma_div_denominator(n as int, 2, pow2(i) as int);
    }
}

/// No bit of zero is set.
pub proof fn lemma_nat_bit_of_zero(i: nat)
    ensures
        !nat_bit(0, i),
{
    lemma_pow2_pos(i);
    assert(0nat / pow2(i) == 0) by {
        vstd::arithmetic::div_mod::lemma_div_of0(pow2(i) as int);
    }
}

/// The position list has one entry per set bit.
pub proof fn lemma_bit_positions_len(n: nat, base: nat)
    ensures
        bit_positions(n, base).len() == pop_count(n),
    decreases n,
{
    if n > 0 {
        lemma_div_decreases(n as int, 2);
        lemma_bit_positions_len(n / 2, (base + 1) as nat);
    }
}

/// The position list starts at or after `base` and is strictly increasing.
pub proof fn lemma_bit_positions_sorted(n: nat, base: nat)
    ensures
        forall|idx: int|
            0 <= idx < bit_positions(n, base).len() ==> #[trigger] bit_positions(n, base)[idx]
                >= base,
        forall|i: int, j: int|
            0 <= i < j < bit_positions(n, base).len() ==> #[trigger] bit_positions(n, base)[i]
                < #[trigger] bit_positions(n, base)[j],
    decreases n,
{
    if n > 0 {
        lemma_div_decreases(n as int, 2);
        lemma_bit_positions_sorted(n / 2, (base + 1) as nat);
        let rest = bit_positions(n / 2, (base + 1) as nat);
        let s = bit_positions(n, base);
        if n % 2 == 1 {
            assert(s == seq![base] + rest);
            assert forall|idx: int| 0 <= idx < s.len() implies #[trigger] s[idx] >= base by {
                if idx > 0 {
                    assert(s[idx] == rest[idx - 1]);
                }
            }
            assert forall|i: int, j: int| 0 <= i < j < s.len() implies #[trigger] s[i]
                < #[trigger] s[j] by {
                assert(s[j] == rest[j - 1]);
                assert(s[j] >= base + 1);
                if i > 0 {
                    assert(s[i] == rest[i - 1]);
                }
            }
        } else {
            assert(s == rest);
            assert forall|idx: int| 0 <= idx < s.len() implies #[trigger] s[idx] >= base by {
                assert(s[idx] == rest[idx]);
            }
        }
    }
}

/// A position is listed exactly when the bit at its offset from `base` is
/// set.
pub proof fn lemma_bit_positions_membership(n: nat, base: nat)
    ensures
        forall|p: nat| #[trigger]
            bit_positions(n, base).contains(p) <==> (p >= base && nat_bit(n, (p - base) as nat)),
    decreases n,
{
    let s = bit_positions(n, base);
    if n == 0 {
        assert forall|p: nat| !(p >= base && #[trigger] nat_bit(0, (p - base) as nat)) by {
            lemma_nat_bit_of_zero((p - base) as nat);
        }
        assert(forall|p: nat| !#[trigger] s.contains(p));
    } else {
        lemma_div_decreases(n as int, 2);
        lemma_bit_positions_membership(n / 2, (base + 1) as nat);
        let rest = bit_positions(n / 2, (base + 1) as nat);
        assert forall|p: nat| #[trigger] s.contains(p) implies (p >= base && nat_bit(
            n,
            (p - base) as nat,
        )) by {
            let idx = choose|idx: int| 0 <= idx < s.len() && s[idx] == p;
            if n % 2 == 1 {
                assert(s == seq![base] + rest);
                if idx == 0 {
                    assert(p == base);
                    lemma_nat_bit_zero(n);
                } else {
                    assert(s[idx] == rest[idx - 1]);
                    assert(rest.contains(p));
                    assert(p >= base + 1 && nat_bit(n / 2, (p - (base + 1)) as nat));
                    lemma_nat_bit_step(n, (p - base - 1) as nat);
                }
            } else {
                assert(s == rest);
                assert(rest[idx] == p);
                assert(rest.contains(p));
                assert(p >= base + 1 && nat_bit(n / 2, (p - (base + 1)) as nat));
                lemma_nat_bit_step(n, (p - base - 1) as nat);
            }
        }
        assert forall|p: nat| (p >= base && nat_bit(n, (p - base) as nat)) implies #[trigger] s
            .contains(p) by {
            if p == base {
                lemma_nat_bit_zero(n);
                assert(n % 2 == 1);
                assert(s == seq![base] + rest);
                assert(s[0] == p);
            } else {
                lemma_nat_bit_step(n, (p - base - 1) as nat);
                assert(nat_bit(n / 2, (p - (base + 1)) as nat));
                assert(rest.contains(p));
                let idx = choose|idx: int| 0 <= idx < rest.len() && rest[idx] == p;
                if n % 2 == 1 {
                    assert(s == seq![base] + rest);
                    assert(s[idx + 1] == p);
                } else {
                    assert(s == rest);
                    assert(s[idx] == p);
                }
            }
        }
    }
}

/// A positive value has a positive digit count, and its digit count locates
/// it between two consecutive powers of two.
pub proof fn lemma_bit_len_bounds(n: nat)
    requires
        n >= 1,
    ensures
        bit_len(n) >= 1,
        pow2((bit_len(n) - 1) as nat) <= n < pow2(bit_len(n)),
    decreases n,
{
    if n == 1 {
        assert(bit_len(1) == 1 + bit_len(0));
        assert(pow2(0) == 1) by {
            vstd::arithmetic::power2::lemma2_to64();
        }
        assert(pow2(1) == 2) by {
            vstd::arithmetic::power2::lemma2_to64();
        }
    } else {
        lemma_div_decreases(n as int, 2);
        assert(n / 2 >= 1);
        lemma_bit_len_bounds(n / 2);
        let k = bit_len(n / 2);
        assert(bit_len(n) == k + 1);
        lemma_pow2_unfold(k);
        lemma_pow2_unfold((k + 1) as nat);
        // pow2(k - 1) <= n / 2 gives pow2(k) <= n, and n / 2 < pow2(k)
        // gives n < pow2(k + 1).
        assert(pow2(k) == 2 * pow2((k - 1) as nat));
        assert(n >= 2 * (n / 2));
        assert(n < 2 * (n / 2) + 2);
        assert(2 * (n / 2) >= 2 * pow2((k - 1) as nat)) by {
            lemma_pow2_pos((k - 1) as nat);
        }
        assert(n < pow2((k + 1) as nat)) by {
            assert(n / 2 + 1 <= pow2(k));
            assert(n < 2 * (n / 2 + 1));
            assert(2 * (n / 2 + 1) <= 2 * pow2(k));
        }
    }
}

/// Values below `pow2(k)` have at most `k` binary digits.
pub proof fn lemma_bit_len_le(n: nat, k: nat)
    requires
        n < pow2(k),
    ensures
        bit_len(n) <= k,
{
    if n >= 1 {
        lemma_bit_len_bounds(n);
        if bit_len(n) > k {
            if k < bit_len(n) - 1 {
                vstd::arithmetic::power2::lemma_pow2_strictly_increases(
                    k,
                    (bit_len(n) - 1) as nat,
                );
            }
            assert(pow2(k) <= pow2((bit_len(n) - 1) as nat));
        }
    }
}

/// `highest_one` is `pow2` at one less than the digit count.
pub proof fn lemma_highest_one_pow2(n: nat)
    requires
        n >= 1,
    ensures
        highest_one(n) == pow2((bit_len(n) - 1) as nat),
    decreases n,
{
    if n == 1 {
        assert(bit_len(0) == 0);
        assert(bit_len(1) == 1 + bit_len(0));
        assert(pow2(0) == 1) by {
            vstd::arithmetic::power2::lemma2_to64();
        }
    } else {
        lemma_div_decreases(n as int, 2);
        assert(n / 2 >= 1);
        lemma_highest_one_pow2(n / 2);
        lemma_bit_len_bounds(n / 2);
        let k = bit_len(n / 2);
        assert(bit_len(n) == k + 1);
        assert(highest_one(n) == 2 * highest_one(n / 2));
        assert(highest_one(n / 2) == pow2((k - 1) as nat));
        lemma_pow2_unfold(k);
        assert(pow2(k) == 2 * pow2((k - 1) as nat));
    }
}

/// There are never more set bits than binary digits.
pub proof fn lemma_pop_count_le_bit_len(n: nat)
    ensures
        pop_count(n) <= bit_len(n),
    decreases n,
{
    if n > 0 {
        lemma_div_decreases(n as int, 2);
        lemma_pop_count_le_bit_len(n / 2);
    }
}

/// A power of two has exactly one set bit.
pub proof fn lemma_pop_count_pow2(k: nat)
    ensures
        pop_count(pow2(k)) == 1,
    decreases k,
{
    if k == 0 {
        assert(pow2(0) == 1) by {
            vstd::arithmetic::power2::lemma2_to64();
        }
        assert(pop_count(0) == 0);
        assert(pop_count(1) == 1nat % 2 + pop_count(1nat / 2));
    } else {
        lemma_pop_count_pow2((k - 1) as nat);
        lemma_pow2_unfold(k);
        lemma_pow2_pos((k - 1) as nat);
        let p = pow2((k - 1) as nat);
        assert(pow2(k) == 2 * p);
        assert((2 * p) % 2 == 0) by {
            vstd::arithmetic::div_mod::lemma_mod_multiples_basic(p as int, 2);
        }
        assert((2 * p) / 2 == p) by {
            vstd::arithmetic::div_mod::lemma_div_multiples_vanish(p as int, 2);
        }
        assert(pop_count((2 * p) as nat) == 0 + pop_count(p));
    }
}

/// The highest set bit of a positive value is itself a single set bit, lies
/// within the value, and strictly more than doubles it: it is the largest
/// power of two that is at most `n`.
pub proof fn lemma_highest_one_properties(n: nat)
    requires
        n >= 1,
    ensures
        pop_count(highest_one(n)) == 1,
        highest_one(n) <= n,
        n < 2 * highest_one(n),
        highest_one(n) == pow2((bit_len(n) - 1) as nat),
    decreases n,
{
    lemma_bit_len_bounds(n);
    lemma_highest_one_pow2(n);
    lemma_pop_count_pow2((bit_len(n) - 1) as nat);
    lemma_pow2_unfold(bit_len(n));
}

} // verus!
