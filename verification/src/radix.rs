//! The positional number system behind a limb sequence: what a sequence of
//! 64-bit limbs denotes, when it carries no redundant high limbs, and the
//! facts about both that the arithmetic rests on.

use vstd::arithmetic::div_mod::{lemma_div_pos_is_pos, lemma_fundamental_div_mod, lemma_mod_bound};
use vstd::prelude::*;

verus! {

/// The radix of the positional system: one more than the largest limb.
pub open spec fn radix() -> nat {
    0x1_0000_0000_0000_0000
}

/// The weight of the limb at position `i`, which is `radix()` to the power `i`.
pub open spec fn weight(i: nat) -> nat
    decreases i,
{
    if i == 0 {
        1
    } else {
        radix() * weight((i - 1) as nat)
    }
}

/// The natural number that `limbs` denotes, least-significant limb first:
/// `limbs[0] + limbs[1] * radix() + limbs[2] * radix()^2 + ...`.
pub open spec fn limbs_value(limbs: Seq<u64>) -> nat
    decreases limbs.len(),
{
    if limbs.len() == 0 {
        0
    } else {
        limbs[0] as nat + radix() * limbs_value(limbs.skip(1))
    }
}

/// A limb sequence is trimmed when its most-significant limb, if there is
/// one, is not zero.
pub open spec fn is_trimmed(limbs: Seq<u64>) -> bool {
    limbs.len() > 0 ==> limbs.last() != 0
}

/// The limb at position `i`, where positions past the end hold zero.
pub open spec fn limb_or_zero(limbs: Seq<u64>, i: int) -> u64 {
    if 0 <= i < limbs.len() {
        limbs[i]
    } else {
        0
    }
}

/// The number that the `n` least-significant limbs denote; all of `limbs`
/// where it has fewer than `n`.
pub open spec fn low_value(limbs: Seq<u64>, n: nat) -> nat {
    if n >= limbs.len() {
        limbs_value(limbs)
    } else {
        limbs_value(limbs.take(n as int))
    }
}

/// The trimmed limb sequence that denotes `n`: its digits in base `radix()`,
/// least-significant first.
pub open spec fn limbs_of(n: nat) -> Seq<u64>
    decreases n,
{
    if n == 0 {
        Seq::empty()
    } else {
        seq![(n % radix()) as u64] + limbs_of(n / radix())
    }
}

/// Each weight is positive, and the next one is `radix()` times as large.
pub proof fn lemma_weight_step(i: nat)
    ensures
        weight(i) > 0,
        weight(i + 1) == radix() * weight(i),
    decreases i,
{
    if i > 0 {
        lemma_weight_step((i - 1) as nat);
    }
}

/// Weights grow with the position.
pub proof fn lemma_weight_increases(i: nat, j: nat)
    requires
        i <= j,
    ensures
        weight(i) <= weight(j),
    decreases j,
{
    if i < j {
        lemma_weight_increases(i, (j - 1) as nat);
        lemma_weight_step((j - 1) as nat);
    }
}

/// Appending a limb adds that limb times the weight of its position.
pub proof fn lemma_value_push(limbs: Seq<u64>, limb: u64)
    ensures
        limbs_value(limbs.push(limb)) == limbs_value(limbs) + limb * weight(limbs.len()),
    decreases limbs.len(),
{
    let extended = limbs.push(limb);
    if limbs.len() == 0 {
        assert(extended.skip(1) =~= Seq::<u64>::empty());
        assert(limbs_value(extended.skip(1)) == 0);
        assert(limb * weight(0) == limb) by (nonlinear_arith)
            requires
                weight(0) == 1,
        ;
    } else {
        let rest = limbs.skip(1);
        let unit = weight(rest.len());
        assert(extended.skip(1) =~= rest.push(limb));
        lemma_value_push(rest, limb);
        lemma_weight_step(rest.len());
        assert(radix() * (limb * unit) == limb * (radix() * unit)) by (nonlinear_arith);
    }
}

/// A limb sequence denotes a number below the weight of its length.
pub proof fn lemma_value_bound(limbs: Seq<u64>)
    ensures
        limbs_value(limbs) < weight(limbs.len()),
    decreases limbs.len(),
{
    if limbs.len() > 0 {
        lemma_value_bound(limbs.skip(1));
        lemma_weight_step(limbs.skip(1).len());
    }
}

/// A trimmed limb sequence that is not empty denotes at least the weight
/// of its most-significant position, so a positive number.
pub proof fn lemma_trimmed_lower_bound(limbs: Seq<u64>)
    requires
        is_trimmed(limbs),
        limbs.len() > 0,
    ensures
        limbs_value(limbs) >= weight((limbs.len() - 1) as nat),
        limbs_value(limbs) > 0,
    decreases limbs.len(),
{
    if limbs.len() > 1 {
        lemma_trimmed_lower_bound(limbs.skip(1));
        lemma_weight_step((limbs.len() - 2) as nat);
    }
}

/// Dropping a zero limb from the most-significant end keeps the value.
pub proof fn lemma_value_drop_zero(limbs: Seq<u64>)
    requires
        limbs.len() > 0,
        limbs.last() == 0,
    ensures
        limbs_value(limbs.drop_last()) == limbs_value(limbs),
{
    assert(limbs.drop_last().push(0) =~= limbs);
    lemma_value_push(limbs.drop_last(), 0);
}

/// Taking one more of the low limbs adds the limb at that position, or
/// nothing where the sequence has ended.
pub proof fn lemma_low_value_step(limbs: Seq<u64>, n: nat)
    ensures
        low_value(limbs, 0) == 0,
        low_value(limbs, n + 1) == low_value(limbs, n) + limb_or_zero(limbs, n as int) * weight(n),
{
    assert(limbs.take(0) =~= Seq::<u64>::empty());
    if n < limbs.len() {
        assert(limbs.take(n as int + 1) =~= limbs.take(n as int).push(limbs[n as int]));
        lemma_value_push(limbs.take(n as int), limbs[n as int]);
        assert(limbs.take(limbs.len() as int) =~= limbs);
    } else {
        assert(limb_or_zero(limbs, n as int) * weight(n) == 0) by (nonlinear_arith)
            requires
                limb_or_zero(limbs, n as int) == 0,
        ;
    }
}

/// Two limb sequences of one length that denote one number are equal.
pub proof fn lemma_equal_length_unique(a: Seq<u64>, b: Seq<u64>)
    requires
        a.len() == b.len(),
        limbs_value(a) == limbs_value(b),
    ensures
        a == b,
    decreases a.len(),
{
    if a.len() > 0 {
        let high_a = limbs_value(a.skip(1));
        let high_b = limbs_value(b.skip(1));
        assert(a[0] == b[0] && high_a == high_b) by {
            assert(a[0] + radix() * high_a == b[0] + radix() * high_b);
            if high_a < high_b {
                assert(radix() * high_a + radix() <= radix() * high_b);
            }
            if high_b < high_a {
                assert(radix() * high_b + radix() <= radix() * high_a);
            }
        }
        lemma_equal_length_unique(a.skip(1), b.skip(1));
        assert(a =~= seq![a[0]] + a.skip(1));
        assert(b =~= seq![b[0]] + b.skip(1));
    }
    assert(a =~= b);
}

/// Two trimmed limb sequences that denote one number are equal: each
/// natural number has exactly one trimmed representation.
pub proof fn lemma_trimmed_unique(a: Seq<u64>, b: Seq<u64>)
    requires
        is_trimmed(a),
        is_trimmed(b),
        limbs_value(a) == limbs_value(b),
    ensures
        a == b,
{
    if a.len() != b.len() {
        let (short, long) = if a.len() < b.len() {
            (a, b)
        } else {
            (b, a)
        };
        lemma_value_bound(short);
        lemma_trimmed_lower_bound(long);
        lemma_weight_increases(short.len(), (long.len() - 1) as nat);
    }
    lemma_equal_length_unique(a, b);
}

/// `limbs_of(n)` is trimmed and denotes `n`.
pub proof fn lemma_limbs_of(n: nat)
    ensures
        is_trimmed(limbs_of(n)),
        limbs_value(limbs_of(n)) == n,
    decreases n,
{
    if n > 0 {
        let low = (n % radix()) as u64;
        let high = n / radix();
        assert(n == radix() * high + low && high < n) by {
            lemma_fundamental_div_mod(n as int, radix() as int);
            lemma_mod_bound(n as int, radix() as int);
            lemma_div_pos_is_pos(n as int, radix() as int);
        }
        lemma_limbs_of(high);
        let limbs = limbs_of(n);
        assert(limbs =~= seq![low] + limbs_of(high));
        assert(limbs.skip(1) =~= limbs_of(high));
        if high > 0 {
            assert(limbs.last() == limbs_of(high).last());
        } else {
            assert(limbs_of(high).len() == 0);
            assert(limbs.last() == low);
        }
    }
}

/// A trimmed limb sequence is the one that `limbs_of` gives for its value.
pub proof fn lemma_limbs_of_value(limbs: Seq<u64>)
    requires
        is_trimmed(limbs),
    ensures
        limbs_of(limbs_value(limbs)) == limbs,
{
    lemma_limbs_of(limbs_value(limbs));
    lemma_trimmed_unique(limbs_of(limbs_value(limbs)), limbs);
}

/// Among sequences of one length, the one with the smaller value from some
/// position upward denotes the smaller number.
pub proof fn lemma_order_by_high_limbs(a: Seq<u64>, b: Seq<u64>, i: int)
    requires
        a.len() == b.len(),
        0 <= i <= a.len(),
        limbs_value(a.skip(i)) < limbs_value(b.skip(i)),
    ensures
        limbs_value(a) < limbs_value(b),
    decreases i,
{
    if i == 0 {
        assert(a.skip(0) =~= a);
        assert(b.skip(0) =~= b);
    } else {
        let lower_a = a.skip(i - 1);
        let lower_b = b.skip(i - 1);
        assert(lower_a.skip(1) =~= a.skip(i));
        assert(lower_b.skip(1) =~= b.skip(i));
        assert(radix() * limbs_value(a.skip(i)) + radix() <= radix() * limbs_value(b.skip(i)));
        lemma_order_by_high_limbs(a, b, i - 1);
    }
}

} // verus!
