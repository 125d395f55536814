//! Arithmetic on magnitudes: limb sequences, least-significant limb first,
//! taken as natural numbers.

use crate::radix::{
    is_trimmed, lemma_low_value_step, lemma_order_by_high_limbs, lemma_trimmed_lower_bound,
    lemma_value_bound, lemma_value_drop_zero, lemma_value_push, lemma_weight_increases,
    lemma_weight_step, limb_or_zero, limbs_value, low_value, radix, weight,
};
use vstd::prelude::*;

verus! {

/// How one magnitude stands to another.
#[derive(Clone, Copy, Debug, PartialEq, Eq, Structural)]
pub enum MagnitudeOrder {
    Less,
    Equal,
    Greater,
}

/// A carry or borrow bit as a number.
pub open spec fn bit(flag: bool) -> nat {
    if flag {
        1
    } else {
        0
    }
}

/// The longer of two lengths.
pub open spec fn longer(m: nat, n: nat) -> nat {
    if m >= n {
        m
    } else {
        n
    }
}

/// Adds two limbs and an incoming carry. Gives the low 64 bits of the sum
/// and the carry out of it.
pub fn add_with_carry(x: u64, y: u64, carry: bool) -> (out: (u64, bool))
    ensures
        out.0 + radix() * bit(out.1) == x + y + bit(carry),
{
    let partial: u64 = x.wrapping_add(y);
    let total: u64 = partial.wrapping_add(if carry { 1 } else { 0 });
    (total, partial < x || total < partial)
}

/// Subtracts a limb and an incoming borrow from a limb. Gives the low 64
/// bits of the difference and the borrow out of it.
pub fn sub_with_borrow(x: u64, y: u64, borrow: bool) -> (out: (u64, bool))
    ensures
        out.0 - radix() * bit(out.1) == x - y - bit(borrow),
{
    let partial: u64 = x.wrapping_sub(y);
    let total: u64 = partial.wrapping_sub(if borrow { 1 } else { 0 });
    (total, x < y || (borrow && partial == 0))
}

/// One position of long addition. Where the limbs below a position of
/// weight `unit` add up, with `carry_in` into that position, and `limb` and
/// `carry_out` are what `x + y + carry_in` gives there, the limbs up to and
/// with that position add up too, with `carry_out` into the next.
proof fn lemma_carry_step(
    sum_low: int,
    a_low: int,
    b_low: int,
    unit: int,
    carry_in: int,
    carry_out: int,
    x: int,
    y: int,
    limb: int,
)
    by (nonlinear_arith)
    requires
        sum_low + carry_in * unit == a_low + b_low,
        limb + 0x1_0000_0000_0000_0000 * carry_out == x + y + carry_in,
    ensures
        (sum_low + limb * unit) + carry_out * (0x1_0000_0000_0000_0000 * unit) == (a_low + x * unit)
            + (b_low + y * unit),
{
}

/// One position of long subtraction, as `lemma_carry_step` is one of long
/// addition, with a borrow in place of the carry.
proof fn lemma_borrow_step(
    diff_low: int,
    a_low: int,
    b_low: int,
    unit: int,
    borrow_in: int,
    borrow_out: int,
    x: int,
    y: int,
    limb: int,
)
    by (nonlinear_arith)
    requires
        diff_low + b_low == a_low + borrow_in * unit,
        limb - 0x1_0000_0000_0000_0000 * borrow_out == x - y - borrow_in,
    ensures
        (diff_low + limb * unit) + (b_low + y * unit) == (a_low + x * unit) + borrow_out * (
        0x1_0000_0000_0000_0000 * unit),
{
}

/// The limb of `limbs` at position `i`, zero past its end.
fn limb_at(limbs: &[u64], i: usize) -> (limb: u64)
    ensures
        limb == limb_or_zero(limbs@, i as int),
{
    if i < limbs.len() {
        limbs[i]
    } else {
        0
    }
}

/// The sum of two magnitudes by long addition: limb by limb from the
/// least-significant end, a limb missing from the shorter operand taken as
/// zero, with one more limb, of value 1, where a carry is left at the end.
pub fn add_magnitudes(a: &[u64], b: &[u64]) -> (sum: Vec<u64>)
    ensures
        limbs_value(sum@) == limbs_value(a@) + limbs_value(b@),
        sum@.len() == longer(a@.len(), b@.len()) || (sum@.len() == longer(a@.len(), b@.len()) + 1
            && sum@.last() == 1),
        is_trimmed(a@) && is_trimmed(b@) ==> is_trimmed(sum@),
{
    let n: usize = if a.len() >= b.len() {
        a.len()
    } else {
        b.len()
    };
    let mut sum: Vec<u64> = Vec::new();
    let mut carry = false;
    let mut i: usize = 0;
    proof {
        lemma_low_value_step(a@, 0);
        lemma_low_value_step(b@, 0);
        assert(limbs_value(sum@) == 0);
    }
    while i < n
        invariant
            n == longer(a@.len(), b@.len()),
            i <= n,
            sum@.len() == i,
            limbs_value(sum@) + bit(carry) * weight(i as nat) == low_value(a@, i as nat)
                + low_value(b@, i as nat),
            i > 0 && !carry ==> sum@[i - 1] >= limb_or_zero(a@, i - 1) && sum@[i - 1]
                >= limb_or_zero(b@, i - 1),
        decreases n - i,
    {
        let x: u64 = limb_at(a, i);
        let y: u64 = limb_at(b, i);
        let (limb, carry_out) = add_with_carry(x, y, carry);
        proof {
            lemma_value_push(sum@, limb);
            lemma_low_value_step(a@, i as nat);
            lemma_low_value_step(b@, i as nat);
            lemma_weight_step(i as nat);
            lemma_carry_step(
                limbs_value(sum@) as int,
                low_value(a@, i as nat) as int,
                low_value(b@, i as nat) as int,
                weight(i as nat) as int,
                bit(carry) as int,
                bit(carry_out) as int,
                x as int,
                y as int,
                limb as int,
            );
        }
        sum.push(limb);
        carry = carry_out;
        i += 1;
    }
    if carry {
        proof {
            lemma_value_push(sum@, 1);
        }
        sum.push(1);
    }
    sum
}

/// The difference of two magnitudes, the second no larger than the first, by
/// long subtraction: limb by limb from the least-significant end with a
/// borrow, a missing limb taken as zero. The result is as long as the longer
/// operand, so its high limbs may be zero.
pub fn sub_magnitudes(a: &[u64], b: &[u64]) -> (diff: Vec<u64>)
    requires
        limbs_value(b@) <= limbs_value(a@),
    ensures
        limbs_value(diff@) == limbs_value(a@) - limbs_value(b@),
        diff@.len() == longer(a@.len(), b@.len()),
{
    let n: usize = if a.len() >= b.len() {
        a.len()
    } else {
        b.len()
    };
    let mut diff: Vec<u64> = Vec::new();
    let mut borrow = false;
    let mut i: usize = 0;
    proof {
        lemma_low_value_step(a@, 0);
        lemma_low_value_step(b@, 0);
        assert(limbs_value(diff@) == 0);
    }
    while i < n
        invariant
            n == longer(a@.len(), b@.len()),
            i <= n,
            diff@.len() == i,
            limbs_value(diff@) + low_value(b@, i as nat) == low_value(a@, i as nat) + bit(borrow)
                * weight(i as nat),
        decreases n - i,
    {
        let x: u64 = limb_at(a, i);
        let y: u64 = limb_at(b, i);
        let (limb, borrow_out) = sub_with_borrow(x, y, borrow);
        proof {
            lemma_value_push(diff@, limb);
            lemma_low_value_step(a@, i as nat);
            lemma_low_value_step(b@, i as nat);
            lemma_weight_step(i as nat);
            lemma_borrow_step(
                limbs_value(diff@) as int,
                low_value(a@, i as nat) as int,
                low_value(b@, i as nat) as int,
                weight(i as nat) as int,
                bit(borrow) as int,
                bit(borrow_out) as int,
                x as int,
                y as int,
                limb as int,
            );
        }
        diff.push(limb);
        borrow = borrow_out;
        i += 1;
    }
    proof {
        lemma_value_bound(diff@);
    }
    diff
}

/// Strips the zero limbs from the most-significant end.
pub fn trim(limbs: Vec<u64>) -> (trimmed: Vec<u64>)
    ensures
        is_trimmed(trimmed@),
        limbs_value(trimmed@) == limbs_value(limbs@),
        trimmed@.len() <= limbs@.len(),
        trimmed@ == limbs@.take(trimmed@.len() as int),
{
    let mut trimmed = limbs;
    while trimmed.len() > 0 && trimmed[trimmed.len() - 1] == 0
        invariant
            limbs_value(trimmed@) == limbs_value(limbs@),
            trimmed@.len() <= limbs@.len(),
            trimmed@ == limbs@.take(trimmed@.len() as int),
        decreases trimmed@.len(),
    {
        proof {
            lemma_value_drop_zero(trimmed@);
        }
        trimmed.pop();
    }
    trimmed
}

/// Whether two limb sequences are the same, limb for limb.
pub fn equal_limbs(a: &[u64], b: &[u64]) -> (equal: bool)
    ensures
        equal == (a@ == b@),
{
    if a.len() != b.len() {
        return false;
    }
    let mut i: usize = 0;
    while i < a.len()
        invariant
            a@.len() == b@.len(),
            i <= a@.len(),
            forall|j: int| 0 <= j < i ==> a@[j] == b@[j],
        decreases a@.len() - i,
    {
        if a[i] != b[i] {
            return false;
        }
        i += 1;
    }
    proof {
        assert(a@ =~= b@);
    }
    true
}

/// Compares two trimmed magnitudes: the one with more limbs is the larger;
/// of two with as many limbs, the one with the larger limb at the
/// most-significant position where they differ.
pub fn compare_magnitudes(a: &[u64], b: &[u64]) -> (order: MagnitudeOrder)
    requires
        is_trimmed(a@),
        is_trimmed(b@),
    ensures
        order is Less <==> limbs_value(a@) < limbs_value(b@),
        order is Equal <==> limbs_value(a@) == limbs_value(b@),
        order is Greater <==> limbs_value(a@) > limbs_value(b@),
{
    if a.len() < b.len() {
        proof {
            lemma_value_bound(a@);
            lemma_trimmed_lower_bound(b@);
            lemma_weight_increases(a@.len(), (b@.len() - 1) as nat);
        }
        return MagnitudeOrder::Less;
    }
    if a.len() > b.len() {
        proof {
            lemma_value_bound(b@);
            lemma_trimmed_lower_bound(a@);
            lemma_weight_increases(b@.len(), (a@.len() - 1) as nat);
        }
        return MagnitudeOrder::Greater;
    }
    let mut i: usize = a.len();
    while i > 0
        invariant
            a@.len() == b@.len(),
            i <= a@.len(),
            a@.skip(i as int) == b@.skip(i as int),
        decreases i,
    {
        i -= 1;
        let x: u64 = a[i];
        let y: u64 = b[i];
        proof {
            assert(a@.skip(i as int).skip(1) =~= a@.skip(i + 1));
            assert(b@.skip(i as int).skip(1) =~= b@.skip(i + 1));
        }
        if x < y {
            proof {
                lemma_order_by_high_limbs(a@, b@, i as int);
            }
            return MagnitudeOrder::Less;
        }
        if x > y {
            proof {
                lemma_order_by_high_limbs(b@, a@, i as int);
            }
            return MagnitudeOrder::Greater;
        }
        assert(a@.skip(i as int) =~= b@.skip(i as int)) by {
            assert forall|j: int| 0 <= j < a@.len() - i implies a@.skip(i as int)[j] == b@.skip(
                i as int,
            )[j] by {
                if j > 0 {
                    assert(a@.skip(i + 1)[j - 1] == b@.skip(i + 1)[j - 1]);
                }
            }
        }
    }
    proof {
        assert(a@.skip(0) =~= a@);
        assert(b@.skip(0) =~= b@);
    }
    MagnitudeOrder::Equal
}

} // verus!
