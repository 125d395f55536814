//! What holds of addition and of canonical form, for all big integers.

use crate::bigint::{BigInt, BigIntView};
use vstd::prelude::*;

verus! {

/// Canonical form is unique: two big integers that denote the same integer
/// have the same sign and the same limbs, so they are equal, and neither
/// carries a zero limb at its most-significant end. Two that denote
/// different integers differ.
pub proof fn lemma_canonical_unique(a: BigInt, b: BigInt)
    requires
        a.is_canonical(),
        b.is_canonical(),
    ensures
        a@.value() == b@.value() <==> a@ == b@,
        a@.limbs.len() > 0 ==> a@.limbs.last() != 0,
        b@.limbs.len() > 0 ==> b@.limbs.last() != 0,
{
    a@.lemma_of_int_value();
    b@.lemma_of_int_value();
}

/// Addition is commutative: `a + b` and `b + a` are the same big integer.
pub proof fn lemma_add_commutative(a: BigInt, b: BigInt)
    ensures
        a@.plus(b@) == b@.plus(a@),
{
}

/// Addition is associative: `(a + b) + c` and `a + (b + c)` are the same
/// big integer.
pub proof fn lemma_add_associative(a: BigInt, b: BigInt, c: BigInt)
    ensures
        a@.plus(b@).plus(c@) == a@.plus(b@.plus(c@)),
{
    BigIntView::lemma_of_int(a@.value() + b@.value());
    BigIntView::lemma_of_int(b@.value() + c@.value());
}

/// Zero is the identity of addition: `a + 0` and `0 + a` are `a`.
pub proof fn lemma_add_zero(a: BigInt)
    requires
        a.is_canonical(),
    ensures
        a@.plus(BigIntView::zero()) == a@,
        BigIntView::zero().plus(a@) == a@,
{
    a@.lemma_of_int_value();
}

/// A sum is in canonical form and denotes the exact sum of the two values,
/// however large.
pub proof fn lemma_sum_exact(a: BigInt, b: BigInt)
    ensures
        a@.plus(b@).is_canonical(),
        a@.plus(b@).value() == a@.value() + b@.value(),
{
    BigIntView::lemma_of_int(a@.value() + b@.value());
}

/// `x` added to itself `times` times over: `x + x + ... + x`, with
/// `times + 1` terms.
pub open spec fn repeated_sum(x: BigIntView, times: nat) -> BigIntView
    decreases times,
{
    if times == 0 {
        x
    } else {
        repeated_sum(x, (times - 1) as nat).plus(x)
    }
}

/// Adding a big integer to itself over and over never leaves canonical
/// form and gives the exact multiple, whatever size it grows to.
pub proof fn lemma_repeated_sum(x: BigInt, times: nat)
    requires
        x.is_canonical(),
    ensures
        repeated_sum(x@, times).is_canonical(),
        repeated_sum(x@, times).value() == (times + 1) * x@.value(),
    decreases times,
{
    if times > 0 {
        let before = repeated_sum(x@, (times - 1) as nat);
        lemma_repeated_sum(x, (times - 1) as nat);
        BigIntView::lemma_of_int(before.value() + x@.value());
        assert(times * x@.value() + x@.value() == (times + 1) * x@.value())
            by (nonlinear_arith);
    } else {
        assert(1 * x@.value() == x@.value());
    }
}

} // verus!
