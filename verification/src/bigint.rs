//! The big integer: a sign and a magnitude, always in canonical form.

use crate::magnitude::{
    add_magnitudes, compare_magnitudes, equal_limbs, longer, sub_magnitudes, trim, MagnitudeOrder,
};
use crate::radix::{
    is_trimmed, lemma_limbs_of, lemma_limbs_of_value, lemma_trimmed_lower_bound,
    lemma_trimmed_unique, limbs_of, limbs_value, radix,
};
use vstd::prelude::*;

verus! {

/// The sign of a big integer. Zero has a sign of its own, so that it has
/// one representation only.
#[derive(Clone, Copy, Debug, PartialEq, Eq, Structural)]
pub enum Sign {
    Positive,
    Negative,
    Zero,
}

/// What a big integer is made of: its sign and its limbs, least-significant
/// first.
pub struct BigIntView {
    pub sign: Sign,
    pub limbs: Seq<u64>,
}

impl BigIntView {
    /// The absolute value: the number that the limbs denote.
    pub open spec fn magnitude(self) -> nat {
        limbs_value(self.limbs)
    }

    /// The integer that this sign and these limbs denote.
    pub open spec fn value(self) -> int {
        match self.sign {
            Sign::Positive => self.magnitude() as int,
            Sign::Negative => -(self.magnitude() as int),
            Sign::Zero => 0,
        }
    }

    /// Canonical form: no zero limb at the most-significant end, and the
    /// sign `Zero` exactly where there is no limb at all.
    pub open spec fn is_canonical(self) -> bool {
        &&& is_trimmed(self.limbs)
        &&& self.sign is Zero <==> self.limbs.len() == 0
    }

    /// The representation of zero: no limbs, sign `Zero`.
    pub open spec fn zero() -> BigIntView {
        BigIntView { sign: Sign::Zero, limbs: Seq::empty() }
    }

    /// The canonical representation of the integer `n`.
    pub open spec fn of_int(n: int) -> BigIntView {
        BigIntView {
            sign: if n > 0 {
                Sign::Positive
            } else if n < 0 {
                Sign::Negative
            } else {
                Sign::Zero
            },
            limbs: limbs_of(vstd::math::abs(n)),
        }
    }

    /// The sum: the canonical representation of the two values added.
    pub open spec fn plus(self, other: BigIntView) -> BigIntView {
        BigIntView::of_int(self.value() + other.value())
    }

    /// `of_int(n)` is in canonical form and denotes `n`.
    pub proof fn lemma_of_int(n: int)
        ensures
            BigIntView::of_int(n).is_canonical(),
            BigIntView::of_int(n).value() == n,
    {
        let magnitude = vstd::math::abs(n);
        lemma_limbs_of(magnitude);
        if magnitude > 0 {
            assert(limbs_of(magnitude).len() > 0);
        }
    }

    /// A canonical form is the one that `of_int` gives for its value.
    pub proof fn lemma_of_int_value(self)
        requires
            self.is_canonical(),
        ensures
            BigIntView::of_int(self.value()) == self,
    {
        if self.limbs.len() > 0 {
            lemma_trimmed_lower_bound(self.limbs);
        }
        lemma_limbs_of_value(self.limbs);
    }
}

/// The limbs that a native unsigned integer splits into: none for zero, one
/// where it fits in a limb, else its low and its high half.
pub open spec fn native_limbs(magnitude: u128) -> Seq<u64> {
    if magnitude == 0 {
        Seq::empty()
    } else if magnitude < radix() {
        seq![magnitude as u64]
    } else {
        seq![(magnitude % (radix() as u128)) as u64, (magnitude / (radix() as u128)) as u64]
    }
}

/// An integer of any size, held as a sign and 64-bit limbs in canonical
/// form.
#[derive(Debug)]
pub struct BigInt {
    sign: Sign,
    limbs: Vec<u64>,
}

impl View for BigInt {
    type V = BigIntView;

    closed spec fn view(&self) -> BigIntView {
        BigIntView { sign: self.sign, limbs: self.limbs@ }
    }
}

/// The number with the absolute value `magnitude`, negative where
/// `negative` says so.
spec fn signed(negative: bool, magnitude: nat) -> int {
    if negative {
        -(magnitude as int)
    } else {
        magnitude as int
    }
}

impl BigInt {
    /// Every big integer is in canonical form, at all times.
    #[verifier::type_invariant]
    pub open spec fn is_canonical(&self) -> bool {
        self@.is_canonical()
    }

    /// Brings a magnitude with its sign into canonical form: strips the zero
    /// limbs from the most-significant end, and gives the sign `Zero` where
    /// no limb is left.
    fn canonicalize(negative: bool, limbs: Vec<u64>) -> (number: BigInt)
        ensures
            number@.is_canonical(),
            number@.value() == signed(negative, limbs_value(limbs@)),
            number@ == BigIntView::of_int(signed(negative, limbs_value(limbs@))),
            number@.limbs.len() <= limbs@.len(),
    {
        let limbs: Vec<u64> = trim(limbs);
        let sign: Sign = if limbs.len() == 0 {
            Sign::Zero
        } else if negative {
            Sign::Negative
        } else {
            Sign::Positive
        };
        proof {
            if limbs@.len() > 0 {
                lemma_trimmed_lower_bound(limbs@);
            }
            lemma_limbs_of_value(limbs@);
        }
        BigInt { sign, limbs }
    }

    /// The big integer with the absolute value `magnitude`, negative where
    /// `negative` says so: `magnitude` split into its low and high limb,
    /// then brought into canonical form.
    fn from_native_magnitude(negative: bool, magnitude: u128) -> (number: BigInt)
        ensures
            number@.is_canonical(),
            number@.value() == signed(negative, magnitude as nat),
            number@ == BigIntView::of_int(signed(negative, magnitude as nat)),
            number@.limbs == native_limbs(magnitude),
    {
        let low: u64 = (magnitude % 0x1_0000_0000_0000_0000) as u64;
        let high: u64 = (magnitude / 0x1_0000_0000_0000_0000) as u64;
        let mut limbs: Vec<u64> = Vec::new();
        limbs.push(low);
        limbs.push(high);
        proof {
            reveal_with_fuel(limbs_value, 3);
            assert(limbs@.skip(1).skip(1) =~= Seq::<u64>::empty());
            assert(limbs_value(limbs@) == magnitude);
            assert(seq![low].skip(1) =~= Seq::<u64>::empty());
            assert(limbs_value(native_limbs(magnitude)) == magnitude);
        }
        let number = BigInt::canonicalize(negative, limbs);
        proof {
            lemma_trimmed_unique(number@.limbs, native_limbs(magnitude));
        }
        number
    }

    /// Zero.
    pub fn zero() -> (number: BigInt)
        ensures
            number@ == BigIntView::zero(),
            number@.is_canonical(),
            number@.value() == 0,
    {
        BigInt { sign: Sign::Zero, limbs: Vec::new() }
    }

    /// The big integer equal to `v`: zero where `v` is zero, else positive
    /// with one limb, or with two where `v` does not fit in one.
    pub fn from_unsigned_native(v: u128) -> (number: BigInt)
        ensures
            number@.is_canonical(),
            number@.value() == v,
            number@.sign == (if v == 0 {
                Sign::Zero
            } else {
                Sign::Positive
            }),
            number@.limbs == native_limbs(v),
            number@ == BigIntView::of_int(v as int),
    {
        BigInt::from_native_magnitude(false, v)
    }

    /// The big integer equal to `v`: negative where `v` is negative, with
    /// the absolute value of `v` as its magnitude. That holds of the least
    /// `i128` too, whose absolute value no `i128` can hold.
    pub fn from_signed_native(v: i128) -> (number: BigInt)
        ensures
            number@.is_canonical(),
            number@.value() == v,
            number@.sign == (if v == 0 {
                Sign::Zero
            } else if v < 0 {
                Sign::Negative
            } else {
                Sign::Positive
            }),
            number@.limbs == native_limbs(vstd::math::abs(v as int) as u128),
            number@ == BigIntView::of_int(v as int),
    {
        if v >= 0 {
            BigInt::from_native_magnitude(false, v as u128)
        } else {
            let magnitude: u128 = (-(v + 1)) as u128 + 1;
            BigInt::from_native_magnitude(true, magnitude)
        }
    }

    /// The sign: `Zero` for zero, else that of the integer.
    pub fn sign(&self) -> (sign: Sign)
        ensures
            sign == self@.sign,
            self@.is_canonical(),
    {
        proof {
            use_type_invariant(self);
        }
        self.sign
    }

    /// The limbs of the magnitude, least-significant first; none for zero.
    pub fn limbs(&self) -> (limbs: &[u64])
        ensures
            limbs@ == self@.limbs,
            self@.is_canonical(),
    {
        proof {
            use_type_invariant(self);
        }
        self.limbs.as_slice()
    }

    /// The exact sum of `self` and `other`, whatever their signs and sizes.
    /// There is no overflow: the sum has as many limbs as it needs, at most
    /// one more than the longer operand.
    ///
    /// Where the signs agree, or one operand is zero, the magnitudes are
    /// added and the sign is kept. Where they differ, the smaller magnitude
    /// is taken from the larger, and the sign is that of the larger; two
    /// equal magnitudes give zero.
    pub fn add(&self, other: &BigInt) -> (sum: BigInt)
        ensures
            sum@.is_canonical(),
            sum@.value() == self@.value() + other@.value(),
            sum@ == self@.plus(other@),
            sum@.limbs.len() <= longer(self@.limbs.len(), other@.limbs.len()) + 1,
    {
        proof {
            use_type_invariant(self);
            use_type_invariant(other);
            if self@.limbs.len() > 0 {
                lemma_trimmed_lower_bound(self@.limbs);
            }
            if other@.limbs.len() > 0 {
                lemma_trimmed_lower_bound(other@.limbs);
            }
        }
        let a = self.limbs.as_slice();
        let b = other.limbs.as_slice();
        if self.sign == Sign::Zero || other.sign == Sign::Zero || self.sign == other.sign {
            let negative = self.sign == Sign::Negative || other.sign == Sign::Negative;
            BigInt::canonicalize(negative, add_magnitudes(a, b))
        } else {
            match compare_magnitudes(a, b) {
                MagnitudeOrder::Equal => BigInt::zero(),
                MagnitudeOrder::Greater => BigInt::canonicalize(
                    self.sign == Sign::Negative,
                    sub_magnitudes(a, b),
                ),
                MagnitudeOrder::Less => BigInt::canonicalize(
                    other.sign == Sign::Negative,
                    sub_magnitudes(b, a),
                ),
            }
        }
    }
}

/// Two big integers are equal when their signs and their limbs are. In
/// canonical form that is exactly when they are the same integer.
impl PartialEq for BigInt {
    fn eq(&self, other: &BigInt) -> (equal: bool) {
        let same: bool = self.sign == other.sign && equal_limbs(
            self.limbs.as_slice(),
            other.limbs.as_slice(),
        );
        proof {
            assert(same == (self@ == other@)) by {
                if self.sign == other.sign && self.limbs@ == other.limbs@ {
                    assert(self@ == other@);
                }
            }
        }
        same
    }
}

impl vstd::std_specs::cmp::PartialEqSpecImpl for BigInt {
    open spec fn obeys_eq_spec() -> bool {
        true
    }

    open spec fn eq_spec(&self, other: &BigInt) -> bool {
        self@ == other@
    }
}

impl Eq for BigInt {}

impl Clone for BigInt {
    fn clone(&self) -> (copy: BigInt)
        ensures
            copy@ == self@,
    {
        proof {
            use_type_invariant(self);
        }
        let limbs: Vec<u64> = self.limbs.clone();
        proof {
            assert(limbs@ =~= self.limbs@);
        }
        BigInt { sign: self.sign, limbs }
    }
}

/// `a + b`, which takes both operands by value.
impl core::ops::Add for BigInt {
    type Output = BigInt;

    fn add(self, other: BigInt) -> (sum: BigInt)
        ensures
            sum@.is_canonical(),
            sum@.value() == self@.value() + other@.value(),
            sum@ == self@.plus(other@),
            sum@.limbs.len() <= longer(self@.limbs.len(), other@.limbs.len()) + 1,
    {
        (&self).add(&other)
    }
}

/// A sum is pinned through its view, in the postcondition of `add`. To
/// Verus two values of `BigInt` with one view need not be one value, so no
/// specification function can name the sum itself, and `add_spec` is left
/// unused.
impl vstd::std_specs::ops::AddSpecImpl for BigInt {
    open spec fn obeys_add_spec() -> bool {
        false
    }

    open spec fn add_req(self, other: BigInt) -> bool {
        true
    }

    open spec fn add_spec(self, other: BigInt) -> BigInt {
        arbitrary()
    }
}

/// `&a + &b`, which leaves both operands to the caller.
impl<'a, 'b> core::ops::Add<&'b BigInt> for &'a BigInt {
    type Output = BigInt;

    fn add(self, other: &'b BigInt) -> (sum: BigInt)
        ensures
            sum@.is_canonical(),
            sum@.value() == self@.value() + other@.value(),
            sum@ == self@.plus(other@),
            sum@.limbs.len() <= longer(self@.limbs.len(), other@.limbs.len()) + 1,
    {
        BigInt::add(self, other)
    }
}

impl<'a, 'b> vstd::std_specs::ops::AddSpecImpl<&'b BigInt> for &'a BigInt {
    open spec fn obeys_add_spec() -> bool {
        false
    }

    open spec fn add_req(self, other: &'b BigInt) -> bool {
        true
    }

    open spec fn add_spec(self, other: &'b BigInt) -> BigInt {
        arbitrary()
    }
}

impl From<u64> for BigInt {
    fn from(v: u64) -> (number: BigInt)
        ensures
            number@.is_canonical(),
            number@.value() == v,
            number@.limbs == (if v == 0 {
                Seq::empty()
            } else {
                seq![v]
            }),
            number@ == BigIntView::of_int(v as int),
    {
        BigInt::from_unsigned_native(v as u128)
    }
}

/// As with sums: the postcondition of `from` pins the result through its
/// view, and `from_spec` is left unused.
impl vstd::std_specs::convert::FromSpecImpl<u64> for BigInt {
    open spec fn obeys_from_spec() -> bool {
        false
    }

    open spec fn from_spec(v: u64) -> BigInt {
        arbitrary()
    }
}

impl From<i32> for BigInt {
    fn from(v: i32) -> (number: BigInt)
        ensures
            number@.is_canonical(),
            number@.value() == v,
            number@.limbs == (if v == 0 {
                Seq::empty()
            } else {
                seq![vstd::math::abs(v as int) as u64]
            }),
            number@ == BigIntView::of_int(v as int),
    {
        BigInt::from_signed_native(v as i128)
    }
}

impl vstd::std_specs::convert::FromSpecImpl<i32> for BigInt {
    open spec fn obeys_from_spec() -> bool {
        false
    }

    open spec fn from_spec(v: i32) -> BigInt {
        arbitrary()
    }
}

} // verus!
