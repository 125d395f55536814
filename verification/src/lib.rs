//! Arbitrary-precision integers with exact addition.
//!
//! A [`bigint::BigInt`] is a sign and a sequence of 64-bit limbs,
//! least-significant first, always in canonical form: no zero limb at the
//! most-significant end, and zero as the empty sequence with a sign of its
//! own. It is made from a native integer or as a sum, and a sum grows by a
//! limb where it has to, so addition never overflows.
//!
//! - [`radix`] says what a limb sequence denotes, and proves that each number
//!   has one trimmed representation.
//! - [`magnitude`] adds, subtracts and compares limb sequences, with an
//!   explicit carry or borrow from limb to limb.
//! - [`bigint`] holds the type, its conversions, its equality and its sum.
//! - [`laws`] proves what holds of every sum: commutativity, associativity,
//!   the identity, and the uniqueness of canonical form.

pub mod bigint;
pub mod laws;
pub mod magnitude;
pub mod radix;
