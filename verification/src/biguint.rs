//! Arbitrary-precision arithmetic, delegated to `num_bigint::BigUint`.
//!
//! Nothing in this module is proved: each function states what the `BigUint`
//! operation it calls computes, in terms of the natural number that a
//! `BigUint` denotes.

use crate::decimal::decimal;
use num_bigint::BigUint;
use vstd::arithmetic::power2::pow2;
use vstd::prelude::*;

verus! {

/// `num_bigint::BigUint`, whose digits stay hidden from the verifier.
#[verifier::external_type_specification]
#[verifier::external_body]
pub struct ExBigUint(num_bigint::BigUint);

/// The natural number that a `BigUint` denotes. It is all that the
/// functions below say of a `BigUint`.
pub uninterp spec fn nat_value(n: BigUint) -> nat;

/// `BigUint::from(u64)`: the big integer with the value of `x`.
#[verifier::external_body]
pub(crate) fn from_u64(x: u64) -> (r: BigUint)
    ensures
        nat_value(r) == x as nat,
{
    BigUint::from(x)
}

/// `BigUint << u32`: `a` shifted left by `bits` binary places, which is
/// `a` times two to the power `bits`.
#[verifier::external_body]
pub(crate) fn shift_left(a: BigUint, bits: u32) -> (r: BigUint)
    ensures
        nat_value(r) == nat_value(a) * pow2(bits as nat),
{
    a << bits
}

/// `BigUint + BigUint`: the exact sum.
#[verifier::external_body]
pub(crate) fn sum(a: BigUint, b: BigUint) -> (r: BigUint)
    ensures
        nat_value(r) == nat_value(a) + nat_value(b),
{
    a + b
}

/// `&BigUint % &BigUint`: the remainder of `a` on division by `m`. The
/// operator panics on a zero divisor, which the precondition excludes.
#[verifier::external_body]
pub(crate) fn remainder(a: &BigUint, m: &BigUint) -> (r: BigUint)
    requires
        nat_value(*m) > 0,
    ensures
        nat_value(r) == nat_value(*a) % nat_value(*m),
{
    a % m
}

/// `BigUint::to_str_radix` with radix 10: the decimal numeral of `a`.
#[verifier::external_body]
pub(crate) fn to_decimal(a: &BigUint) -> (r: String)
    ensures
        r@ == decimal(nat_value(*a)),
{
    a.to_str_radix(10)
}

} // verus!
