//! Model of unbounded non-negative integers.
//!
//! The engine stores every reserve, amount and claim-share count as a
//! `num_bigint::BigUint`.  Verus sees that type as opaque, so this module
//! gives it a mathematical value, `big_val`, and a small set of trusted
//! wrappers around the arithmetic the engine uses.  Every contract in the
//! crate speaks of `big_val` of the values involved; nothing else about
//! `BigUint` is assumed.

use vstd::prelude::*;

verus! {

use num_bigint::BigUint;
use num_traits::Zero;

#[verifier::external_type_specification]
#[verifier::external_body]
pub struct ExBigUint(BigUint);

/// The non-negative integer that a `BigUint` holds.  A `BigUint` is a pure
/// in-memory digit sequence, so its value depends on nothing but the digits.
pub uninterp spec fn big_val(b: BigUint) -> nat;

/// The values held by a sequence of `BigUint`s, element for element.
pub open spec fn big_vals(s: Seq<BigUint>) -> Seq<nat> {
    s.map(|i: int, b: BigUint| big_val(b))
}

/// Relies on `<BigUint as From<u64>>::from`: builds the number with that value.
#[verifier::external_body]
pub(crate) fn big_from_u64(x: u64) -> (r: BigUint)
    ensures
        big_val(r) == x as nat,
{
    BigUint::from(x)
}

/// Relies on `<BigUint as From<u128>>::from`: builds the number with that value.
#[verifier::external_body]
pub(crate) fn big_from_u128(x: u128) -> (r: BigUint)
    ensures
        big_val(r) == x as nat,
{
    BigUint::from(x)
}

/// Relies on `<BigUint as Clone>::clone`: the copy holds the same value.
pub assume_specification[ <BigUint as Clone>::clone ](a: &BigUint) -> (r: BigUint)
    ensures
        big_val(r) == big_val(*a),
;

/// Relies on `<&BigUint as core::ops::Add<&BigUint>>::add`: unbounded addition.
#[verifier::external_body]
pub(crate) fn big_add(a: &BigUint, b: &BigUint) -> (r: BigUint)
    ensures
        big_val(r) == big_val(*a) + big_val(*b),
{
    a + b
}

/// Relies on `<&BigUint as core::ops::Sub<&BigUint>>::sub`: exact subtraction.
/// The operation panics when the subtrahend is larger, so that case is
/// excluded by the precondition.
#[verifier::external_body]
pub(crate) fn big_sub(a: &BigUint, b: &BigUint) -> (r: BigUint)
    requires
        big_val(*b) <= big_val(*a),
    ensures
        big_val(r) == big_val(*a) - big_val(*b),
{
    a - b
}

/// Relies on `<&BigUint as core::ops::Mul<&BigUint>>::mul`: unbounded product.
#[verifier::external_body]
pub(crate) fn big_mul(a: &BigUint, b: &BigUint) -> (r: BigUint)
    ensures
        big_val(r) == big_val(*a) * big_val(*b),
{
    a * b
}

/// Relies on `<&BigUint as core::ops::Div<&BigUint>>::div`: quotient rounded
/// toward zero, which on non-negative values is the floor.  Division by zero
/// panics, so it is excluded by the precondition.
#[verifier::external_body]
pub(crate) fn big_div(a: &BigUint, b: &BigUint) -> (r: BigUint)
    requires
        big_val(*b) > 0,
    ensures
        big_val(r) == big_val(*a) / big_val(*b),
{
    a / b
}

/// Relies on `<BigUint as PartialOrd>::lt`: the order of `BigUint` is the
/// order of the values it stores.
#[verifier::external_body]
pub(crate) fn big_lt(a: &BigUint, b: &BigUint) -> (r: bool)
    ensures
        r == (big_val(*a) < big_val(*b)),
{
    a < b
}

/// Relies on `<BigUint as PartialOrd>::le`: the order of `BigUint` is the
/// order of the values it stores.
#[verifier::external_body]
pub(crate) fn big_le(a: &BigUint, b: &BigUint) -> (r: bool)
    ensures
        r == (big_val(*a) <= big_val(*b)),
{
    a <= b
}

/// Relies on `num_traits::Zero::is_zero` for `BigUint`: true exactly of the
/// number zero.
#[verifier::external_body]
pub(crate) fn big_is_zero(a: &BigUint) -> (r: bool)
    ensures
        r == (big_val(*a) == 0),
{
    a.is_zero()
}

} // verus!
