//! Trusted boundary to the arbitrary-precision integers of `num_bigint`.
//! A `BigInt` is opaque here; `big_value` names the mathematical integer it
//! holds, and each wrapper states what the called operation does to that
//! value.

use vstd::prelude::*;
use num_bigint::BigInt;

verus! {

#[verifier::external_type_specification]
#[verifier::external_body]
pub struct ExBigInt(BigInt);

/// The mathematical integer held by a `BigInt`.
pub uninterp spec fn big_value(b: BigInt) -> int;

/// Quotient of `a` and `d`, rounded toward zero (for positive `d`).
pub open spec fn trunc_div(a: int, d: int) -> int {
    if a >= 0 {
        a / d
    } else {
        -((-a) / d)
    }
}

/// Relies on `impl From<u64> for BigInt`: the result holds exactly the
/// given value.
#[verifier::external_body]
pub fn big_from_u64(v: u64) -> (b: BigInt)
    ensures
        big_value(b) == v as int,
{
    BigInt::from(v)
}

/// Relies on `impl From<i64> for BigInt`: the result holds exactly the
/// given value.
#[verifier::external_body]
pub fn big_from_i64(v: i64) -> (b: BigInt)
    ensures
        big_value(b) == v as int,
{
    BigInt::from(v)
}

/// Relies on `impl Clone for BigInt`: the copy holds the same value.
#[verifier::external_body]
pub fn big_clone(b: &BigInt) -> (r: BigInt)
    ensures
        big_value(r) == big_value(*b),
{
    b.clone()
}

/// Relies on `impl Mul<i32> for &BigInt`: exact multiplication.
#[verifier::external_body]
pub fn big_mul_i32(b: &BigInt, m: i32) -> (r: BigInt)
    ensures
        big_value(r) == big_value(*b) * m as int,
{
    b * m
}

/// Relies on `impl Sub for &BigInt`: exact subtraction.
#[verifier::external_body]
pub fn big_sub(a: &BigInt, b: &BigInt) -> (r: BigInt)
    ensures
        big_value(r) == big_value(*a) - big_value(*b),
{
    a - b
}

/// Relies on `impl Div for &BigInt`, whose quotient comes from
/// `div_rem` and is rounded toward zero.  Division by zero panics in the
/// callee, so it is excluded here.
#[verifier::external_body]
pub fn big_div(a: &BigInt, d: &BigInt) -> (r: BigInt)
    requires
        big_value(*d) != 0,
    ensures
        big_value(*d) > 0 ==> big_value(r) == trunc_div(big_value(*a), big_value(*d)),
{
    a / d
}

/// Relies on `impl Ord for BigInt`: ordering of the held values.
#[verifier::external_body]
pub fn big_is_negative(b: &BigInt) -> (r: bool)
    ensures
        r == (big_value(*b) < 0),
{
    *b < BigInt::from(0i32)
}

/// Relies on `ToPrimitive::to_i64` for `BigInt`: the value converts exactly
/// when and only when it fits `i64`.
#[verifier::external_body]
pub fn big_to_i64(b: &BigInt) -> (r: Option<i64>)
    ensures
        r matches Some(v) ==> big_value(*b) == v as int,
        r is None ==> !(i64::MIN <= big_value(*b) <= i64::MAX),
{
    num_traits::ToPrimitive::to_i64(b)
}

/// Relies on `ToPrimitive::to_u64` for `BigInt`: the value converts exactly
/// when and only when it fits `u64`.
#[verifier::external_body]
pub fn big_to_u64(b: &BigInt) -> (r: Option<u64>)
    ensures
        r matches Some(v) ==> big_value(*b) == v as int,
        r is None ==> !(0 <= big_value(*b) <= u64::MAX),
{
    num_traits::ToPrimitive::to_u64(b)
}

} // verus!
