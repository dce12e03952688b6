//! The few operations on num-bigint's arbitrary-precision integers that the
//! supply bookkeeping needs.
use vstd::prelude::*;
use num_bigint::BigInt;

verus! {

#[verifier::external_type_specification]
#[verifier::external_body]
pub struct ExBigInt(BigInt);

/// The mathematical integer that a num-bigint `BigInt` denotes.
pub uninterp spec fn bigint_value(b: BigInt) -> int;

/// Calls `<BigInt as Default>::default`, which num-bigint defines as
/// `BigInt::ZERO`: the result denotes zero.
#[verifier::external_body]
pub(crate) fn bigint_zero() -> (r: BigInt)
    ensures
        bigint_value(r) == 0,
{
    BigInt::default()
}

/// Calls `<BigInt as From<i128>>::from`, a lossless conversion: the result
/// denotes `n`.
#[verifier::external_body]
pub(crate) fn bigint_from_i128(n: i128) -> (r: BigInt)
    ensures
        bigint_value(r) == n,
{
    BigInt::from(n)
}

/// Calls `<&BigInt as Add<&BigInt>>::add`, arbitrary-precision addition: the
/// result denotes the exact sum.
#[verifier::external_body]
pub(crate) fn bigint_add(a: &BigInt, b: &BigInt) -> (r: BigInt)
    ensures
        bigint_value(r) == bigint_value(*a) + bigint_value(*b),
{
    a + b
}

/// Calls `<&BigInt as Sub<&BigInt>>::sub`, arbitrary-precision subtraction:
/// the result denotes the exact difference.
#[verifier::external_body]
pub(crate) fn bigint_sub(a: &BigInt, b: &BigInt) -> (r: BigInt)
    ensures
        bigint_value(r) == bigint_value(*a) - bigint_value(*b),
{
    a - b
}

/// Calls `<BigInt as PartialEq>::eq`, which compares sign and magnitude of
/// the canonical representation: true exactly when both denote the same
/// integer.
#[verifier::external_body]
pub(crate) fn bigint_eq(a: &BigInt, b: &BigInt) -> (r: bool)
    ensures
        r == (bigint_value(*a) == bigint_value(*b)),
{
    a == b
}

} // verus!
