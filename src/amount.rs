//! Signed 256-bit amounts, computed by `num256`.
use vstd::prelude::*;

use num256::Int256;

verus! {

#[verifier::external_type_specification]
#[verifier::external_body]
pub struct ExInt256(Int256);

/// The integer that a 256-bit signed amount holds.
pub uninterp spec fn int256_value(x: Int256) -> int;

/// The range of a 256-bit two's complement integer.
pub open spec fn fits_int256(v: int) -> bool {
    -0x8000000000000000000000000000000000000000000000000000000000000000int <= v
        && v < 0x8000000000000000000000000000000000000000000000000000000000000000int
}

/// Relies on `From<u64> for num256::Int256`: the same value, widened.
#[verifier::external_body]
pub(crate) fn int256_from_u64(n: u64) -> (r: Int256)
    ensures
        int256_value(r) == n as int,
{
    Int256::from(n)
}

/// Relies on `Add for num256::Int256`: the exact sum, which the caller keeps in range.
#[verifier::external_body]
pub(crate) fn int256_add(a: Int256, b: Int256) -> (r: Int256)
    requires
        fits_int256(int256_value(a) + int256_value(b)),
    ensures
        int256_value(r) == int256_value(a) + int256_value(b),
{
    a + b
}

/// Relies on `Sub for num256::Int256`: the exact difference, which the caller keeps in range.
#[verifier::external_body]
pub(crate) fn int256_sub(a: Int256, b: Int256) -> (r: Int256)
    requires
        fits_int256(int256_value(a) - int256_value(b)),
    ensures
        int256_value(r) == int256_value(a) - int256_value(b),
{
    a - b
}

/// Relies on `Mul for num256::Int256`: the exact product, which the caller keeps in range.
#[verifier::external_body]
pub(crate) fn int256_mul(a: Int256, b: Int256) -> (r: Int256)
    requires
        fits_int256(int256_value(a) * int256_value(b)),
    ensures
        int256_value(r) == int256_value(a) * int256_value(b),
{
    a * b
}

} // verus!
