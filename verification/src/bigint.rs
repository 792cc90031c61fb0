use vstd::prelude::*;
use crate::numbytes::le_val;

verus! {

/// Relies on `<num_bigint::BigUint as core::ops::Add>::add`: the sum of the
/// two values, returned in little-endian bytes.
#[verifier::external_body]
pub(crate) fn big_add(a: &[u8], b: &[u8]) -> (r: Vec<u8>)
    ensures
        le_val(r@) == le_val(a@) + le_val(b@),
{
    (num_bigint::BigUint::from_bytes_le(a) + num_bigint::BigUint::from_bytes_le(b)).to_bytes_le()
}

/// Relies on `<num_bigint::BigUint as core::ops::Mul>::mul`: the product of
/// the two values, returned in little-endian bytes.
#[verifier::external_body]
pub(crate) fn big_mul(a: &[u8], b: &[u8]) -> (r: Vec<u8>)
    ensures
        le_val(r@) == le_val(a@) * le_val(b@),
{
    (num_bigint::BigUint::from_bytes_le(a) * num_bigint::BigUint::from_bytes_le(b)).to_bytes_le()
}

/// Relies on `<num_bigint::BigUint as core::ops::Div>::div`: the quotient of
/// the two values, rounded towards zero. The divisor must not be zero, since
/// the outside division does not return on zero.
#[verifier::external_body]
pub(crate) fn big_div(a: &[u8], b: &[u8]) -> (r: Vec<u8>)
    requires
        le_val(b@) != 0,
    ensures
        le_val(r@) == le_val(a@) / le_val(b@),
{
    (num_bigint::BigUint::from_bytes_le(a) / num_bigint::BigUint::from_bytes_le(b)).to_bytes_le()
}

/// Relies on `<num_bigint::BigUint as core::ops::Rem>::rem`: the remainder of
/// dividing the first value by the second. The divisor must not be zero.
#[verifier::external_body]
pub(crate) fn big_rem(a: &[u8], b: &[u8]) -> (r: Vec<u8>)
    requires
        le_val(b@) != 0,
    ensures
        le_val(r@) == le_val(a@) % le_val(b@),
{
    (num_bigint::BigUint::from_bytes_le(a) % num_bigint::BigUint::from_bytes_le(b)).to_bytes_le()
}

} // verus!
