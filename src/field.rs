use vstd::prelude::*;
use num_bigint::BigUint;

verus! {

/// The number that a little-endian byte string encodes.
pub open spec fn le_nat(s: Seq<u8>) -> nat
    decreases s.len(),
{
    if s.len() == 0 {
        0
    } else {
        s[0] as nat + 256 * le_nat(s.drop_first())
    }
}

/// Relies on `BigUint::from_bytes_le` and `BigUint`'s `<`: compares the
/// encoded numbers.
#[verifier::external_body]
pub(crate) fn big_lt(a: &[u8], b: &[u8]) -> (r: bool)
    ensures
        r == (le_nat(a@) < le_nat(b@)),
{
    BigUint::from_bytes_le(a) < BigUint::from_bytes_le(b)
}

/// Relies on `BigUint::from_bytes_le` and `BigUint`'s `==`: the encoded
/// numbers are equal.
#[verifier::external_body]
pub(crate) fn big_eq(a: &[u8], b: &[u8]) -> (r: bool)
    ensures
        r == (le_nat(a@) == le_nat(b@)),
{
    BigUint::from_bytes_le(a) == BigUint::from_bytes_le(b)
}

/// Relies on `BigUint`'s `+`, with `from_bytes_le` / `to_bytes_le` around it.
#[verifier::external_body]
pub(crate) fn big_add(a: &[u8], b: &[u8]) -> (r: Vec<u8>)
    ensures
        le_nat(r@) == le_nat(a@) + le_nat(b@),
{
    (BigUint::from_bytes_le(a) + BigUint::from_bytes_le(b)).to_bytes_le()
}

/// Relies on `BigUint`'s `*`, with `from_bytes_le` / `to_bytes_le` around it.
#[verifier::external_body]
pub(crate) fn big_mul(a: &[u8], b: &[u8]) -> (r: Vec<u8>)
    ensures
        le_nat(r@) == le_nat(a@) * le_nat(b@),
{
    (BigUint::from_bytes_le(a) * BigUint::from_bytes_le(b)).to_bytes_le()
}

/// Relies on `BigUint`'s `%`, which panics on a zero divisor.
#[verifier::external_body]
pub(crate) fn big_rem(a: &[u8], m: &[u8]) -> (r: Vec<u8>)
    requires
        le_nat(m@) > 0,
    ensures
        le_nat(r@) == le_nat(a@) % le_nat(m@),
{
    (BigUint::from_bytes_le(a) % BigUint::from_bytes_le(m)).to_bytes_le()
}

/// `(acc + coeff * val) mod p` over encoded numbers.
pub fn mul_add_mod(acc: &[u8], coeff: &[u8], val: &[u8], p: &[u8]) -> (r: Vec<u8>)
    requires
        le_nat(p@) > 0,
    ensures
        le_nat(r@) == (le_nat(acc@) + le_nat(coeff@) * le_nat(val@)) % le_nat(p@),
{
    let prod = big_mul(coeff, val);
    let sum = big_add(acc, prod.as_slice());
    big_rem(sum.as_slice(), p)
}

/// `(a * b) mod p` over encoded numbers.
pub fn mul_mod(a: &[u8], b: &[u8], p: &[u8]) -> (r: Vec<u8>)
    requires
        le_nat(p@) > 0,
    ensures
        le_nat(r@) == (le_nat(a@) * le_nat(b@)) % le_nat(p@),
{
    let prod = big_mul(a, b);
    big_rem(prod.as_slice(), p)
}

} // verus!
