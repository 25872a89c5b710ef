//! The calls into `num-bigint`. Numbers cross this boundary as little-endian
//! bytes: `BigUint::from_bytes_le` takes them in and `BigUint::to_bytes_le`
//! hands them back, the one reading and the other writing the number least
//! significant byte first. Nothing in this file is proved. Each contract
//! states what the function that is called is documented to do.

use crate::bits::le_nat;
use crate::scalar::decimal_text;
use crate::scalar::decimal_value;
use crate::scalar::has_inverse;
use crate::scalar::is_decimal;
use crate::scalar::is_inverse;
use crate::scalar::with_low_bit;
use num_bigint::BigUint;
use num_bigint::RandBigInt;
use vstd::prelude::*;

verus! {

/// `BigUint::parse_bytes` in base ten. On a run of ASCII digits the parser
/// accepts the text and returns the number that the digits spell.
#[verifier::external_body]
pub(crate) fn big_parse_decimal(text: &[u8]) -> (r: Option<Vec<u8>>)
    requires
        is_decimal(text@),
    ensures
        r is Some,
        r matches Some(bytes) ==> le_nat(bytes@) == decimal_value(text@),
{
    match BigUint::parse_bytes(text, 10) {
        Some(x) => Some(x.to_bytes_le()),
        None => None,
    }
}

/// `BigUint`'s `to_string`: the decimal numeral of the value, most
/// significant digit first, `"0"` for zero and no leading zeros otherwise.
#[verifier::external_body]
pub(crate) fn big_to_decimal(bytes: &Vec<u8>) -> (r: String)
    ensures
        r@ == decimal_text(le_nat(bytes@)),
{
    BigUint::from_bytes_le(bytes).to_string()
}

/// `RandBigInt::gen_biguint_below` on the thread's generator: some number
/// below the bound, which must not be zero. Nothing else is known of it.
#[verifier::external_body]
pub(crate) fn big_random_below(bound: &Vec<u8>) -> (r: Vec<u8>)
    requires
        le_nat(bound@) > 0,
    ensures
        le_nat(r@) < le_nat(bound@),
{
    rand::thread_rng().gen_biguint_below(&BigUint::from_bytes_le(bound)).to_bytes_le()
}

/// `BigUint::set_bit(0, true)`: the value with its lowest bit set.
#[verifier::external_body]
pub(crate) fn big_set_low_bit(bytes: &Vec<u8>) -> (r: Vec<u8>)
    ensures
        le_nat(r@) == with_low_bit(le_nat(bytes@)),
{
    let mut x = BigUint::from_bytes_le(bytes);
    x.set_bit(0, true);
    x.to_bytes_le()
}

/// `BigUint`'s `+`: the sum.
#[verifier::external_body]
pub(crate) fn big_add(a: &Vec<u8>, b: &Vec<u8>) -> (r: Vec<u8>)
    ensures
        le_nat(r@) == le_nat(a@) + le_nat(b@),
{
    (BigUint::from_bytes_le(a) + BigUint::from_bytes_le(b)).to_bytes_le()
}

/// `BigUint`'s `%`: the remainder of the division by a modulus that is not
/// zero.
#[verifier::external_body]
pub(crate) fn big_rem(a: &Vec<u8>, m: &Vec<u8>) -> (r: Vec<u8>)
    requires
        le_nat(m@) > 0,
    ensures
        le_nat(r@) == le_nat(a@) % le_nat(m@),
{
    (BigUint::from_bytes_le(a) % BigUint::from_bytes_le(m)).to_bytes_le()
}

/// `BigUint::modinv`: the inverse of `a` modulo `m` that lies below `m`,
/// where `a` has an inverse, and `None` where it has none. The modulus is
/// taken above one: the outside function stops on zero and answers zero for
/// one.
#[verifier::external_body]
pub(crate) fn big_modinv(a: &Vec<u8>, m: &Vec<u8>) -> (r: Option<Vec<u8>>)
    requires
        le_nat(m@) > 1,
    ensures
        r is Some <==> has_inverse(le_nat(a@), le_nat(m@)),
        r matches Some(x) ==> le_nat(x@) < le_nat(m@) && is_inverse(
            le_nat(a@),
            le_nat(x@),
            le_nat(m@),
        ),
{
    match BigUint::from_bytes_le(a).modinv(&BigUint::from_bytes_le(m)) {
        Some(x) => Some(x.to_bytes_le()),
        None => None,
    }
}

} // verus!
