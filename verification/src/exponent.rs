//! Blinding exponents: the secret scalars with which a player masks the
//! cells of a board, and their inverses, with which the mask comes off.

use crate::bits::bits_nat;
use crate::bits::lemma_low_bits_spell_remainder;
use crate::bits::lemma_two_pow_add;
use crate::bits::low_bits;
use crate::bits::two_pow;
use crate::error::ProtocolError;
use crate::scalar::has_inverse;
use crate::scalar::is_inverse;
use crate::scalar::lemma_multiple_product;
use crate::scalar::lemma_two_pow_64;
use crate::scalar::limbs_nat;
use crate::scalar::with_low_bit;
use crate::scalar::Scalar;
use vstd::prelude::*;

verus! {

/// The number of bits in which an exponent or a field element is handed to
/// a circuit.
pub const EXPONENT_BITS: usize = 254;

/// The order of the curve group in which the blinding takes place.
pub open spec fn group_order() -> nat {
    21888242871839275222246405745257275088614511777268538073601725287587578984328nat
}

/// The order of the subgroup of the curve: an eighth of the group order.
pub open spec fn subgroup_order() -> nat {
    2736030358979909402780800718157159386076813972158567259200215660948447373041nat
}

/// What every blinding exponent satisfies: it lies below the group order,
/// is odd, and is no multiple of the subgroup order.
pub open spec fn is_blinding_exponent(e: nat) -> bool {
    &&& e < group_order()
    &&& e % 2 == 1
    &&& e % subgroup_order() != 0
}

/// The exponent made from a raw draw: the draw with its lowest bit set,
/// moved up by two where that is a multiple of the subgroup order.
pub open spec fn adjusted_exponent(raw: nat) -> nat {
    let odd = with_low_bit(raw);
    if odd % subgroup_order() == 0 {
        (odd + 2) % group_order()
    } else {
        odd
    }
}

/// The group order is eight times the subgroup order.
pub proof fn lemma_group_order_is_eight_subgroups()
    ensures
        group_order() == 8 * subgroup_order(),
{
}

/// Whatever was drawn below the group order, the exponent made from it is
/// a blinding exponent.
pub proof fn lemma_adjusted_is_blinding(raw: nat)
    requires
        raw < group_order(),
    ensures
        is_blinding_exponent(adjusted_exponent(raw)),
{
    let odd = with_low_bit(raw);
    let l = subgroup_order();
    assert(odd < group_order());
    assert(odd % 2 == 1);
    if odd % l == 0 {
        assert(odd == l * (odd / l));
        assert(odd / l <= 7);
        assert(odd + 2 < group_order());
        assert((odd + 2) % l == 2);
    }
}

/// The group order.
pub fn order() -> (r: Scalar)
    ensures
        r@ == group_order(),
{
    let limbs: [u64; 4] = [
        0x3b94bee1c9093788,
        0x59f76dc1c9077053,
        0xb85045b68181585d,
        0x30644e72e131a029,
    ];
    let r = Scalar::from_limbs(limbs.as_slice());
    proof {
        let s = limbs@;
        let s1 = s.drop_first();
        let s2 = s1.drop_first();
        let s3 = s2.drop_first();
        assert(limbs_nat(s3.drop_first()) == 0);
        assert(limbs_nat(s3) == 0x30644e72e131a029nat);
        assert(limbs_nat(s2) == 0x30644e72e131a029_b85045b68181585dnat);
        assert(limbs_nat(s1) == 0x30644e72e131a029_b85045b68181585d_59f76dc1c9077053nat);
    }
    r
}

/// The subgroup order.
pub fn subgroup() -> (r: Scalar)
    ensures
        r@ == subgroup_order(),
{
    let limbs: [u64; 4] = [
        0x677297dc392126f1,
        0xab3eedb83920ee0a,
        0x370a08b6d0302b0b,
        0x060c89ce5c263405,
    ];
    let r = Scalar::from_limbs(limbs.as_slice());
    proof {
        let s = limbs@;
        let s1 = s.drop_first();
        let s2 = s1.drop_first();
        let s3 = s2.drop_first();
        assert(limbs_nat(s3.drop_first()) == 0);
        assert(limbs_nat(s3) == 0x060c89ce5c263405nat);
        assert(limbs_nat(s2) == 0x060c89ce5c263405_370a08b6d0302b0bnat);
        assert(limbs_nat(s1) == 0x060c89ce5c263405_370a08b6d0302b0b_ab3eedb83920ee0anat);
    }
    r
}

/// Makes an exponent from a raw draw: sets the lowest bit, and where the
/// result is a multiple of the subgroup order adds two, modulo the group
/// order. From a draw below the group order this gives a blinding exponent.
pub fn adjust_exponent(raw: &Scalar) -> (r: Scalar)
    ensures
        r@ == adjusted_exponent(raw@),
        raw@ < group_order() ==> is_blinding_exponent(r@),
{
    proof {
        if raw@ < group_order() {
            lemma_adjusted_is_blinding(raw@);
        }
    }
    let odd = raw.set_low_bit();
    let l = subgroup();
    if odd.modulo(&l).is_zero() {
        let two = Scalar::from_u64(2);
        odd.plus(&two).modulo(&order())
    } else {
        odd
    }
}

/// The exponent that a draw gives: the exponent made from the draw where
/// that has an inverse modulo the group order, and one where it has none.
pub open spec fn exponent_of_draw(raw: nat) -> nat {
    let e = adjusted_exponent(raw);
    if has_inverse(e, group_order()) {
        e
    } else {
        1
    }
}

/// One is a blinding exponent, and its own inverse.
pub proof fn lemma_one_is_blinding_unit()
    ensures
        is_blinding_exponent(1),
        has_inverse(1, group_order()),
{
    assert(1nat * 1nat == 1) by (nonlinear_arith);
    assert(is_inverse(1, 1, group_order()));
}

/// Makes the exponent that a draw gives. The exponent made from the draw
/// is kept where it has an inverse modulo the group order, which is tested
/// here: that every such exponent has one rests on the subgroup order
/// being prime, and that is not proved in this crate. An exponent without
/// an inverse would be replaced by one, so that what is returned can
/// always be taken off again in the third step.
pub fn exponent_from_draw(raw: &Scalar) -> (r: Scalar)
    ensures
        r@ == exponent_of_draw(raw@),
        has_inverse(r@, group_order()),
        raw@ < group_order() ==> is_blinding_exponent(r@),
{
    let e = adjust_exponent(raw);
    match e.mod_inverse(&order()) {
        Some(_) => e,
        None => {
            proof {
                lemma_one_is_blinding_unit();
            }
            Scalar::from_u64(1)
        },
    }
}

/// One fresh blinding exponent. It has an inverse modulo the group order.
pub fn random_exponent() -> (r: Scalar)
    ensures
        is_blinding_exponent(r@),
        has_inverse(r@, group_order()),
{
    let raw = Scalar::random_below(&order());
    exponent_from_draw(&raw)
}

/// `count` fresh blinding exponents, drawn one by one, each with an
/// inverse modulo the group order. This cannot fail.
pub fn random_exponents(count: usize) -> (r: Vec<Scalar>)
    ensures
        r.len() == count,
        forall|i: int| 0 <= i < r.len() ==> is_blinding_exponent(#[trigger] r[i]@),
        all_invertible(r@),
{
    let mut exps: Vec<Scalar> = Vec::new();
    while exps.len() < count
        invariant
            exps.len() <= count,
            forall|i: int| 0 <= i < exps.len() ==> is_blinding_exponent(#[trigger] exps[i]@),
            all_invertible(exps@),
        decreases count - exps.len(),
    {
        exps.push(random_exponent());
    }
    exps
}

/// The bits of a scalar as a circuit takes them: 254 of them, least
/// significant first. Bits above these are dropped.
pub fn to_bits(x: &Scalar) -> (r: Vec<u8>)
    ensures
        r@ == low_bits(x@, EXPONENT_BITS as nat),
{
    x.bits(EXPONENT_BITS)
}

/// The bits of each scalar in turn.
pub fn to_exponent_bits(exponents: &[Scalar]) -> (r: Vec<Vec<u8>>)
    ensures
        r.len() == exponents.len(),
        forall|i: int|
            0 <= i < r.len() ==> (#[trigger] r[i])@ == low_bits(exponents[i]@, EXPONENT_BITS as nat),
{
    let mut out: Vec<Vec<u8>> = Vec::new();
    let mut k: usize = 0;
    while k < exponents.len()
        invariant
            k <= exponents.len(),
            out.len() == k,
            forall|i: int|
                0 <= i < k ==> (#[trigger] out[i])@ == low_bits(exponents[i]@, EXPONENT_BITS as nat),
        decreases exponents.len() - k,
    {
        out.push(to_bits(&exponents[k]));
        k += 1;
    }
    out
}

/// Two to the power 254 lies above the group order.
pub proof fn lemma_group_order_fits()
    ensures
        group_order() < two_pow(EXPONENT_BITS as nat),
{
    lemma_two_pow_64();
    let w = two_pow(64);
    assert(w == 4 * two_pow(62)) by {
        reveal_with_fuel(two_pow, 3);
    }
    lemma_two_pow_add(64, 64);
    lemma_two_pow_add(128, 64);
    lemma_two_pow_add(192, 62);
    let a = two_pow(128);
    assert(a == 0x1_0000_0000_0000_0000_0000_0000_0000_0000nat) by (nonlinear_arith)
        requires
            a == w * w,
            w == 0x1_0000_0000_0000_0000nat,
    ;
    let b = two_pow(192);
    assert(b == 0x1_0000_0000_0000_0000_0000_0000_0000_0000_0000_0000_0000_0000nat)
        by (nonlinear_arith)
        requires
            b == a * w,
            a == 0x1_0000_0000_0000_0000_0000_0000_0000_0000nat,
            w == 0x1_0000_0000_0000_0000nat,
    ;
    let c = two_pow(254);
    assert(c == 0x4000_0000_0000_0000_0000_0000_0000_0000_0000_0000_0000_0000_0000_0000_0000_0000nat)
        by (nonlinear_arith)
        requires
            c == b * two_pow(62),
            two_pow(62) == 0x4000_0000_0000_0000nat,
            b == 0x1_0000_0000_0000_0000_0000_0000_0000_0000_0000_0000_0000_0000nat,
    ;
}

/// The bits in which an exponent is handed to a circuit lose nothing of
/// it: a number below the group order is the number that its 254 bits
/// spell.
pub proof fn lemma_exponent_bits_are_faithful(e: nat)
    requires
        e < group_order(),
    ensures
        bits_nat(low_bits(e, EXPONENT_BITS as nat)) == e,
{
    lemma_group_order_fits();
    lemma_low_bits_spell_remainder(e, EXPONENT_BITS as nat);
    vstd::arithmetic::div_mod::lemma_small_mod(e, two_pow(EXPONENT_BITS as nat));
}

/// Whether every one of the exponents is a unit modulo the group order.
pub open spec fn all_invertible(exponents: Seq<Scalar>) -> bool {
    forall|i: int| 0 <= i < exponents.len() ==> has_inverse(#[trigger] exponents[i]@, group_order())
}

/// Whether `inverses` holds, place by place, the inverse of each exponent
/// modulo the group order, taken below the group order.
pub open spec fn are_inverses(exponents: Seq<Scalar>, inverses: Seq<Scalar>) -> bool {
    &&& inverses.len() == exponents.len()
    &&& forall|i: int|
        0 <= i < exponents.len() ==> {
            &&& (#[trigger] inverses[i])@ < group_order()
            &&& is_inverse(exponents[i]@, inverses[i]@, group_order())
        }
}

/// Whether `index` is the first place at which an exponent has no inverse.
pub open spec fn first_non_unit(exponents: Seq<Scalar>, index: int) -> bool {
    &&& 0 <= index < exponents.len()
    &&& !has_inverse(exponents[index]@, group_order())
    &&& forall|j: int| 0 <= j < index ==> has_inverse(#[trigger] exponents[j]@, group_order())
}

/// The inverse of each exponent modulo the group order. An exponent
/// without an inverse is not passed over: the first such one is reported,
/// with its place and its value.
pub fn invert_exponents(exponents: &[Scalar]) -> (r: Result<Vec<Scalar>, ProtocolError>)
    ensures
        r is Ok <==> all_invertible(exponents@),
        r matches Ok(inverses) ==> are_inverses(exponents@, inverses@),
        r matches Err(e) ==> e matches ProtocolError::NonInvertibleExponent { index, exponent }
            && first_non_unit(exponents@, index as int) && exponent@ == exponents[index as int]@,
{
    let modulus = order();
    let mut inverses: Vec<Scalar> = Vec::new();
    let mut k: usize = 0;
    while k < exponents.len()
        invariant
            k <= exponents.len(),
            modulus@ == group_order(),
            are_inverses(exponents@.take(k as int), inverses@),
            forall|j: int| 0 <= j < k ==> has_inverse(#[trigger] exponents[j]@, group_order()),
        decreases exponents.len() - k,
    {
        match exponents[k].mod_inverse(&modulus) {
            Some(inverse) => {
                inverses.push(inverse);
            },
            None => {
                return Err(
                    ProtocolError::NonInvertibleExponent {
                        index: k,
                        exponent: exponents[k].duplicate(),
                    },
                );
            },
        }
        k += 1;
    }
    proof {
        assert(exponents@.take(k as int) =~= exponents@);
    }
    Ok(inverses)
}

/// Zero has no inverse modulo the group order.
pub proof fn lemma_zero_not_invertible()
    ensures
        !has_inverse(0, group_order()),
{
    assert forall|x: nat| !is_inverse(0, x, group_order()) by {
        assert(0 * x == 0) by (nonlinear_arith);
    }
}

/// A unit modulo the group order is odd and no multiple of the subgroup
/// order: what the generator avoids is what could not be inverted.
pub proof fn lemma_unit_is_odd_and_off_subgroup(e: nat)
    requires
        has_inverse(e, group_order()),
    ensures
        e % 2 == 1,
        e % subgroup_order() != 0,
{
    let x = choose|x: nat| is_inverse(e, x, group_order());
    let p = e * x;
    let n = group_order();
    let l = subgroup_order();
    assert(p % n == 1);
    assert(p == n * (p / n) + 1);
    assert(p % 2 == 1);
    assert(p % l == 1);
    if e % 2 == 0 {
        lemma_multiple_product(e, x, 2);
    }
    if e % l == 0 {
        lemma_multiple_product(e, x, l);
    }
}

} // verus!
