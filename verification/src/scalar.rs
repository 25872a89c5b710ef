//! Unbounded natural numbers as the protocol uses them: exponents, curve
//! coordinates and digests. A `Scalar` keeps its value as little-endian
//! bytes; the arithmetic on large numbers is done by `num-bigint`.

use crate::bignum::big_add;
use crate::bignum::big_modinv;
use crate::bignum::big_parse_decimal;
use crate::bignum::big_random_below;
use crate::bignum::big_rem;
use crate::bignum::big_set_low_bit;
use crate::bignum::big_to_decimal;
use crate::bits::le_bytes_to_bits;
use crate::bits::le_nat;
use crate::bits::lemma_le_nat_concat;
use crate::bits::lemma_two_pow_add;
use crate::bits::two_pow;
use crate::bits::low_bits;
use vstd::prelude::*;

verus! {

/// A natural number of any size, held least significant byte first. High
/// zero bytes are allowed and do not change the value.
#[derive(Clone, Debug)]
pub struct Scalar {
    pub bytes: Vec<u8>,
}

impl View for Scalar {
    type V = nat;

    open spec fn view(&self) -> nat {
        le_nat(self.bytes@)
    }
}

/// Whether `text` is a decimal numeral: one or more ASCII digits.
pub open spec fn is_decimal(text: Seq<u8>) -> bool {
    text.len() > 0 && forall|i: int| 0 <= i < text.len() ==> 48 <= #[trigger] text[i] <= 57
}

/// The number that a run of ASCII digits spells.
pub open spec fn decimal_value(text: Seq<u8>) -> nat
    decreases text.len(),
{
    if text.len() == 0 {
        0
    } else {
        10 * decimal_value(text.drop_last()) + (text.last() - 48) as nat
    }
}

/// The character for a single digit.
pub open spec fn digit_char(digit: nat) -> char {
    (digit + 48) as u8 as char
}

/// The decimal numeral of `value`, without leading zeros.
pub open spec fn decimal_text(value: nat) -> Seq<char>
    decreases value,
{
    if value < 10 {
        seq![digit_char(value)]
    } else {
        decimal_text(value / 10).push(digit_char(value % 10))
    }
}

/// The weight of a 64-bit limb: two to the power 64.
pub open spec fn limb_base() -> nat {
    0x1_0000_0000_0000_0000
}

/// The number that a sequence of 64-bit limbs spells, least significant
/// limb first.
pub open spec fn limbs_nat(limbs: Seq<u64>) -> nat
    decreases limbs.len(),
{
    if limbs.len() == 0 {
        0
    } else {
        limbs[0] as nat + limb_base() * limbs_nat(limbs.drop_first())
    }
}

/// `value` with its lowest bit set.
pub open spec fn with_low_bit(value: nat) -> nat {
    if value % 2 == 0 {
        value + 1
    } else {
        value
    }
}

/// Whether `x` is a multiplicative inverse of `a` modulo `m`.
pub open spec fn is_inverse(a: nat, x: nat, m: nat) -> bool {
    (a * x) % m == 1
}

/// Whether `a` is a unit modulo `m`.
pub open spec fn has_inverse(a: nat, m: nat) -> bool {
    exists|x: nat| is_inverse(a, x, m)
}

/// A multiple of `d` times anything is a multiple of `d`.
pub proof fn lemma_multiple_product(e: nat, x: nat, d: nat)
    requires
        d > 0,
        e % d == 0,
    ensures
        (e * x) % d == 0,
{
    vstd::arithmetic::div_mod::lemma_mul_mod_noop_left(e as int, x as int, d as int);
    assert(0 * (x as int) == 0) by (nonlinear_arith);
    assert(0int % (d as int) == 0);
}

/// A number spelt by bytes is zero exactly when every byte is.
pub proof fn lemma_le_nat_zero(bytes: Seq<u8>)
    ensures
        le_nat(bytes) == 0 <==> forall|i: int| 0 <= i < bytes.len() ==> bytes[i] == 0,
    decreases bytes.len(),
{
    if bytes.len() > 0 {
        let rest = bytes.drop_first();
        lemma_le_nat_zero(rest);
        if le_nat(bytes) == 0 {
            assert forall|i: int| 0 <= i < bytes.len() implies bytes[i] == 0 by {
                if i > 0 {
                    assert(rest[i - 1] == bytes[i]);
                }
            }
        }
        if forall|i: int| 0 <= i < bytes.len() ==> bytes[i] == 0 {
            assert forall|i: int| 0 <= i < rest.len() implies rest[i] == 0 by {
                assert(rest[i] == bytes[i + 1]);
            }
        }
    }
}

/// A number spelt by `n` bytes lies below two to the power `8 * n`.
pub proof fn lemma_le_nat_bound(bytes: Seq<u8>)
    ensures
        le_nat(bytes) < two_pow(8 * bytes.len()),
    decreases bytes.len(),
{
    reveal_with_fuel(two_pow, 9);
    if bytes.len() > 0 {
        let rest = bytes.drop_first();
        lemma_le_nat_bound(rest);
        let p = two_pow(8 * rest.len());
        assert(two_pow(8 * bytes.len()) == 256 * p);
    }
}

impl Scalar {
    /// The number that `bytes` spell, least significant byte first.
    pub fn from_le_bytes(bytes: Vec<u8>) -> (r: Scalar)
        ensures
            r@ == le_nat(bytes@),
            r.bytes@ == bytes@,
    {
        Scalar { bytes }
    }

    /// The value as little-endian bytes.
    pub fn to_le_bytes(&self) -> (r: Vec<u8>)
        ensures
            r@ == self.bytes@,
            le_nat(r@) == self@,
    {
        self.bytes.clone()
    }

    /// A second scalar of the same value.
    pub fn duplicate(&self) -> (r: Scalar)
        ensures
            r@ == self@,
            r.bytes@ == self.bytes@,
    {
        Scalar { bytes: self.bytes.clone() }
    }

    /// The scalar of value zero.
    pub fn zero() -> (r: Scalar)
        ensures
            r@ == 0,
    {
        Scalar { bytes: Vec::new() }
    }

    /// The scalar that the limbs spell, least significant limb first.
    pub fn from_limbs(limbs: &[u64]) -> (r: Scalar)
        ensures
            r@ == limbs_nat(limbs@),
    {
        let mut bytes: Vec<u8> = Vec::new();
        let mut k: usize = 0;
        while k < limbs.len()
            invariant
                k <= limbs.len(),
                bytes.len() == 8 * k,
                le_nat(bytes@) == limbs_nat(limbs@.take(k as int)),
            decreases limbs.len() - k,
        {
            let limb = Scalar::from_u64(limbs[k]);
            let ghost before = bytes@;
            let mut j: usize = 0;
            while j < 8
                invariant
                    j <= 8,
                    limb.bytes.len() == 8,
                    bytes@ == before + limb.bytes@.take(j as int),
                decreases 8 - j,
            {
                bytes.push(limb.bytes[j]);
                proof {
                    assert(limb.bytes@.take(j + 1) =~= limb.bytes@.take(j as int).push(
                        limb.bytes@[j as int],
                    ));
                    assert(bytes@ =~= before + limb.bytes@.take(j + 1));
                }
                j += 1;
            }
            proof {
                assert(limb.bytes@.take(8) =~= limb.bytes@);
                lemma_le_nat_concat(before, limb.bytes@);
                lemma_limbs_nat_push(limbs@.take(k as int), limbs@[k as int]);
                assert(limbs@.take(k + 1) =~= limbs@.take(k as int).push(limbs@[k as int]));
                assert(8 * before.len() == 64 * k);
            }
            k += 1;
        }
        proof {
            assert(limbs@.take(limbs.len() as int) =~= limbs@);
        }
        Scalar { bytes }
    }

    /// The scalar with the value of `x`, as eight bytes.
    pub fn from_u64(x: u64) -> (r: Scalar)
        ensures
            r@ == x,
            r.bytes.len() == 8,
    {
        let mut bytes: Vec<u8> = Vec::new();
        let mut rest: u64 = x;
        let mut k: usize = 0;
        let ghost mut weight: nat = 1;
        while k < 8
            invariant
                k <= 8,
                bytes.len() == k,
                weight == two_pow(8 * k as nat),
                x == le_nat(bytes@) + weight * rest,
            decreases 8 - k,
        {
            let low: u8 = (rest % 256) as u8;
            proof {
                lemma_le_nat_push(bytes@, low);
                reveal_with_fuel(two_pow, 9);
                assert(two_pow(8 * (k + 1) as nat) == 256 * weight);
                assert(weight * rest == weight * low + (256 * weight) * (rest / 256))
                    by (nonlinear_arith)
                    requires
                        low == rest % 256,
                ;
            }
            bytes.push(low);
            rest = rest / 256;
            proof {
                weight = 256 * weight;
            }
            k += 1;
        }
        proof {
            assert(weight == 0x1_0000_0000_0000_0000nat) by {
                lemma_two_pow_64();
            }
            assert(rest == 0) by (nonlinear_arith)
                requires
                    x == le_nat(bytes@) + weight * rest,
                    weight == 0x1_0000_0000_0000_0000nat,
                    x <= 0xffff_ffff_ffff_ffff,
            ;
            assert(weight * rest == 0) by (nonlinear_arith)
                requires
                    rest == 0,
            ;
        }
        Scalar { bytes }
    }

    /// Whether the value is zero.
    pub fn is_zero(&self) -> (r: bool)
        ensures
            r == (self@ == 0),
    {
        let mut k: usize = 0;
        while k < self.bytes.len()
            invariant
                k <= self.bytes.len(),
                forall|i: int| 0 <= i < k ==> self.bytes@[i] == 0,
            decreases self.bytes.len() - k,
        {
            if self.bytes[k] != 0 {
                proof {
                    lemma_le_nat_zero(self.bytes@);
                }
                return false;
            }
            k += 1;
        }
        proof {
            lemma_le_nat_zero(self.bytes@);
        }
        true
    }

    /// Reads a decimal numeral. Only a run of one or more ASCII digits is a
    /// numeral: a sign, a blank or any other byte makes the text invalid.
    pub fn parse_decimal(text: &[u8]) -> (r: Option<Scalar>)
        ensures
            r is Some <==> is_decimal(text@),
            r matches Some(x) ==> x@ == decimal_value(text@),
    {
        if text.len() == 0 {
            return None;
        }
        let mut k: usize = 0;
        while k < text.len()
            invariant
                k <= text.len(),
                forall|i: int| 0 <= i < k ==> 48 <= #[trigger] text@[i] <= 57,
            decreases text.len() - k,
        {
            if text[k] < 48 || text[k] > 57 {
                return None;
            }
            k += 1;
        }
        match big_parse_decimal(text) {
            Some(bytes) => Some(Scalar { bytes }),
            None => None,
        }
    }

    /// The decimal numeral of the value.
    pub fn to_decimal(&self) -> (r: String)
        ensures
            r@ == decimal_text(self@),
    {
        big_to_decimal(&self.bytes)
    }

    /// A number below `bound`, drawn from the thread's random generator.
    pub fn random_below(bound: &Scalar) -> (r: Scalar)
        requires
            bound@ > 0,
        ensures
            r@ < bound@,
    {
        Scalar { bytes: big_random_below(&bound.bytes) }
    }

    /// The value with its lowest bit set.
    pub fn set_low_bit(&self) -> (r: Scalar)
        ensures
            r@ == with_low_bit(self@),
    {
        Scalar { bytes: big_set_low_bit(&self.bytes) }
    }

    /// The sum of two scalars.
    pub fn plus(&self, other: &Scalar) -> (r: Scalar)
        ensures
            r@ == self@ + other@,
    {
        Scalar { bytes: big_add(&self.bytes, &other.bytes) }
    }

    /// The remainder of the division by `modulus`.
    pub fn modulo(&self, modulus: &Scalar) -> (r: Scalar)
        requires
            modulus@ > 0,
        ensures
            r@ == self@ % modulus@,
    {
        Scalar { bytes: big_rem(&self.bytes, &modulus.bytes) }
    }

    /// The inverse modulo `modulus`, below `modulus`, if there is one.
    pub fn mod_inverse(&self, modulus: &Scalar) -> (r: Option<Scalar>)
        requires
            modulus@ > 1,
        ensures
            r is Some <==> has_inverse(self@, modulus@),
            r matches Some(x) ==> x@ < modulus@ && is_inverse(self@, x@, modulus@),
    {
        match big_modinv(&self.bytes, &modulus.bytes) {
            Some(bytes) => Some(Scalar { bytes }),
            None => None,
        }
    }

    /// The value as exactly `width` little-endian bytes, where it fits in
    /// that many.
    pub fn to_fixed_bytes(&self, width: usize) -> (r: Option<Vec<u8>>)
        ensures
            r is Some <==> self@ < two_pow(8 * width as nat),
            r matches Some(bytes) ==> bytes.len() == width && le_nat(bytes@) == self@,
    {
        let ghost low = self.bytes@.take(if width <= self.bytes.len() {
            width as int
        } else {
            self.bytes.len() as int
        });
        let ghost high = self.bytes@.skip(low.len() as int);
        proof {
            assert(self.bytes@ =~= low + high);
            lemma_le_nat_concat(low, high);
            lemma_le_nat_bound(low);
            lemma_le_nat_zero(high);
        }
        let mut k: usize = width;
        while k < self.bytes.len()
            invariant
                width <= k,
                k <= self.bytes.len() || k == width,
                high == self.bytes@.skip(low.len() as int),
                low.len() == width || self.bytes.len() < width,
                forall|i: int| width <= i < k && i < self.bytes.len() ==> self.bytes@[i] == 0,
                self@ == le_nat(low) + two_pow(8 * low.len()) * le_nat(high),
                le_nat(high) == 0 <==> forall|i: int| 0 <= i < high.len() ==> high[i] == 0,
            decreases self.bytes.len() - k,
        {
            if self.bytes[k] != 0 {
                proof {
                    assert(high[k - width] == self.bytes@[k as int]);
                    assert(le_nat(high) >= 1);
                    assert(two_pow(8 * low.len()) * le_nat(high) >= two_pow(8 * low.len()))
                        by (nonlinear_arith)
                        requires
                            le_nat(high) >= 1,
                    ;
                }
                return None;
            }
            k += 1;
        }
        proof {
            assert forall|i: int| 0 <= i < high.len() implies high[i] == 0 by {
                assert(high[i] == self.bytes@[low.len() + i]);
            }
            assert(le_nat(high) == 0);
            assert(two_pow(8 * low.len()) * le_nat(high) == 0) by (nonlinear_arith)
                requires
                    le_nat(high) == 0,
            ;
            assert(self@ == le_nat(low));
        }
        let mut out: Vec<u8> = Vec::new();
        let mut j: usize = 0;
        while j < width
            invariant
                j <= width,
                out.len() == j,
                low.len() <= self.bytes.len(),
                low == self.bytes@.take(low.len() as int),
                low.len() == width || low.len() == self.bytes.len(),
                forall|i: int| 0 <= i < j && i < low.len() ==> out@[i] == low[i],
                forall|i: int| low.len() <= i < j ==> out@[i] == 0,
            decreases width - j,
        {
            if j < self.bytes.len() {
                out.push(self.bytes[j]);
            } else {
                out.push(0);
            }
            j += 1;
        }
        proof {
            let padding = out@.skip(low.len() as int);
            assert(out@ =~= low + padding);
            lemma_le_nat_concat(low, padding);
            lemma_le_nat_zero(padding);
            assert(le_nat(padding) == 0);
            assert(two_pow(8 * low.len()) * le_nat(padding) == 0) by (nonlinear_arith)
                requires
                    le_nat(padding) == 0,
            ;
            lemma_le_nat_bound(out@);
        }
        Some(out)
    }

    /// The lowest `width` bits of the value, least significant first.
    pub fn bits(&self, width: usize) -> (r: Vec<u8>)
        ensures
            r@ == low_bits(self@, width as nat),
    {
        le_bytes_to_bits(&self.bytes, width)
    }
}

/// Appending a byte adds it at the weight of its place.
pub proof fn lemma_le_nat_push(bytes: Seq<u8>, last: u8)
    ensures
        le_nat(bytes.push(last)) == le_nat(bytes) + two_pow(8 * bytes.len()) * last,
{
    let one = seq![last];
    assert(bytes.push(last) =~= bytes + one);
    lemma_le_nat_concat(bytes, one);
    assert(one.drop_first() =~= Seq::<u8>::empty());
    assert(le_nat(one.drop_first()) == 0);
    assert(le_nat(one) == last);
}

/// Appending a limb adds it at the weight of its place.
pub proof fn lemma_limbs_nat_push(limbs: Seq<u64>, last: u64)
    ensures
        limbs_nat(limbs.push(last)) == limbs_nat(limbs) + two_pow(64 * limbs.len()) * last,
    decreases limbs.len(),
{
    let longer = limbs.push(last);
    if limbs.len() == 0 {
        assert(longer.drop_first() =~= Seq::<u64>::empty());
        assert(limbs_nat(longer.drop_first()) == 0);
        assert(limb_base() * limbs_nat(longer.drop_first()) == 0) by (nonlinear_arith)
            requires
                limbs_nat(longer.drop_first()) == 0,
        ;
        assert(limbs_nat(longer) == longer[0] + limb_base() * limbs_nat(longer.drop_first()));
        assert(limbs_nat(longer) == last);
        assert(limbs_nat(limbs) == 0);
        assert(two_pow(0) * last == last) by (nonlinear_arith)
            requires
                two_pow(0) == 1,
        ;
    } else {
        let rest = limbs.drop_first();
        lemma_limbs_nat_push(rest, last);
        assert(longer.drop_first() =~= rest.push(last));
        assert(longer[0] == limbs[0]);
        let p = two_pow(64 * rest.len());
        lemma_two_pow_add(64, 64 * rest.len());
        lemma_two_pow_64();
        assert(two_pow(64 * limbs.len()) == limb_base() * p);
        let base = limb_base();
        assert(base * (p * last) == (base * p) * last) by (nonlinear_arith);
        assert(base * (limbs_nat(rest) + p * last) == base * limbs_nat(rest) + base * (p * last))
            by (nonlinear_arith);
        assert(limbs_nat(longer) == limbs[0] + base * limbs_nat(rest.push(last)));
        assert(limbs_nat(limbs) == limbs[0] + base * limbs_nat(rest));
    }
}

/// Two to the power 64.
pub proof fn lemma_two_pow_64()
    ensures
        two_pow(64) == limb_base(),
{
    assert(two_pow(8) == 256) by {
        reveal_with_fuel(two_pow, 9);
    }
    lemma_two_pow_add(8, 8);
    assert(two_pow(16) == 0x1_0000) by (nonlinear_arith)
        requires
            two_pow(16) == two_pow(8) * two_pow(8),
            two_pow(8) == 256,
    ;
    lemma_two_pow_add(16, 16);
    assert(two_pow(32) == 0x1_0000_0000) by (nonlinear_arith)
        requires
            two_pow(32) == two_pow(16) * two_pow(16),
            two_pow(16) == 0x1_0000,
    ;
    lemma_two_pow_add(32, 32);
    assert(two_pow(64) == 0x1_0000_0000_0000_0000) by (nonlinear_arith)
        requires
            two_pow(64) == two_pow(32) * two_pow(32),
            two_pow(32) == 0x1_0000_0000,
    ;
}

} // verus!
