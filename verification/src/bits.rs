//! Bit decomposition: numbers are handed to the circuits one bit per
//! element, least significant bit first.

use vstd::prelude::*;

verus! {

/// Bit `i` of `value`, counting from the least significant one.
pub open spec fn bit_of(value: nat, i: nat) -> nat
    decreases i,
{
    if i == 0 {
        value % 2
    } else {
        bit_of(value / 2, (i - 1) as nat)
    }
}

/// The number that a sequence of bytes spells, least significant byte first.
pub open spec fn le_nat(bytes: Seq<u8>) -> nat
    decreases bytes.len(),
{
    if bytes.len() == 0 {
        0
    } else {
        bytes[0] as nat + 256 * le_nat(bytes.drop_first())
    }
}

/// The lowest `width` bits of `value`, least significant first.
pub open spec fn low_bits(value: nat, width: nat) -> Seq<u8> {
    Seq::new(width, |i: int| bit_of(value, i as nat) as u8)
}

/// Two to the power `m`.
pub open spec fn two_pow(m: nat) -> nat
    decreases m,
{
    if m == 0 {
        1
    } else {
        2 * two_pow((m - 1) as nat)
    }
}

/// Powers of two multiply as their exponents add.
pub proof fn lemma_two_pow_add(a: nat, b: nat)
    ensures
        two_pow(a + b) == two_pow(a) * two_pow(b),
    decreases a,
{
    if a == 0 {
        assert(two_pow(0) * two_pow(b) == two_pow(b)) by (nonlinear_arith)
            requires
                two_pow(0) == 1,
        ;
    } else {
        lemma_two_pow_add((a - 1) as nat, b);
        let x = two_pow((a - 1) as nat);
        let y = two_pow(b);
        assert(two_pow(a + b) == 2 * two_pow((a - 1 + b) as nat));
        assert(2 * (x * y) == (2 * x) * y) by (nonlinear_arith);
    }
}

/// The number spelt by two runs of bytes, one after the other.
pub proof fn lemma_le_nat_concat(low: Seq<u8>, high: Seq<u8>)
    ensures
        le_nat(low + high) == le_nat(low) + two_pow(8 * low.len()) * le_nat(high),
    decreases low.len(),
{
    if low.len() == 0 {
        assert(low + high =~= high);
        assert(two_pow(0) * le_nat(high) == le_nat(high)) by (nonlinear_arith)
            requires
                two_pow(0) == 1,
        ;
    } else {
        let rest = low.drop_first();
        lemma_le_nat_concat(rest, high);
        assert((low + high).drop_first() =~= rest + high);
        assert((low + high)[0] == low[0]);
        let p = two_pow(8 * rest.len());
        assert(two_pow(8 * low.len()) == 256 * p) by {
            reveal_with_fuel(two_pow, 9);
        }
        assert(256 * (p * le_nat(high)) == (256 * p) * le_nat(high)) by (nonlinear_arith);
    }
}

/// A bit is zero or one.
pub proof fn lemma_bit_is_binary(value: nat, i: nat)
    ensures
        bit_of(value, i) <= 1,
    decreases i,
{
    if i > 0 {
        lemma_bit_is_binary(value / 2, (i - 1) as nat);
    }
}

/// Every element of a bit decomposition is zero or one.
pub proof fn lemma_low_bits_are_binary(value: nat, width: nat)
    ensures
        low_bits(value, width).len() == width,
        forall|i: int| 0 <= i < width ==> #[trigger] low_bits(value, width)[i] <= 1,
{
    assert forall|i: int| 0 <= i < width implies #[trigger] low_bits(value, width)[i] <= 1 by {
        lemma_bit_is_binary(value, i as nat);
    }
}

/// The number that a sequence of bits spells, least significant bit first.
pub open spec fn bits_nat(bits: Seq<u8>) -> nat
    decreases bits.len(),
{
    if bits.len() == 0 {
        0
    } else {
        bits[0] as nat + 2 * bits_nat(bits.drop_first())
    }
}

/// The lowest `width` bits of a number spell its remainder modulo two to
/// the power `width`: a number below that power is spelt in full.
pub proof fn lemma_low_bits_spell_remainder(value: nat, width: nat)
    ensures
        bits_nat(low_bits(value, width)) == value % two_pow(width),
    decreases width,
{
    let bits = low_bits(value, width);
    if width == 0 {
        assert(value % 1 == 0);
    } else {
        let rest = low_bits(value / 2, (width - 1) as nat);
        assert(bits.drop_first() =~= rest);
        lemma_bit_is_binary(value, 0);
        assert(bits[0] == value % 2);
        lemma_low_bits_spell_remainder(value / 2, (width - 1) as nat);
        let p = two_pow((width - 1) as nat);
        lemma_two_pow_positive((width - 1) as nat);
        assert(value % (2 * p) == value % 2 + 2 * ((value / 2) % p)) by (nonlinear_arith)
            requires
                p > 0,
        ;
    }
}

/// A power of two is not zero.
pub proof fn lemma_two_pow_positive(m: nat)
    ensures
        two_pow(m) > 0,
    decreases m,
{
    if m > 0 {
        lemma_two_pow_positive((m - 1) as nat);
    }
}

/// Zero has no bit set.
pub proof fn lemma_bit_of_zero(i: nat)
    ensures
        bit_of(0, i) == 0,
    decreases i,
{
    if i > 0 {
        assert(0nat / 2 == 0);
        lemma_bit_of_zero((i - 1) as nat);
    }
}

/// In `low + 2^m * high` with `low < 2^m`, the bits below `m` are those of
/// `low` and the bits from `m` on are those of `high`.
pub proof fn lemma_bit_split(low: nat, m: nat, high: nat, i: nat)
    requires
        low < two_pow(m),
    ensures
        bit_of(low + two_pow(m) * high, i) == if i < m {
            bit_of(low, i)
        } else {
            bit_of(high, (i - m) as nat)
        },
    decreases m,
{
    let whole = low + two_pow(m) * high;
    if m == 0 {
        assert(two_pow(m) * high == high) by (nonlinear_arith)
            requires
                two_pow(m) == 1,
        ;
    } else {
        let half = two_pow((m - 1) as nat);
        assert(two_pow(m) == 2 * half);
        assert(two_pow(m) * high == 2 * (half * high)) by (nonlinear_arith)
            requires
                two_pow(m) == 2 * half,
        ;
        assert(whole / 2 == low / 2 + half * high);
        assert(whole % 2 == low % 2);
        if i > 0 {
            lemma_bit_split(low / 2, (m - 1) as nat, high, (i - 1) as nat);
        }
    }
}

/// Bit `i` of a little-endian number is bit `i % 8` of byte `i / 8`, and
/// zero beyond the last byte.
pub proof fn lemma_bit_of_le_nat(bytes: Seq<u8>, i: nat)
    ensures
        bit_of(le_nat(bytes), i) == if i / 8 < bytes.len() {
            bit_of(bytes[(i / 8) as int] as nat, i % 8)
        } else {
            0
        },
    decreases bytes.len(),
{
    if bytes.len() == 0 {
        lemma_bit_of_zero(i);
    } else {
        let rest = bytes.drop_first();
        assert(two_pow(8) == 256) by {
            reveal_with_fuel(two_pow, 9);
        }
        lemma_bit_split(bytes[0] as nat, 8, le_nat(rest), i);
        if i >= 8 {
            lemma_bit_of_le_nat(rest, (i - 8) as nat);
            if i / 8 < bytes.len() {
                assert(rest[((i - 8) / 8) as int] == bytes[(i / 8) as int]);
            }
        }
    }
}

/// The bits of a byte by shifting and masking are its arithmetic bits.
pub proof fn lemma_byte_bits(val: u8)
    ensures
        (val >> 0u8) & 1u8 == bit_of(val as nat, 0),
        (val >> 1u8) & 1u8 == bit_of(val as nat, 1),
        (val >> 2u8) & 1u8 == bit_of(val as nat, 2),
        (val >> 3u8) & 1u8 == bit_of(val as nat, 3),
        (val >> 4u8) & 1u8 == bit_of(val as nat, 4),
        (val >> 5u8) & 1u8 == bit_of(val as nat, 5),
        (val >> 6u8) & 1u8 == bit_of(val as nat, 6),
        (val >> 7u8) & 1u8 == bit_of(val as nat, 7),
{
    reveal_with_fuel(bit_of, 9);
    assert((val >> 0u8) & 1u8 == val % 2) by (bit_vector);
    assert((val >> 1u8) & 1u8 == (val / 2) % 2) by (bit_vector);
    assert((val >> 2u8) & 1u8 == (val / 4) % 2) by (bit_vector);
    assert((val >> 3u8) & 1u8 == (val / 8) % 2) by (bit_vector);
    assert((val >> 4u8) & 1u8 == (val / 16) % 2) by (bit_vector);
    assert((val >> 5u8) & 1u8 == (val / 32) % 2) by (bit_vector);
    assert((val >> 6u8) & 1u8 == (val / 64) % 2) by (bit_vector);
    assert((val >> 7u8) & 1u8 == (val / 128) % 2) by (bit_vector);
    let v = val as nat;
    assert(v / 2 / 2 == v / 4);
    assert(v / 4 / 2 == v / 8);
    assert(v / 8 / 2 == v / 16);
    assert(v / 16 / 2 == v / 32);
    assert(v / 32 / 2 == v / 64);
    assert(v / 64 / 2 == v / 128);
}

/// The eight bits of a byte, least significant first.
pub fn u8_to_bits(val: &u8) -> (r: [u8; 8])
    ensures
        r@ == low_bits(*val as nat, 8),
{
    let r = [
        (*val >> 0) & 1u8,
        (*val >> 1) & 1u8,
        (*val >> 2) & 1u8,
        (*val >> 3) & 1u8,
        (*val >> 4) & 1u8,
        (*val >> 5) & 1u8,
        (*val >> 6) & 1u8,
        (*val >> 7) & 1u8,
    ];
    proof {
        lemma_byte_bits(*val);
        assert(r@ =~= low_bits(*val as nat, 8));
    }
    r
}

/// The lowest `width` bits of the number that `bytes` spells, least
/// significant bit first; bits beyond the last byte are zero.
pub fn le_bytes_to_bits(bytes: &Vec<u8>, width: usize) -> (r: Vec<u8>)
    ensures
        r@ == low_bits(le_nat(bytes@), width as nat),
{
    let mut out: Vec<u8> = Vec::new();
    let mut k: usize = 0;
    while k < bytes.len() && out.len() < width
        invariant
            k <= bytes.len(),
            out.len() <= width,
            out.len() == 8 * k || out.len() == width,
            out@ == low_bits(le_nat(bytes@), out.len() as nat),
        decreases bytes.len() - k,
    {
        let eight = u8_to_bits(&bytes[k]);
        let mut j: usize = 0;
        while j < 8 && out.len() < width
            invariant
                k < bytes.len(),
                j <= 8,
                out.len() <= width,
                out.len() == 8 * k + j || (out.len() == width && out.len() < 8 * k + j),
                eight@ == low_bits(bytes@[k as int] as nat, 8),
                out@ == low_bits(le_nat(bytes@), out.len() as nat),
            decreases 8 - j,
        {
            proof {
                lemma_bit_of_le_nat(bytes@, out.len() as nat);
            }
            out.push(eight[j]);
            proof {
                assert(out@ =~= low_bits(le_nat(bytes@), out.len() as nat));
            }
            j += 1;
        }
        k += 1;
    }
    while out.len() < width
        invariant
            out.len() <= width,
            out.len() >= 8 * bytes.len() || out.len() == width,
            out@ == low_bits(le_nat(bytes@), out.len() as nat),
        decreases width - out.len(),
    {
        proof {
            lemma_bit_of_le_nat(bytes@, out.len() as nat);
        }
        out.push(0u8);
        proof {
            assert(out@ =~= low_bits(le_nat(bytes@), out.len() as nat));
        }
    }
    out
}

} // verus!
