//! Which exponents can be inverted. An exponent has an inverse modulo the
//! group order exactly when the two share no divisor; for an odd exponent
//! that is no multiple of the subgroup order this comes down to the
//! subgroup order being prime.

use crate::exponent::adjusted_exponent;
use crate::exponent::exponent_of_draw;
use crate::exponent::group_order;
use crate::exponent::lemma_adjusted_is_blinding;
use crate::exponent::is_blinding_exponent;
use crate::exponent::subgroup_order;
use crate::scalar::has_inverse;
use crate::scalar::is_inverse;
use crate::scalar::lemma_multiple_product;
use vstd::arithmetic::div_mod::lemma_fundamental_div_mod;
use vstd::arithmetic::div_mod::lemma_mod_multiples_basic;
use vstd::arithmetic::div_mod::lemma_mod_multiples_vanish;
use vstd::arithmetic::div_mod::lemma_mul_mod_noop_general;
use vstd::arithmetic::div_mod::lemma_mul_mod_noop_right;
use vstd::prelude::*;

verus! {

/// Whether `d` divides `n`.
pub open spec fn divides(d: nat, n: nat) -> bool {
    d > 0 && n % d == 0
}

/// Whether `p` is prime: above one, and divided by one and itself alone.
pub open spec fn is_prime(p: nat) -> bool {
    p > 1 && forall|d: nat| #[trigger] divides(d, p) ==> d == 1 || d == p
}

/// A number that `d` divides is `d` times the quotient.
pub proof fn lemma_divides_product(d: nat, n: nat)
    requires
        divides(d, n),
    ensures
        n == d * (n / d),
{
    lemma_fundamental_div_mod(n as int, d as int);
}

/// Whatever divides two numbers divides any sum of multiples of them that
/// is not negative.
pub proof fn lemma_divides_combination(d: nat, a: nat, b: nat, x: int, y: int)
    requires
        divides(d, a),
        divides(d, b),
        a * x + b * y >= 0,
    ensures
        divides(d, (a * x + b * y) as nat),
{
    lemma_divides_product(d, a);
    lemma_divides_product(d, b);
    let qa = (a / d) as int;
    let qb = (b / d) as int;
    assert(a * x + b * y == (qa * x + qb * y) * d) by (nonlinear_arith)
        requires
            a == d * qa,
            b == d * qb,
    ;
    lemma_mod_multiples_basic(qa * x + qb * y, d as int);
}

/// Two numbers that are not both zero have a common divisor which is a sum
/// of multiples of them.
pub proof fn lemma_bezout(a: nat, b: nat) -> (r: (nat, int, int))
    requires
        a > 0 || b > 0,
    ensures
        divides(r.0, a),
        divides(r.0, b),
        a * r.1 + b * r.2 == r.0,
    decreases b,
{
    if b == 0 {
        assert(a * 1 + b * 0 == a) by (nonlinear_arith);
        (a, 1, 0)
    } else {
        let q = a / b;
        let rest = a % b;
        lemma_fundamental_div_mod(a as int, b as int);
        let (g, x, y) = lemma_bezout(b, rest);
        assert(a * y + b * (x - q * y) == b * x + rest * y) by (nonlinear_arith)
            requires
                a == b * q + rest,
        ;
        assert(a == b * (q as int) + rest * 1);
        lemma_divides_combination(g, b, rest, q as int, 1);
        (g, y, x - q * y)
    }
}

/// A number of which some multiple is one more than a multiple of the
/// modulus has an inverse.
pub proof fn lemma_unit_from_combination(a: nat, m: nat, x: int, y: int)
    requires
        m > 1,
        a * x + m * y == 1,
    ensures
        has_inverse(a, m),
{
    let x0 = (x % (m as int)) as nat;
    lemma_mul_mod_noop_right(a as int, x, m as int);
    assert(a * x == m * (-y) + 1) by (nonlinear_arith)
        requires
            a * x + m * y == 1,
    ;
    lemma_mod_multiples_vanish(-y, 1, m as int);
    vstd::arithmetic::div_mod::lemma_small_mod(1, m);
    assert((a * x0) % m == 1);
    assert(is_inverse(a, x0, m));
}

/// The product of two odd numbers is odd.
pub proof fn lemma_odd_product(a: nat, b: nat)
    requires
        a % 2 == 1,
        b % 2 == 1,
    ensures
        (a * b) % 2 == 1,
{
    lemma_mul_mod_noop_general(a as int, b as int, 2);
    assert(1int * 1int == 1);
}

/// An odd number that divides the double of a number divides the number.
pub proof fn lemma_odd_divides_half(g: nat, n: nat)
    requires
        g % 2 == 1,
        divides(g, 2 * n),
    ensures
        divides(g, n),
{
    lemma_divides_product(g, 2 * n);
    let k = (2 * n) / g;
    if k % 2 == 1 {
        lemma_odd_product(g, k);
    }
    let half = k / 2;
    assert(n == half * g) by (nonlinear_arith)
        requires
            2 * n == g * k,
            k == 2 * half,
    ;
    lemma_mod_multiples_basic(half as int, g as int);
}

/// If the subgroup order is prime, every blinding exponent has an inverse
/// modulo the group order. That the subgroup order is prime is taken as
/// given here: it is not proved.
pub proof fn lemma_blinding_exponent_is_unit(e: nat)
    requires
        is_blinding_exponent(e),
        is_prime(subgroup_order()),
    ensures
        has_inverse(e, group_order()),
{
    let n = group_order();
    let l = subgroup_order();
    let (g, x, y) = lemma_bezout(e, n);
    if g % 2 == 0 {
        lemma_divides_product(g, e);
        lemma_multiple_product(g, e / g, 2);
    }
    assert(n == 2 * (4 * l));
    lemma_odd_divides_half(g, 4 * l);
    assert(4 * l == 2 * (2 * l));
    lemma_odd_divides_half(g, 2 * l);
    lemma_odd_divides_half(g, l);
    assert(g == 1 || g == l);
    lemma_unit_from_combination(e, n, x, y);
}

/// If the subgroup order is prime, no draw below the group order is ever
/// replaced: the exponent that the draw gives is the exponent made from it.
pub proof fn lemma_draw_is_kept(raw: nat)
    requires
        raw < group_order(),
        is_prime(subgroup_order()),
    ensures
        exponent_of_draw(raw) == adjusted_exponent(raw),
{
    lemma_adjusted_is_blinding(raw);
    lemma_blinding_exponent_is_unit(adjusted_exponent(raw));
}

/// If the subgroup order is prime, the units modulo the group order are
/// exactly the odd numbers that are no multiple of the subgroup order.
pub proof fn lemma_units_of_group_order(e: nat)
    requires
        e < group_order(),
        is_prime(subgroup_order()),
    ensures
        has_inverse(e, group_order()) <==> is_blinding_exponent(e),
{
    if has_inverse(e, group_order()) {
        crate::exponent::lemma_unit_is_odd_and_off_subgroup(e);
    }
    if is_blinding_exponent(e) {
        lemma_blinding_exponent_is_unit(e);
    }
}

} // verus!
