//! Fractions of 32-bit integers, reduced after each operation.

use vstd::prelude::*;
use core::ops::{Add, Mul};
use vstd::arithmetic::div_mod::{
    lemma_div_pos_is_pos, lemma_fundamental_div_mod, lemma_fundamental_div_mod_converse,
    lemma_mod_multiples_basic,
};
use vstd::std_specs::ops::{AddSpecImpl, MulSpecImpl};
use crate::{common_divisor, divides, gcd, is_gcd, lemma_gcd_exists, lemma_gcd_unique};

verus! {

/// A fraction `num / den`. A fraction made by hand is taken as it is; the
/// results of `+` and `*` are in lowest terms.
pub struct Rat {
    pub num: i32,
    pub den: i32,
}

/// The absolute value of `x`.
pub open spec fn magnitude(x: int) -> nat {
    if x < 0 {
        (-x) as nat
    } else {
        x as nat
    }
}

/// The greatest common divisor of two positive numbers.
pub open spec fn gcd_of(a: nat, b: nat) -> nat {
    choose|g: nat| is_gcd(g, a, b)
}

/// `x` is a value of `i32`.
pub open spec fn fits(x: int) -> bool {
    i32::MIN <= x <= i32::MAX
}

/// The fraction `n / d` with both parts divided by the greatest common
/// divisor of their absolute values.
pub open spec fn reduced(n: int, d: int) -> Rat {
    let g = gcd_of(magnitude(n), magnitude(d)) as int;
    Rat { num: (n / g) as i32, den: (d / g) as i32 }
}

impl Rat {
    /// Numerator and denominator have no common divisor but 1.
    pub open spec fn in_lowest_terms(self) -> bool {
        is_gcd(1, magnitude(self.num as int), magnitude(self.den as int))
    }

    /// The numerator of `self + rhs` before it is reduced.
    pub open spec fn sum_numerator(self, rhs: Rat) -> int {
        self.num * rhs.den + self.den * rhs.num
    }

    /// The numerator of `self * rhs` before it is reduced.
    pub open spec fn product_numerator(self, rhs: Rat) -> int {
        self.num * rhs.num
    }

    /// The denominator of `self + rhs` and of `self * rhs` before it is
    /// reduced.
    pub open spec fn common_denominator(self, rhs: Rat) -> int {
        self.den * rhs.den
    }
}

/// Two positive numbers have a greatest common divisor, and `gcd_of` is it.
pub proof fn lemma_gcd_of(a: nat, b: nat, g: nat)
    requires
        is_gcd(g, a, b),
    ensures
        gcd_of(a, b) == g,
{
    lemma_gcd_unique(gcd_of(a, b), g, a, b);
}

/// Dividing a number by a positive divisor of its absolute value leaves no
/// remainder, and divides the absolute value.
proof fn lemma_exact_quotient(x: int, g: nat)
    requires
        divides(g, magnitude(x)),
    ensures
        (x / (g as int)) * g == x,
        magnitude(x / (g as int)) == magnitude(x) / g,
        magnitude(x / (g as int)) * g == magnitude(x),
{
    let m = magnitude(x) as int;
    let k = m / (g as int);
    lemma_fundamental_div_mod(m, g as int);
    lemma_div_pos_is_pos(m, g as int);
    assert(m == g * k);
    if x < 0 {
        assert(x == g * (-k) + 0) by (nonlinear_arith)
            requires
                -x == g * k,
        ;
        lemma_fundamental_div_mod_converse(x, g as int, -k, 0);
    }
    assert((x / (g as int)) * g == x) by (nonlinear_arith)
        requires
            x / (g as int) == if x < 0 {
                -k
            } else {
                k
            },
            m == g * k,
            m == if x < 0 {
                -x
            } else {
                x
            },
    ;
    assert(k * g == m) by (nonlinear_arith)
        requires
            m == g * k,
    ;
}

/// A fraction of nonzero parts, divided through by the greatest common
/// divisor of the parts, is in lowest terms.
pub proof fn lemma_reduced_lowest_terms(n: int, d: int)
    requires
        n != 0,
        d != 0,
        fits(n),
        fits(d),
    ensures
        reduced(n, d).in_lowest_terms(),
        reduced(n, d).num * gcd_of(magnitude(n), magnitude(d)) == n,
        reduced(n, d).den * gcd_of(magnitude(n), magnitude(d)) == d,
        reduced(n, d).den != 0,
{
    let a = magnitude(n);
    let b = magnitude(d);
    let g = gcd_of(a, b);
    lemma_gcd_exists(a, b);
    assert(is_gcd(g, a, b));
    assert(common_divisor(g, a, b));
    lemma_exact_quotient(n, g);
    lemma_exact_quotient(d, g);
    let qn = n / (g as int);
    let qd = d / (g as int);
    assert(fits(qn) && fits(qd)) by (nonlinear_arith)
        requires
            qn * g == n,
            qd * g == d,
            g >= 1,
            fits(n),
            fits(d),
    ;
    let a1 = magnitude(qn);
    let b1 = magnitude(qd);
    assert(a1 != 0 && b1 != 0) by (nonlinear_arith)
        requires
            a1 * g == a,
            b1 * g == b,
            a != 0,
            b != 0,
    ;
    assert(common_divisor(1, a1, b1));
    assert forall|e: nat| #[trigger] common_divisor(e, a1, b1) implies e <= 1 by {
        let ka = (a1 / e) as int;
        let kb = (b1 / e) as int;
        lemma_fundamental_div_mod(a1 as int, e as int);
        lemma_fundamental_div_mod(b1 as int, e as int);
        assert(a == ka * (e * g)) by (nonlinear_arith)
            requires
                a1 * g == a,
                a1 == e * ka,
        ;
        assert(b == kb * (e * g)) by (nonlinear_arith)
            requires
                b1 * g == b,
                b1 == e * kb,
        ;
        assert(e * g > 0) by (nonlinear_arith)
            requires
                e > 0,
                g > 0,
        ;
        lemma_mod_multiples_basic(ka, (e * g) as int);
        lemma_mod_multiples_basic(kb, (e * g) as int);
        assert(common_divisor(e * g, a, b));
        assert(e <= 1) by (nonlinear_arith)
            requires
                e * g <= g,
                g > 0,
        ;
    }
}

/// The absolute value of `x`.
fn magnitude_of(x: i32) -> (m: u32)
    ensures
        m == magnitude(x as int),
{
    if x < 0 {
        (-(x as i64)) as u32
    } else {
        x as u32
    }
}

/// The fraction `num / den` in lowest terms.
fn lowest_terms(num: i32, den: i32) -> (r: Rat)
    requires
        num != 0,
        den != 0,
    ensures
        r == reduced(num as int, den as int),
        r.in_lowest_terms(),
{
    let g = gcd(magnitude_of(num), magnitude_of(den));
    proof {
        let a = magnitude(num as int);
        let b = magnitude(den as int);
        lemma_gcd_of(a, b, g as nat);
        assert(common_divisor(g as nat, a, b));
        lemma_exact_quotient(num as int, g as nat);
        lemma_exact_quotient(den as int, g as nat);
        lemma_reduced_lowest_terms(num as int, den as int);
        lemma_fundamental_div_mod(a as int, g as int);
        lemma_fundamental_div_mod(b as int, g as int);
        let qn = (num as int) / (g as int);
        let qd = (den as int) / (g as int);
        assert(fits(qn) && fits(qd)) by (nonlinear_arith)
            requires
                qn * g == num,
                qd * g == den,
                g >= 1,
                fits(num as int),
                fits(den as int),
        ;
        if num < 0 {
            assert(-((-(num as int)) / (g as int)) == qn);
        }
        if den < 0 {
            assert(-((-(den as int)) / (g as int)) == qd);
        }
    }
    Rat { num: ((num as i64) / (g as i64)) as i32, den: ((den as i64) / (g as i64)) as i32 }
}

impl AddSpecImpl for Rat {
    open spec fn obeys_add_spec() -> bool {
        true
    }

    /// The cross products, their sum and the product of the denominators are
    /// values of `i32`, and neither the sum nor the new denominator is zero.
    open spec fn add_req(self, rhs: Rat) -> bool {
        &&& fits(self.num * rhs.den)
        &&& fits(self.den * rhs.num)
        &&& fits(self.sum_numerator(rhs))
        &&& fits(self.common_denominator(rhs))
        &&& self.sum_numerator(rhs) != 0
        &&& self.common_denominator(rhs) != 0
    }

    open spec fn add_spec(self, rhs: Rat) -> Rat {
        reduced(self.sum_numerator(rhs), self.common_denominator(rhs))
    }
}

impl Add for Rat {
    type Output = Rat;

    /// The sum, cross-multiplied and reduced to lowest terms.
    fn add(self, rhs: Rat) -> (r: Rat)
        ensures
            r.in_lowest_terms(),
    {
        let num = self.num * rhs.den + self.den * rhs.num;
        let den = self.den * rhs.den;
        lowest_terms(num, den)
    }
}

impl MulSpecImpl for Rat {
    open spec fn obeys_mul_spec() -> bool {
        true
    }

    /// The product of the numerators and that of the denominators are values
    /// of `i32`, and neither is zero.
    open spec fn mul_req(self, rhs: Rat) -> bool {
        &&& fits(self.product_numerator(rhs))
        &&& fits(self.common_denominator(rhs))
        &&& self.product_numerator(rhs) != 0
        &&& self.common_denominator(rhs) != 0
    }

    open spec fn mul_spec(self, rhs: Rat) -> Rat {
        reduced(self.product_numerator(rhs), self.common_denominator(rhs))
    }
}

impl Mul for Rat {
    type Output = Rat;

    /// The product, reduced to lowest terms.
    fn mul(self, rhs: Rat) -> (r: Rat)
        ensures
            r.in_lowest_terms(),
    {
        let num = self.num * rhs.num;
        let den = self.den * rhs.den;
        lowest_terms(num, den)
    }
}

} // verus!
