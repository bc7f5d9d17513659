//! Matrices over a generic element type, dense polynomials and reduced
//! fractions, each with contracts that Verus proves.
//!
//! * [`matrix`]: a matrix stored row by row, its trace, symmetry,
//!   determinant and characteristic polynomial, and its rendering as text.
//! * [`polynomials`]: polynomials as vectors of coefficients, with `+`, `-`,
//!   `*`, `==` and a rendering as text.
//! * [`rational`]: fractions of 32-bit integers that `+` and `*` reduce.
//! * [`gcd`]: the greatest common divisor that the fractions are reduced by.
//! * [`arith`] and [`ring`]: how the contracts speak of arithmetic in an
//!   element type that they know nothing of, and the laws under which more
//!   can be said.
//! * [`text`]: decimal numbers and centered fields.
//!
//! Matrices and polynomials work over any element type with the operators
//! they need, floating-point numbers among them. Of such a type nothing is
//! known but its operators, so a contract says which operators were applied
//! to which operands: the result *evaluates* a formula. Where the operators
//! are exact, as those of the integers are within their range, the formula
//! has one value and the result is that value.

use vstd::prelude::*;
use vstd::arithmetic::div_mod::{lemma_fundamental_div_mod, lemma_mod_multiples_vanish};

pub mod arith;
pub mod matrix;
pub mod polynomials;
pub mod rational;
pub mod ring;
pub mod text;

verus! {

/// `d` is a positive divisor of `n`.
pub open spec fn divides(d: nat, n: nat) -> bool {
    d != 0 && n % d == 0
}

/// `d` divides both `a` and `b`.
pub open spec fn common_divisor(d: nat, a: nat, b: nat) -> bool {
    divides(d, a) && divides(d, b)
}

/// `g` is the greatest of the common divisors of `a` and `b`.
pub open spec fn is_gcd(g: nat, a: nat, b: nat) -> bool {
    &&& common_divisor(g, a, b)
    &&& forall|d: nat| #[trigger] common_divisor(d, a, b) ==> d <= g
}

/// A greatest common divisor is unique.
pub proof fn lemma_gcd_unique(g: nat, h: nat, a: nat, b: nat)
    requires
        is_gcd(g, a, b),
        is_gcd(h, a, b),
    ensures
        g == h,
{
    assert(common_divisor(g, a, b));
    assert(common_divisor(h, a, b));
}

/// A divisor of `n` divides `m` exactly when it divides `m % n`.
proof fn lemma_divides_remainder(d: nat, n: nat, m: nat)
    requires
        n != 0,
        divides(d, n),
    ensures
        divides(d, m) <==> divides(d, m % n),
{
    let q = (m / n) as int;
    let k = (n / d) as int;
    lemma_fundamental_div_mod(m as int, n as int);
    lemma_fundamental_div_mod(n as int, d as int);
    assert(n as int == d * k);
    assert(n * q == d * (k * q)) by (nonlinear_arith)
        requires
            n as int == d * k,
    ;
    lemma_mod_multiples_vanish(k * q, (m % n) as int, d as int);
}

/// A divisor of `a` divides `b` exactly when it divides `b - a`.
proof fn lemma_divides_difference(d: nat, a: nat, b: nat)
    requires
        a <= b,
        divides(d, a),
    ensures
        divides(d, b) <==> divides(d, (b - a) as nat),
{
    let k = (a / d) as int;
    lemma_fundamental_div_mod(a as int, d as int);
    lemma_mod_multiples_vanish(k, b - a, d as int);
    assert(d * k + (b - a) == b);
}

/// Two positive numbers have a greatest common divisor.
pub proof fn lemma_gcd_exists(a: nat, b: nat)
    requires
        a != 0,
        b != 0,
    ensures
        exists|g: nat| is_gcd(g, a, b),
    decreases a + b,
{
    if a == b {
        assert(common_divisor(a, a, a)) by {
            vstd::arithmetic::div_mod::lemma_mod_self_0(a as int);
        }
        assert forall|d: nat| #[trigger] common_divisor(d, a, a) implies d <= a by {
            vstd::arithmetic::div_mod::lemma_mod_is_zero(a, d);
        }
        assert(is_gcd(a, a, b));
    } else if a < b {
        let c = (b - a) as nat;
        lemma_gcd_exists(a, c);
        let g = choose|g: nat| is_gcd(g, a, c);
        lemma_divides_difference(g, a, b);
        assert(common_divisor(g, a, b));
        assert forall|d: nat| #[trigger] common_divisor(d, a, b) implies d <= g by {
            lemma_divides_difference(d, a, b);
            assert(common_divisor(d, a, c));
        }
        assert(is_gcd(g, a, b));
    } else {
        let c = (a - b) as nat;
        lemma_gcd_exists(c, b);
        let g = choose|g: nat| is_gcd(g, c, b);
        lemma_divides_difference(g, b, a);
        assert(common_divisor(g, a, b));
        assert forall|d: nat| #[trigger] common_divisor(d, a, b) implies d <= g by {
            lemma_divides_difference(d, b, a);
            assert(common_divisor(d, c, b));
        }
        assert(is_gcd(g, a, b));
    }
}

/// Greatest common divisor of two nonzero numbers, by Euclid's algorithm.
pub fn gcd(n: u32, m: u32) -> (g: u32)
    requires
        n != 0,
        m != 0,
    ensures
        is_gcd(g as nat, n as nat, m as nat),
{
    let mut a: u32 = n;
    let mut b: u32 = m;
    while b != 0
        invariant
            a != 0,
            forall|d: nat| #[trigger]
                common_divisor(d, a as nat, b as nat) <==> common_divisor(d, n as nat, m as nat),
        decreases a + b,
    {
        let ghost a0 = a as nat;
        let ghost b0 = b as nat;
        if b < a {
            let t: u32 = b;
            b = a;
            a = t;
        }
        proof {
            assert forall|d: nat| #[trigger]
                common_divisor(d, a as nat, (b % a) as nat) <==> common_divisor(
                    d,
                    n as nat,
                    m as nat,
                ) by {
                if divides(d, a as nat) {
                    lemma_divides_remainder(d, a as nat, b as nat);
                }
                assert(common_divisor(d, a0, b0) <==> common_divisor(d, n as nat, m as nat));
            }
        }
        b = b % a;
    }
    proof {
        assert(common_divisor(a as nat, a as nat, 0)) by {
            vstd::arithmetic::div_mod::lemma_mod_self_0(a as int);
        }
        assert(common_divisor(a as nat, a as nat, b as nat));
        assert forall|d: nat| #[trigger] common_divisor(d, n as nat, m as nat) implies d <= a by {
            assert(common_divisor(d, a as nat, b as nat));
            vstd::arithmetic::div_mod::lemma_mod_is_zero(a as nat, d);
        }
    }
    a
}

} // verus!
