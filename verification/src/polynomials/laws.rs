//! What holds of polynomial arithmetic where the arithmetic of the
//! coefficients is exact and obeys the laws of a ring.

use vstd::prelude::*;
use vstd::std_specs::ops::{AddSpec, MulSpec};
use crate::arith::{evaluates, exact, lemma_exact_value, prod, value, zero, Formula, Scalar};
use crate::polynomials::operators::{
    added_at, convolved_upto, highest_index, is_product, is_sum, lowest_index, multiplied_at,
};
use crate::ring::{
    addition_associates, addition_commutes, lemma_add_associates, lemma_add_commutes,
    lemma_add_zero, lemma_mul_associates, lemma_mul_zero, lemma_sigma_of_zeros, lemma_sigma_same,
    lemma_sigma_scaled_left, lemma_sigma_scaled_right, lemma_sigma_shifted, lemma_sigma_trimmed,
    lemma_triangle, column_sum, no_zero_divisors, row_sum, semiring, sigma, zero_is_neutral,
};

verus! {

/// Addition of polynomials is commutative: `a + b` and `b + a` are the same
/// polynomial, where addition of coefficients is exact and commutative.
pub proof fn lemma_addition_commutative<T: Scalar>(a: Seq<T>, b: Seq<T>, ab: Seq<T>, ba: Seq<T>)
    requires
        exact::<T>(),
        addition_commutes::<T>(),
        is_sum(a, b, ab),
        is_sum(b, a, ba),
    ensures
        ab == ba,
{
    assert forall|i: int| 0 <= i < ab.len() implies ab[i] == ba[i] by {
        lemma_exact_value(added_at(a, b, i), ab[i]);
        lemma_exact_value(added_at(b, a, i), ba[i]);
        reveal_with_fuel(value, 3);
        if i < a.len() && i < b.len() {
            lemma_add_commutes(a[i], b[i]);
        }
    }
    assert(ab =~= ba);
}

/// Addition of polynomials is associative: `(a + b) + c` and `a + (b + c)`
/// are the same polynomial, where addition of coefficients is exact and
/// associative.
pub proof fn lemma_addition_associative<T: Scalar>(
    a: Seq<T>,
    b: Seq<T>,
    c: Seq<T>,
    ab: Seq<T>,
    bc: Seq<T>,
    left: Seq<T>,
    right: Seq<T>,
)
    requires
        exact::<T>(),
        addition_associates::<T>(),
        is_sum(a, b, ab),
        is_sum(ab, c, left),
        is_sum(b, c, bc),
        is_sum(a, bc, right),
    ensures
        left == right,
{
    assert forall|i: int| 0 <= i < left.len() implies left[i] == right[i] by {
        reveal_with_fuel(value, 3);
        lemma_exact_value(added_at(ab, c, i), left[i]);
        lemma_exact_value(added_at(a, bc, i), right[i]);
        if i < ab.len() {
            lemma_exact_value(added_at(a, b, i), ab[i]);
        }
        if i < bc.len() {
            lemma_exact_value(added_at(b, c, i), bc[i]);
        }
        if i < a.len() && i < b.len() && i < c.len() {
            lemma_add_associates(a[i], b[i], c[i]);
        }
    }
    assert(left =~= right);
}

/// Adding the zero polynomial of the same length leaves a polynomial as it
/// is, where addition of coefficients is exact and the default value is
/// neutral for it.
pub proof fn lemma_addition_of_zero<T: Scalar>(p: Seq<T>, z: Seq<T>, r: Seq<T>)
    requires
        exact::<T>(),
        zero_is_neutral::<T>(),
        addition_commutes::<T>(),
        z.len() == p.len(),
        forall|i: int| 0 <= i < z.len() ==> z[i] == zero::<T>(),
        is_sum(p, z, r),
    ensures
        r == p,
{
    assert forall|i: int| 0 <= i < r.len() implies r[i] == p[i] by {
        reveal_with_fuel(value, 3);
        lemma_exact_value(added_at(p, z, i), r[i]);
        lemma_add_zero(p[i]);
    }
    assert(r =~= p);
}

/// The degree of a product is the sum of the degrees of the factors, counted
/// by stored coefficients, and its leading coefficient is the product of the
/// leading coefficients.
pub proof fn lemma_product_degree<T: Scalar>(a: Seq<T>, b: Seq<T>, r: Seq<T>)
    requires
        a.len() >= 1,
        b.len() >= 1,
        is_product(a, b, r),
    ensures
        r.len() - 1 == (a.len() - 1) + (b.len() - 1),
        evaluates(prod(Formula::Val(a.last()), Formula::Val(b.last())), r.last()),
{
    let k = r.len() - 1;
    assert(highest_index(k, a.len() as int) == a.len() - 1);
    assert(lowest_index(k, b.len() as int) == a.len() - 1);
    assert(multiplied_at(a, b, k) == prod(Formula::Val(a.last()), Formula::Val(b.last())));
}

/// Where neither leading coefficient is zero, the leading coefficient of the
/// product is not zero either: the product has the degree that its length
/// shows. This holds where multiplication of coefficients is exact and a
/// product of nonzero coefficients is nonzero.
pub proof fn lemma_product_leading_coefficient<T: Scalar>(a: Seq<T>, b: Seq<T>, r: Seq<T>)
    requires
        exact::<T>(),
        no_zero_divisors::<T>(),
        a.len() >= 1,
        b.len() >= 1,
        a.last() != zero::<T>(),
        b.last() != zero::<T>(),
        is_product(a, b, r),
    ensures
        r.len() - 1 == (a.len() - 1) + (b.len() - 1),
        r.last() == a.last().mul_spec(b.last()),
        r.last() != zero::<T>(),
{
    lemma_product_degree(a, b, r);
    lemma_exact_value(prod(Formula::Val(a.last()), Formula::Val(b.last())), r.last());
    assert(value(prod(Formula::Val(a.last()), Formula::Val(b.last()))) == a.last().mul_spec(
        b.last(),
    )) by {
        reveal_with_fuel(value, 3);
    }
    reveal(no_zero_divisors);
}

/// Coefficient `i` of a polynomial, zero beyond its ends.
pub open spec fn coefficient<T: Scalar>(a: Seq<T>, i: int) -> T {
    if 0 <= i < a.len() {
        a[i]
    } else {
        zero::<T>()
    }
}

/// The sum of all `a[i] * b[k - i]` for `i` from 0 to `k`, with zero for each
/// coefficient that a polynomial lacks.
pub open spec fn convolution<T: Scalar>(a: Seq<T>, b: Seq<T>, k: int) -> T {
    sigma(|i: int| coefficient(a, i).mul_spec(coefficient(b, k - i)), 0, k)
}

proof fn lemma_convolved_value<T: Scalar>(a: Seq<T>, b: Seq<T>, k: int, upto: int)
    requires
        a.len() >= 1,
        b.len() >= 1,
        0 <= k < a.len() + b.len() - 1,
        lowest_index(k, b.len() as int) <= upto <= highest_index(k, a.len() as int),
    ensures
        value(convolved_upto(a, b, k, upto)) == sigma(
            |i: int| coefficient(a, i).mul_spec(coefficient(b, k - i)),
            lowest_index(k, b.len() as int),
            upto,
        ),
    decreases upto - lowest_index(k, b.len() as int),
{
    reveal_with_fuel(value, 3);
    if upto > lowest_index(k, b.len() as int) {
        lemma_convolved_value(a, b, k, upto - 1);
    }
}

/// Each coefficient of a product is the convolution of the coefficients of
/// the factors, and the convolution is zero beyond the end of the product.
pub proof fn lemma_product_is_convolution<T: Scalar>(a: Seq<T>, b: Seq<T>, r: Seq<T>, k: int)
    requires
        exact::<T>(),
        semiring::<T>(),
        a.len() >= 1,
        b.len() >= 1,
        is_product(a, b, r),
        0 <= k,
    ensures
        coefficient(r, k) == convolution(a, b, k),
{
    let f = |i: int| coefficient(a, i).mul_spec(coefficient(b, k - i));
    if k < r.len() {
        let lo = lowest_index(k, b.len() as int);
        let hi = highest_index(k, a.len() as int);
        lemma_exact_value(multiplied_at(a, b, k), r[k]);
        lemma_convolved_value(a, b, k, hi);
        assert forall|i: int| 0 <= i < lo implies #[trigger] f(i) == zero::<T>() by {
            lemma_mul_zero(coefficient(a, i));
        }
        assert forall|i: int| hi < i <= k implies #[trigger] f(i) == zero::<T>() by {
            lemma_mul_zero(coefficient(b, k - i));
        }
        lemma_sigma_trimmed(f, 0, lo, hi, k);
    } else {
        assert forall|i: int| 0 <= i <= k implies #[trigger] f(i) == zero::<T>() by {
            if i < a.len() {
                lemma_mul_zero(coefficient(a, i));
            } else {
                lemma_mul_zero(coefficient(b, k - i));
            }
        }
        lemma_sigma_of_zeros(f, 0, k);
    }
}

/// Convolution is associative.
proof fn lemma_convolution_associates<T: Scalar>(a: Seq<T>, b: Seq<T>, c: Seq<T>, k: int)
    requires
        semiring::<T>(),
        0 <= k,
    ensures
        sigma(|i: int| convolution(a, b, i).mul_spec(coefficient(c, k - i)), 0, k) == sigma(
            |j: int| coefficient(a, j).mul_spec(convolution(b, c, k - j)),
            0,
            k,
        ),
{
    let f = |i: int, j: int|
        coefficient(a, j).mul_spec(coefficient(b, i - j)).mul_spec(coefficient(c, k - i));
    let left = |i: int| convolution(a, b, i).mul_spec(coefficient(c, k - i));
    let right = |j: int| coefficient(a, j).mul_spec(convolution(b, c, k - j));
    let rows = |i: int| row_sum(f, i);
    let columns = |j: int| column_sum(f, j, k);
    assert forall|i: int| 0 <= i <= k implies #[trigger] left(i) == rows(i) by {
        let inner = |j: int| coefficient(a, j).mul_spec(coefficient(b, i - j));
        let scaled = |j: int| f(i, j);
        lemma_sigma_scaled_right(inner, coefficient(c, k - i), scaled, 0, i);
    }
    assert forall|j: int| 0 <= j <= k implies #[trigger] right(j) == columns(j) by {
        let inner = |l: int| coefficient(b, l).mul_spec(coefficient(c, k - j - l));
        let scaled = |l: int| coefficient(a, j).mul_spec(inner(l));
        let shifted = |l: int| f(l + j, j);
        let column = |i: int| f(i, j);
        lemma_sigma_scaled_left(coefficient(a, j), inner, scaled, 0, k - j);
        assert forall|l: int| 0 <= l <= k - j implies #[trigger] scaled(l) == shifted(l) by {
            lemma_mul_associates(coefficient(a, j), coefficient(b, l), coefficient(c, k - j - l));
        }
        lemma_sigma_same(scaled, shifted, 0, k - j);
        lemma_sigma_shifted(column, shifted, 0, k - j, j);
    }
    lemma_sigma_same(left, rows, 0, k);
    lemma_sigma_same(right, columns, 0, k);
    lemma_triangle(f, k);
}

/// Multiplication of polynomials is associative: `(a * b) * c` and
/// `a * (b * c)` are the same polynomial, where the arithmetic of the
/// coefficients is exact and obeys the laws of a ring.
pub proof fn lemma_multiplication_associative<T: Scalar>(
    a: Seq<T>,
    b: Seq<T>,
    c: Seq<T>,
    ab: Seq<T>,
    bc: Seq<T>,
    left: Seq<T>,
    right: Seq<T>,
)
    requires
        exact::<T>(),
        semiring::<T>(),
        a.len() >= 1,
        b.len() >= 1,
        c.len() >= 1,
        is_product(a, b, ab),
        is_product(ab, c, left),
        is_product(b, c, bc),
        is_product(a, bc, right),
    ensures
        left == right,
{
    assert forall|k: int| 0 <= k < left.len() implies left[k] == right[k] by {
        lemma_product_is_convolution(ab, c, left, k);
        lemma_product_is_convolution(a, bc, right, k);
        let via_ab = |i: int| coefficient(ab, i).mul_spec(coefficient(c, k - i));
        let via_a_b = |i: int| convolution(a, b, i).mul_spec(coefficient(c, k - i));
        let via_bc = |j: int| coefficient(a, j).mul_spec(coefficient(bc, k - j));
        let via_b_c = |j: int| coefficient(a, j).mul_spec(convolution(b, c, k - j));
        assert forall|i: int| 0 <= i <= k implies #[trigger] via_ab(i) == via_a_b(i) by {
            lemma_product_is_convolution(a, b, ab, i);
        }
        assert forall|j: int| 0 <= j <= k implies #[trigger] via_bc(j) == via_b_c(j) by {
            lemma_product_is_convolution(b, c, bc, k - j);
        }
        lemma_sigma_same(via_ab, via_a_b, 0, k);
        lemma_sigma_same(via_bc, via_b_c, 0, k);
        lemma_convolution_associates(a, b, c, k);
    }
    assert(left =~= right);
}

} // verus!
