//! Formulas whose values are polynomials: how long their results are, when
//! they can be computed, what their constant terms are, and what their
//! coefficients are under exact arithmetic.

use vstd::prelude::*;
use core::ops::{Add, Mul, Neg, Sub};
use vstd::std_specs::ops::{AddSpec, MulSpec, NegSpec, SubSpec};
use crate::arith::{
    copied_in, copy_of, defined, diff, evaluates, exact, lemma_copy_clone, lemma_copy_same,
    lemma_exact_copy, lemma_exact_value, lemma_safe_defined, lemma_total_defined, neg, prod, safe,
    sum, total, value, zero, Formula, Scalar,
};
use crate::polynomials::operators::{added_at, longer, multiplied_at, negated_at, subtracted_at};
use crate::polynomials::Pol;

verus! {

/// A copy of a polynomial has as many coefficients, each a copy of the
/// coefficient at the same place.
pub proof fn lemma_polynomial_copy<T: Clone>(p: Pol<T>, q: Pol<T>)
    requires
        copy_of(p, q),
    ensures
        q@.len() == p@.len(),
        forall|i: int| 0 <= i < p@.len() ==> copy_of(p@[i], #[trigger] q@[i]),
{
    let k = choose|k: nat| copied_in(p, q, k);
    lemma_polynomial_copy_in(p, q, k);
}

proof fn lemma_polynomial_copy_in<T: Clone>(p: Pol<T>, q: Pol<T>, k: nat)
    requires
        copied_in(p, q, k),
    ensures
        q@.len() == p@.len(),
        forall|i: int| 0 <= i < p@.len() ==> copy_of(p@[i], #[trigger] q@[i]),
    decreases k,
{
    if k == 0 {
        assert forall|i: int| 0 <= i < p@.len() implies copy_of(p@[i], #[trigger] q@[i]) by {
            lemma_copy_same(p@[i]);
        }
    } else {
        let m = choose|m: Pol<T>| copied_in(p, m, (k - 1) as nat) && #[trigger] cloned(m, q);
        lemma_polynomial_copy_in(p, m, (k - 1) as nat);
        assert forall|i: int| 0 <= i < p@.len() implies copy_of(p@[i], #[trigger] q@[i]) by {
            assert(copy_of(p@[i], m@[i]));
            assert(cloned(m@[i], q@[i]));
            lemma_copy_clone(p@[i], m@[i], q@[i]);
        }
    }
}

/// The number of coefficients of a polynomial computed by `f`.
pub open spec fn length_of<T>(f: Formula<Pol<T>>) -> int
    decreases f,
{
    match f {
        Formula::Val(p) => p@.len() as int,
        Formula::Zero => 1,
        Formula::Neg(a) => length_of(*a),
        Formula::Add(a, b) => if length_of(*a) >= length_of(*b) {
            length_of(*a)
        } else {
            length_of(*b)
        },
        Formula::Sub(a, b) => if length_of(*a) >= length_of(*b) {
            length_of(*a)
        } else {
            length_of(*b)
        },
        Formula::Mul(a, b) => length_of(*a) + length_of(*b) - 1,
    }
}

/// Each polynomial in `f` has a coefficient, and no product in it has more
/// coefficients than a vector can hold.
pub open spec fn producible<T>(f: Formula<Pol<T>>) -> bool
    decreases f,
{
    match f {
        Formula::Val(p) => p@.len() >= 1,
        Formula::Zero => true,
        Formula::Neg(a) => producible(*a),
        Formula::Add(a, b) => producible(*a) && producible(*b),
        Formula::Sub(a, b) => producible(*a) && producible(*b),
        Formula::Mul(a, b) => producible(*a) && producible(*b) && length_of(*a) + length_of(*b) - 1
            <= usize::MAX,
    }
}

/// What `f` evaluates to has `length_of(f)` coefficients.
pub proof fn lemma_length<T: Scalar>(f: Formula<Pol<T>>, r: Pol<T>)
    requires
        evaluates(f, r),
    ensures
        r@.len() == length_of(f),
    decreases f,
{
    match f {
        Formula::Val(p) => {
            lemma_polynomial_copy(p, r);
        },
        Formula::Zero => {},
        Formula::Neg(a) => {
            let x = choose|x: Pol<T>|
                evaluates(*a, x) && #[trigger] call_ensures(<Pol<T> as Neg>::neg, (x,), r);
            lemma_length(*a, x);
        },
        Formula::Add(a, b) => {
            let (x, y) = choose|x: Pol<T>, y: Pol<T>|
                evaluates(*a, x) && evaluates(*b, y) && #[trigger] call_ensures(
                    <Pol<T> as Add>::add,
                    (x, y),
                    r,
                );
            lemma_length(*a, x);
            lemma_length(*b, y);
        },
        Formula::Sub(a, b) => {
            let (x, y) = choose|x: Pol<T>, y: Pol<T>|
                evaluates(*a, x) && evaluates(*b, y) && #[trigger] call_ensures(
                    <Pol<T> as Sub>::sub,
                    (x, y),
                    r,
                );
            lemma_length(*a, x);
            lemma_length(*b, y);
        },
        Formula::Mul(a, b) => {
            let (x, y) = choose|x: Pol<T>, y: Pol<T>|
                evaluates(*a, x) && evaluates(*b, y) && #[trigger] call_ensures(
                    <Pol<T> as Mul>::mul,
                    (x, y),
                    r,
                );
            lemma_length(*a, x);
            lemma_length(*b, y);
        },
    }
}

/// A producible formula gives polynomials with at least one coefficient.
pub proof fn lemma_length_positive<T>(f: Formula<Pol<T>>)
    requires
        producible(f),
    ensures
        length_of(f) >= 1,
    decreases f,
{
    match f {
        Formula::Val(_) => {},
        Formula::Zero => {},
        Formula::Neg(a) => {
            lemma_length_positive(*a);
        },
        Formula::Add(a, b) => {
            lemma_length_positive(*a);
            lemma_length_positive(*b);
        },
        Formula::Sub(a, b) => {
            lemma_length_positive(*a);
            lemma_length_positive(*b);
        },
        Formula::Mul(a, b) => {
            lemma_length_positive(*a);
            lemma_length_positive(*b);
        },
    }
}

/// Where the arithmetic of the coefficients is total, a producible formula
/// of polynomials is defined.
pub proof fn lemma_polynomials_defined<T: Scalar>(f: Formula<Pol<T>>)
    requires
        total::<T>(),
        producible(f),
    ensures
        defined(f),
    decreases f,
{
    match f {
        Formula::Val(_) => {},
        Formula::Zero => {},
        Formula::Neg(a) => {
            lemma_polynomials_defined(*a);
            assert forall|x: Pol<T>| evaluates(*a, x) implies #[trigger] x.neg_req() by {
                assert forall|i: int| 0 <= i < x@.len() implies defined(
                    #[trigger] negated_at(x@, i),
                ) by {
                    lemma_total_defined(negated_at(x@, i));
                }
            }
        },
        Formula::Add(a, b) => {
            lemma_polynomials_defined(*a);
            lemma_polynomials_defined(*b);
            assert forall|x: Pol<T>, y: Pol<T>|
                evaluates(*a, x) && evaluates(*b, y) implies #[trigger] x.add_req(y) by {
                assert forall|i: int| 0 <= i < longer(x@.len(), y@.len()) implies defined(
                    #[trigger] added_at(x@, y@, i),
                ) by {
                    lemma_total_defined(added_at(x@, y@, i));
                }
            }
        },
        Formula::Sub(a, b) => {
            lemma_polynomials_defined(*a);
            lemma_polynomials_defined(*b);
            assert forall|x: Pol<T>, y: Pol<T>|
                evaluates(*a, x) && evaluates(*b, y) implies #[trigger] x.sub_req(y) by {
                assert forall|i: int| 0 <= i < longer(x@.len(), y@.len()) implies defined(
                    #[trigger] subtracted_at(x@, y@, i),
                ) by {
                    lemma_total_defined(subtracted_at(x@, y@, i));
                }
            }
        },
        Formula::Mul(a, b) => {
            lemma_polynomials_defined(*a);
            lemma_polynomials_defined(*b);
            lemma_length_positive(*a);
            lemma_length_positive(*b);
            assert forall|x: Pol<T>, y: Pol<T>|
                evaluates(*a, x) && evaluates(*b, y) implies #[trigger] x.mul_req(y) by {
                lemma_length(*a, x);
                lemma_length(*b, y);
                assert forall|k: int| 0 <= k < x@.len() + y@.len() - 1 implies defined(
                    #[trigger] multiplied_at(x@, y@, k),
                ) by {
                    lemma_total_defined(multiplied_at(x@, y@, k));
                }
            }
        },
    }
}

/// Each polynomial in `f` has a coefficient.
pub open spec fn nonempty<T>(f: Formula<Pol<T>>) -> bool
    decreases f,
{
    match f {
        Formula::Val(p) => p@.len() >= 1,
        Formula::Zero => true,
        Formula::Neg(a) => nonempty(*a),
        Formula::Add(a, b) => nonempty(*a) && nonempty(*b),
        Formula::Sub(a, b) => nonempty(*a) && nonempty(*b),
        Formula::Mul(a, b) => nonempty(*a) && nonempty(*b),
    }
}

/// The formula `f` with each polynomial replaced by its constant term.
pub open spec fn constant_terms<T>(f: Formula<Pol<T>>) -> Formula<T>
    decreases f,
{
    match f {
        Formula::Val(p) => Formula::Val(p@[0]),
        Formula::Zero => Formula::Zero,
        Formula::Neg(a) => neg(constant_terms(*a)),
        Formula::Add(a, b) => sum(constant_terms(*a), constant_terms(*b)),
        Formula::Sub(a, b) => diff(constant_terms(*a), constant_terms(*b)),
        Formula::Mul(a, b) => prod(constant_terms(*a), constant_terms(*b)),
    }
}

/// The constant term of what a formula of polynomials evaluates to is the
/// value of the same formula over the constant terms, where the arithmetic
/// of the coefficients is exact.
pub proof fn lemma_constant_term<T: Scalar>(f: Formula<Pol<T>>, r: Pol<T>)
    requires
        exact::<T>(),
        nonempty(f),
        evaluates(f, r),
    ensures
        r@.len() >= 1,
        r@[0] == value(constant_terms(f)),
    decreases f,
{
    reveal_with_fuel(value, 3);
    match f {
        Formula::Val(p) => {
            lemma_polynomial_copy(p, r);
            lemma_exact_copy(p@[0], r@[0]);
        },
        Formula::Zero => {},
        Formula::Neg(a) => {
            let x = choose|x: Pol<T>|
                evaluates(*a, x) && #[trigger] call_ensures(<Pol<T> as Neg>::neg, (x,), r);
            lemma_constant_term(*a, x);
            lemma_exact_value(negated_at(x@, 0), r@[0]);
        },
        Formula::Add(a, b) => {
            let (x, y) = choose|x: Pol<T>, y: Pol<T>|
                evaluates(*a, x) && evaluates(*b, y) && #[trigger] call_ensures(
                    <Pol<T> as Add>::add,
                    (x, y),
                    r,
                );
            lemma_constant_term(*a, x);
            lemma_constant_term(*b, y);
            lemma_exact_value(added_at(x@, y@, 0), r@[0]);
        },
        Formula::Sub(a, b) => {
            let (x, y) = choose|x: Pol<T>, y: Pol<T>|
                evaluates(*a, x) && evaluates(*b, y) && #[trigger] call_ensures(
                    <Pol<T> as Sub>::sub,
                    (x, y),
                    r,
                );
            lemma_constant_term(*a, x);
            lemma_constant_term(*b, y);
            lemma_exact_value(subtracted_at(x@, y@, 0), r@[0]);
        },
        Formula::Mul(a, b) => {
            let (x, y) = choose|x: Pol<T>, y: Pol<T>|
                evaluates(*a, x) && evaluates(*b, y) && #[trigger] call_ensures(
                    <Pol<T> as Mul>::mul,
                    (x, y),
                    r,
                );
            lemma_constant_term(*a, x);
            lemma_constant_term(*b, y);
            lemma_exact_value(multiplied_at(x@, y@, 0), r@[0]);
        },
    }
}

/// The coefficients of `a + b` under exact arithmetic.
pub open spec fn sum_of<T: Scalar>(a: Seq<T>, b: Seq<T>) -> Seq<T> {
    Seq::new(longer(a.len(), b.len()), |i: int| value(added_at(a, b, i)))
}

/// The coefficients of `a - b` under exact arithmetic.
pub open spec fn difference_of<T: Scalar>(a: Seq<T>, b: Seq<T>) -> Seq<T> {
    Seq::new(longer(a.len(), b.len()), |i: int| value(subtracted_at(a, b, i)))
}

/// The coefficients of `-a` under exact arithmetic.
pub open spec fn negation_of<T: Scalar>(a: Seq<T>) -> Seq<T> {
    Seq::new(a.len(), |i: int| value(negated_at(a, i)))
}

/// The coefficients of `a * b` under exact arithmetic.
pub open spec fn product_of<T: Scalar>(a: Seq<T>, b: Seq<T>) -> Seq<T> {
    Seq::new((a.len() + b.len() - 1) as nat, |k: int| value(multiplied_at(a, b, k)))
}

/// The formula `f` with each polynomial replaced by its coefficients.
pub open spec fn over_coefficients<T>(f: Formula<Pol<T>>) -> Formula<Seq<T>>
    decreases f,
{
    match f {
        Formula::Val(p) => Formula::Val(p@),
        Formula::Zero => Formula::Zero,
        Formula::Neg(a) => neg(over_coefficients(*a)),
        Formula::Add(a, b) => sum(over_coefficients(*a), over_coefficients(*b)),
        Formula::Sub(a, b) => diff(over_coefficients(*a), over_coefficients(*b)),
        Formula::Mul(a, b) => prod(over_coefficients(*a), over_coefficients(*b)),
    }
}

/// The coefficients that a formula over coefficient sequences stands for
/// under exact arithmetic of the coefficients.
pub open spec fn coefficients_of<T: Scalar>(f: Formula<Seq<T>>) -> Seq<T>
    decreases f,
{
    match f {
        Formula::Val(p) => p,
        Formula::Zero => seq![zero::<T>()],
        Formula::Neg(a) => negation_of(coefficients_of(*a)),
        Formula::Add(a, b) => sum_of(coefficients_of(*a), coefficients_of(*b)),
        Formula::Sub(a, b) => difference_of(coefficients_of(*a), coefficients_of(*b)),
        Formula::Mul(a, b) => product_of(coefficients_of(*a), coefficients_of(*b)),
    }
}

/// Where the arithmetic of the coefficients is exact, a formula of
/// polynomials evaluates to one sequence of coefficients and to no other.
pub proof fn lemma_exact_coefficients<T: Scalar>(f: Formula<Pol<T>>, r: Pol<T>)
    requires
        exact::<T>(),
        evaluates(f, r),
    ensures
        r@ == coefficients_of(over_coefficients(f)),
    decreases f,
{
    match f {
        Formula::Val(p) => {
            lemma_polynomial_copy(p, r);
            assert forall|i: int| 0 <= i < p@.len() implies r@[i] == p@[i] by {
                lemma_exact_copy(p@[i], r@[i]);
            }
            assert(r@ =~= p@);
        },
        Formula::Zero => {
            assert(r@ =~= seq![zero::<T>()]);
        },
        Formula::Neg(a) => {
            let x = choose|x: Pol<T>|
                evaluates(*a, x) && #[trigger] call_ensures(<Pol<T> as Neg>::neg, (x,), r);
            lemma_exact_coefficients(*a, x);
            assert forall|i: int| 0 <= i < r@.len() implies r@[i] == value(negated_at(x@, i)) by {
                lemma_exact_value(negated_at(x@, i), r@[i]);
            }
            assert(r@ =~= negation_of(x@));
        },
        Formula::Add(a, b) => {
            let (x, y) = choose|x: Pol<T>, y: Pol<T>|
                evaluates(*a, x) && evaluates(*b, y) && #[trigger] call_ensures(
                    <Pol<T> as Add>::add,
                    (x, y),
                    r,
                );
            lemma_exact_coefficients(*a, x);
            lemma_exact_coefficients(*b, y);
            assert forall|i: int| 0 <= i < r@.len() implies r@[i] == value(added_at(x@, y@, i)) by {
                lemma_exact_value(added_at(x@, y@, i), r@[i]);
            }
            assert(r@ =~= sum_of(x@, y@));
        },
        Formula::Sub(a, b) => {
            let (x, y) = choose|x: Pol<T>, y: Pol<T>|
                evaluates(*a, x) && evaluates(*b, y) && #[trigger] call_ensures(
                    <Pol<T> as Sub>::sub,
                    (x, y),
                    r,
                );
            lemma_exact_coefficients(*a, x);
            lemma_exact_coefficients(*b, y);
            assert forall|i: int| 0 <= i < r@.len() implies r@[i] == value(
                subtracted_at(x@, y@, i),
            ) by {
                lemma_exact_value(subtracted_at(x@, y@, i), r@[i]);
            }
            assert(r@ =~= difference_of(x@, y@));
        },
        Formula::Mul(a, b) => {
            let (x, y) = choose|x: Pol<T>, y: Pol<T>|
                evaluates(*a, x) && evaluates(*b, y) && #[trigger] call_ensures(
                    <Pol<T> as Mul>::mul,
                    (x, y),
                    r,
                );
            lemma_exact_coefficients(*a, x);
            lemma_exact_coefficients(*b, y);
            assert forall|k: int| 0 <= k < r@.len() implies r@[k] == value(
                multiplied_at(x@, y@, k),
            ) by {
                lemma_exact_value(multiplied_at(x@, y@, k), r@[k]);
            }
            assert(r@ =~= product_of(x@, y@));
        },
    }
}

/// Each operation on coefficients that computing `f` takes meets its
/// precondition at the values of its operands, each polynomial in `f` that
/// is multiplied has a coefficient, and no product has more coefficients
/// than a vector can hold.
pub open spec fn safe_coefficients<T: Scalar>(f: Formula<Seq<T>>) -> bool
    decreases f,
{
    match f {
        Formula::Val(_) => true,
        Formula::Zero => true,
        Formula::Neg(a) => {
            let x = coefficients_of(*a);
            safe_coefficients(*a) && forall|i: int|
                0 <= i < x.len() ==> safe(#[trigger] negated_at(x, i))
        },
        Formula::Add(a, b) => {
            let x = coefficients_of(*a);
            let y = coefficients_of(*b);
            safe_coefficients(*a) && safe_coefficients(*b) && forall|i: int|
                0 <= i < longer(x.len(), y.len()) ==> safe(#[trigger] added_at(x, y, i))
        },
        Formula::Sub(a, b) => {
            let x = coefficients_of(*a);
            let y = coefficients_of(*b);
            safe_coefficients(*a) && safe_coefficients(*b) && forall|i: int|
                0 <= i < longer(x.len(), y.len()) ==> safe(#[trigger] subtracted_at(x, y, i))
        },
        Formula::Mul(a, b) => {
            let x = coefficients_of(*a);
            let y = coefficients_of(*b);
            &&& safe_coefficients(*a)
            &&& safe_coefficients(*b)
            &&& x.len() >= 1
            &&& y.len() >= 1
            &&& x.len() + y.len() - 1 <= usize::MAX
            &&& forall|k: int|
                0 <= k < x.len() + y.len() - 1 ==> safe(#[trigger] multiplied_at(x, y, k))
        },
    }
}

/// Where the arithmetic of the coefficients is exact, a formula of
/// polynomials is defined where it is safe at the coefficients of its parts.
pub proof fn lemma_safe_coefficients_defined<T: Scalar>(f: Formula<Pol<T>>)
    requires
        exact::<T>(),
        safe_coefficients(over_coefficients(f)),
    ensures
        defined(f),
    decreases f,
{
    match f {
        Formula::Val(_) => {},
        Formula::Zero => {},
        Formula::Neg(a) => {
            lemma_safe_coefficients_defined(*a);
            assert forall|x: Pol<T>| evaluates(*a, x) implies #[trigger] x.neg_req() by {
                lemma_exact_coefficients(*a, x);
                assert forall|i: int| 0 <= i < x@.len() implies defined(
                    #[trigger] negated_at(x@, i),
                ) by {
                    lemma_safe_defined(negated_at(x@, i));
                }
            }
        },
        Formula::Add(a, b) => {
            lemma_safe_coefficients_defined(*a);
            lemma_safe_coefficients_defined(*b);
            assert forall|x: Pol<T>, y: Pol<T>|
                evaluates(*a, x) && evaluates(*b, y) implies #[trigger] x.add_req(y) by {
                lemma_exact_coefficients(*a, x);
                lemma_exact_coefficients(*b, y);
                assert forall|i: int| 0 <= i < longer(x@.len(), y@.len()) implies defined(
                    #[trigger] added_at(x@, y@, i),
                ) by {
                    lemma_safe_defined(added_at(x@, y@, i));
                }
            }
        },
        Formula::Sub(a, b) => {
            lemma_safe_coefficients_defined(*a);
            lemma_safe_coefficients_defined(*b);
            assert forall|x: Pol<T>, y: Pol<T>|
                evaluates(*a, x) && evaluates(*b, y) implies #[trigger] x.sub_req(y) by {
                lemma_exact_coefficients(*a, x);
                lemma_exact_coefficients(*b, y);
                assert forall|i: int| 0 <= i < longer(x@.len(), y@.len()) implies defined(
                    #[trigger] subtracted_at(x@, y@, i),
                ) by {
                    lemma_safe_defined(subtracted_at(x@, y@, i));
                }
            }
        },
        Formula::Mul(a, b) => {
            lemma_safe_coefficients_defined(*a);
            lemma_safe_coefficients_defined(*b);
            assert forall|x: Pol<T>, y: Pol<T>|
                evaluates(*a, x) && evaluates(*b, y) implies #[trigger] x.mul_req(y) by {
                lemma_exact_coefficients(*a, x);
                lemma_exact_coefficients(*b, y);
                assert forall|k: int| 0 <= k < x@.len() + y@.len() - 1 implies defined(
                    #[trigger] multiplied_at(x@, y@, k),
                ) by {
                    lemma_safe_defined(multiplied_at(x@, y@, k));
                }
            }
        },
    }
}

} // verus!
