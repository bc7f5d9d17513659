//! What holds of the determinant and of symmetry where the arithmetic and
//! the comparison of the elements are exact.

use vstd::prelude::*;
use vstd::arithmetic::div_mod::lemma_fundamental_div_mod_converse;
use vstd::std_specs::cmp::PartialEqSpec;
use vstd::std_specs::ops::{AddSpec, MulSpec, NegSpec, SubSpec};
use crate::arith::{evaluates, exact, lemma_exact_value, value, Scalar};
use crate::matrix::determinant::{cofactor_term, det_formula, expansion};
use crate::matrix::{lemma_offset_bounds, Grid};

verus! {

/// The product `(a * b) * c` under exact multiplication.
pub open spec fn product_of_three<T: Scalar>(a: T, b: T, c: T) -> T {
    a.mul_spec(b).mul_spec(c)
}

/// The determinant of a matrix of side 2 is `a11 * a22 - a12 * a21`, where
/// the arithmetic of the elements is exact.
pub proof fn lemma_determinant_of_side_2<T: Scalar>(g: Grid<T>, r: T)
    requires
        exact::<T>(),
        g.rows == 2,
        evaluates(det_formula(g), r),
    ensures
        r == g.at(1, 1).mul_spec(g.at(2, 2)).sub_spec(g.at(1, 2).mul_spec(g.at(2, 1))),
{
    lemma_exact_value(det_formula(g), r);
    reveal_with_fuel(value, 3);
}

/// The determinant of a matrix of side 3 is given by the rule of Sarrus,
/// where the arithmetic of the elements is exact.
pub proof fn lemma_determinant_of_side_3<T: Scalar>(g: Grid<T>, r: T)
    requires
        exact::<T>(),
        g.rows == 3,
        evaluates(det_formula(g), r),
    ensures
        r == product_of_three(g.at(1, 1), g.at(2, 2), g.at(3, 3)).add_spec(
            product_of_three(g.at(1, 2), g.at(2, 3), g.at(3, 1)),
        ).add_spec(product_of_three(g.at(1, 3), g.at(2, 1), g.at(3, 2))).sub_spec(
            product_of_three(g.at(3, 1), g.at(2, 2), g.at(1, 3)),
        ).sub_spec(product_of_three(g.at(3, 2), g.at(2, 3), g.at(1, 1))).sub_spec(
            product_of_three(g.at(3, 3), g.at(2, 1), g.at(1, 2)),
        ),
{
    lemma_exact_value(det_formula(g), r);
    reveal_with_fuel(value, 8);
}

/// The cofactor term of column `col` of the first row under exact
/// arithmetic: the element times the determinant of the minor, negated for
/// even columns.
pub open spec fn cofactor<T: Scalar>(g: Grid<T>, col: int) -> T {
    let term = g.at(1, col).mul_spec(value(det_formula(g.minor(col))));
    if col % 2 == 1 {
        term
    } else {
        term.neg_spec()
    }
}

/// The cofactor terms of the columns 1 to `upto`, added from left to right.
pub open spec fn cofactors_upto<T: Scalar>(g: Grid<T>, upto: nat) -> T
    decreases upto,
{
    if upto <= 1 {
        cofactor(g, 1)
    } else {
        cofactors_upto(g, (upto - 1) as nat).add_spec(cofactor(g, upto as int))
    }
}

/// The determinant of a matrix of side 4 or more is its expansion along the
/// first row: the sum over the columns of the element of the first row
/// times the determinant of the minor without that column, with
/// alternating signs that start positive. This holds where the arithmetic of
/// the elements is exact.
pub proof fn lemma_determinant_is_expansion<T: Scalar>(g: Grid<T>, r: T)
    requires
        exact::<T>(),
        g.rows >= 4,
        evaluates(det_formula(g), r),
    ensures
        r == cofactors_upto(g, g.rows),
{
    lemma_exact_value(det_formula(g), r);
    lemma_expansion_value(g, g.rows);
}

/// The value of the expansion over the first `upto` columns is the sum of
/// their cofactor terms.
pub proof fn lemma_expansion_value<T: Scalar>(g: Grid<T>, upto: nat)
    requires
        g.rows >= 1,
        upto >= 1,
    ensures
        value(expansion(g, upto)) == cofactors_upto(g, upto),
    decreases upto,
{
    assert(value(cofactor_term(g, upto)) == cofactor(g, upto as int)) by {
        reveal_with_fuel(value, 3);
    }
    if upto > 1 {
        lemma_expansion_value(g, (upto - 1) as nat);
    }
}

impl<T> Grid<T> {
    /// The matrix mirrored at its diagonal: cell `(i, j)` of the transpose is
    /// cell `(j, i)` of the matrix.
    pub open spec fn transpose(self) -> Grid<T> {
        let n = self.rows as int;
        Grid {
            rows: self.cols,
            cols: self.rows,
            cells: Seq::new(self.cells.len(), |q: int| self.at(q % n + 1, q / n + 1)),
        }
    }
}

impl<T: PartialEq> Grid<T> {
    /// `other` has the shape of `self`, and each cell of `self` equals, by
    /// `==` of `T`, the cell of `other` at the same place.
    pub open spec fn equals(self, other: Grid<T>) -> bool {
        &&& other.rows == self.rows
        &&& other.cols == self.cols
        &&& forall|i: int, j: int|
            self.has(i, j) ==> (#[trigger] self.at(i, j)).eq_spec(&other.at(i, j))
    }
}

/// Cell `(i, j)` of the transpose is cell `(j, i)` of the matrix.
pub proof fn lemma_transpose_at<T>(g: Grid<T>, i: int, j: int)
    requires
        g.wf(),
        g.has(j, i),
    ensures
        g.transpose().wf(),
        g.transpose().has(i, j),
        g.transpose().at(i, j) == g.at(j, i),
{
    let t = g.transpose();
    let n = g.rows as int;
    assert(t.cells.len() == t.rows * t.cols) by (nonlinear_arith)
        requires
            t.cells.len() == g.rows * g.cols,
            t.rows == g.cols,
            t.cols == g.rows,
    ;
    lemma_offset_bounds(t, i, j);
    lemma_fundamental_div_mod_converse(t.offset(i, j), n, i - 1, j - 1);
}

/// `==` of `T` holds between each value and itself, and in both directions
/// where it holds in one.
pub open spec fn equality_is_reflexive_and_symmetric<T: PartialEq>() -> bool {
    &&& forall|x: T| #[trigger] x.eq_spec(&x)
    &&& forall|x: T, y: T| #[trigger] x.eq_spec(&y) ==> y.eq_spec(&x)
}

/// A square matrix is symmetric exactly when it equals its transpose, cell
/// by cell, where `==` of the elements is reflexive and symmetric.
pub proof fn lemma_symmetric_iff_equals_transpose<T: PartialEq>(g: Grid<T>)
    requires
        g.wf(),
        g.square(),
        equality_is_reflexive_and_symmetric::<T>(),
    ensures
        g.symmetric() <==> g.equals(g.transpose()),
{
    let t = g.transpose();
    if g.symmetric() {
        assert forall|i: int, j: int| g.has(i, j) implies (#[trigger] g.at(i, j)).eq_spec(
            &t.at(i, j),
        ) by {
            lemma_transpose_at(g, i, j);
            if i < j {
                assert(g.at(i, j).eq_spec(&g.at(j, i)));
            } else if j < i {
                assert(g.at(j, i).eq_spec(&g.at(i, j)));
            }
        }
    }
    if g.equals(t) {
        assert forall|i: int, j: int| 1 <= i < j <= g.side() implies (#[trigger] g.at(
            i,
            j,
        )).eq_spec(&#[trigger] g.at(j, i)) by {
            lemma_transpose_at(g, i, j);
            assert(g.at(i, j).eq_spec(&t.at(i, j)));
        }
    }
}

} // verus!
