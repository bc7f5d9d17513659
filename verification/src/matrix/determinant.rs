//! The determinant: closed forms for sides 2 and 3, expansion along the
//! first row for larger matrices.

use vstd::prelude::*;
use vstd::arithmetic::div_mod::{
    lemma_div_pos_is_pos, lemma_fundamental_div_mod_converse, lemma_mod_bound,
    lemma_multiply_divide_lt,
};
use crate::arith::{
    copies, copy, copy_of, defined, diff, evaluates, lemma_copy_clone, lemma_copy_same,
    lemma_defined_copies, lemma_evaluates_copies, minus, neg, negated, plus, prod, sum, times,
    Formula, Scalar,
};
use crate::matrix::{lemma_offset_bounds, Grid, Matrix};

verus! {

/// The column of the full matrix that column `j` of a minor comes from, when
/// the minor leaves out column `col`.
pub open spec fn skipping(j: int, col: int) -> int {
    if j < col {
        j
    } else {
        j + 1
    }
}

impl<T> Grid<T> {
    /// The matrix without its first row and without its column `col`.
    pub open spec fn minor(self, col: int) -> Grid<T>
        recommends
            self.wf(),
            self.square(),
            self.has(1, col),
    {
        let n = (self.rows - 1) as nat;
        Grid {
            rows: n,
            cols: n,
            cells: Seq::new(n * n, |q: int| self.at(q / (n as int) + 2, skipping(q % (n as int) + 1, col))),
        }
    }

    /// `other` has the shape of `self`, and each of its cells is a copy of
    /// the cell of `self` at the same place.
    pub open spec fn copied_to(self, other: Grid<T>) -> bool where T: Clone {
        &&& other.rows == self.rows
        &&& other.cols == self.cols
        &&& other.cells.len() == self.cells.len()
        &&& forall|q: int| 0 <= q < self.cells.len() ==> copy_of(self.cells[q], #[trigger] other.cells[q])
    }
}

/// A minor is a square matrix one smaller, and its cell `(i, j)` is the cell
/// of the full matrix one row down, in the column that `j` comes from.
pub proof fn lemma_minor_at<T>(g: Grid<T>, col: int, i: int, j: int)
    requires
        g.wf(),
        g.square(),
        g.has(1, col),
        1 <= i < g.rows,
        1 <= j < g.rows,
    ensures
        g.minor(col).wf(),
        g.minor(col).square(),
        g.minor(col).rows == g.rows - 1,
        g.minor(col).has(i, j),
        g.has(i + 1, skipping(j, col)),
        0 <= g.minor(col).offset(i, j) < g.minor(col).cells.len(),
        g.minor(col).at(i, j) == g.at(i + 1, skipping(j, col)),
{
    let n = (g.rows - 1) as int;
    let m = g.minor(col);
    lemma_offset_bounds(m, i, j);
    let q = m.offset(i, j);
    lemma_fundamental_div_mod_converse(q, n, i - 1, j - 1);
}

/// `f` with the sign of the cofactor of column `col` in the first row: kept
/// for odd columns, negated for even ones.
pub open spec fn signed<T>(col: int, f: Formula<T>) -> Formula<T> {
    if col % 2 == 1 {
        f
    } else {
        neg(f)
    }
}

/// The product `(a * b) * c`.
pub open spec fn triple<T>(a: T, b: T, c: T) -> Formula<T> {
    prod(prod(Formula::Val(a), Formula::Val(b)), Formula::Val(c))
}

/// The rule of Sarrus for a matrix of side 3: three products along the
/// diagonals added, three along the counter-diagonals subtracted.
pub open spec fn sarrus<T>(g: Grid<T>) -> Formula<T> {
    diff(
        diff(
            diff(
                sum(
                    sum(
                        triple(g.at(1, 1), g.at(2, 2), g.at(3, 3)),
                        triple(g.at(1, 2), g.at(2, 3), g.at(3, 1)),
                    ),
                    triple(g.at(1, 3), g.at(2, 1), g.at(3, 2)),
                ),
                triple(g.at(3, 1), g.at(2, 2), g.at(1, 3)),
            ),
            triple(g.at(3, 2), g.at(2, 3), g.at(1, 1)),
        ),
        triple(g.at(3, 3), g.at(2, 1), g.at(1, 2)),
    )
}

/// The determinant of a square matrix as a formula over its cells.
///
/// Side 0 gives the default value, side 1 the only cell, side 2
/// `a11 * a22 - a12 * a21`, side 3 the rule of Sarrus, and any larger side
/// the expansion along the first row.
pub open spec fn det_formula<T>(g: Grid<T>) -> Formula<T>
    decreases g.rows, 2int, 0int,
{
    if g.rows == 0 {
        Formula::Zero
    } else if g.rows == 1 {
        Formula::Val(g.at(1, 1))
    } else if g.rows == 2 {
        diff(
            prod(Formula::Val(g.at(1, 1)), Formula::Val(g.at(2, 2))),
            prod(Formula::Val(g.at(1, 2)), Formula::Val(g.at(2, 1))),
        )
    } else if g.rows == 3 {
        sarrus(g)
    } else {
        expansion(g, g.rows)
    }
}

/// The term of column `col` in the expansion along the first row: the cell
/// `(1, col)` times the determinant of the minor without that column, negated
/// where `col` is even.
pub open spec fn cofactor_term<T>(g: Grid<T>, col: nat) -> Formula<T>
    decreases g.rows, 0int, 0int,
{
    if g.rows == 0 {
        Formula::Zero
    } else {
        signed(col as int, prod(Formula::Val(g.at(1, col as int)), det_formula(g.minor(col as int))))
    }
}

/// The terms of the columns 1 to `upto` of the expansion along the first
/// row, added from left to right.
pub open spec fn expansion<T>(g: Grid<T>, upto: nat) -> Formula<T>
    decreases g.rows, 1int, upto,
{
    if upto == 0 {
        Formula::Zero
    } else if upto == 1 {
        cofactor_term(g, 1)
    } else {
        sum(expansion(g, (upto - 1) as nat), cofactor_term(g, upto))
    }
}

/// A minor of a square matrix is a square matrix with one row less.
pub proof fn lemma_minor_shape<T>(g: Grid<T>, col: int)
    requires
        g.square(),
        g.rows >= 1,
    ensures
        g.minor(col).wf(),
        g.minor(col).square(),
        g.minor(col).rows == g.rows - 1,
{
}

/// Each cell of a minor is a cell of the full matrix.
pub proof fn lemma_minor_cell<T>(g: Grid<T>, col: int, q: int)
    requires
        g.wf(),
        g.square(),
        g.has(1, col),
        0 <= q < g.minor(col).cells.len(),
    ensures
        g.rows >= 2,
        g.has(q / (g.rows - 1) + 2, skipping(q % (g.rows - 1) + 1, col)),
        g.minor(col).cells[q] == g.at(q / (g.rows - 1) + 2, skipping(q % (g.rows - 1) + 1, col)),
        0 <= g.offset(q / (g.rows - 1) + 2, skipping(q % (g.rows - 1) + 1, col)) < g.cells.len(),
{
    let n = (g.rows - 1) as int;
    if n <= 0 {
        assert(n * n == 0) by (nonlinear_arith)
            requires
                n == 0,
        ;
    }
    lemma_multiply_divide_lt(q, n, n);
    lemma_div_pos_is_pos(q, n);
    lemma_mod_bound(q, n);
    lemma_offset_bounds(g, q / n + 2, skipping(q % n + 1, col));
}

/// The minors of a matrix and of a copy of it are copies of one another.
pub proof fn lemma_minor_copied<T: Clone>(g1: Grid<T>, g2: Grid<T>, col: int)
    requires
        g1.wf(),
        g1.square(),
        g1.has(1, col),
        g1.copied_to(g2),
    ensures
        g1.minor(col).copied_to(g2.minor(col)),
{
    let m1 = g1.minor(col);
    let m2 = g2.minor(col);
    assert forall|q: int| 0 <= q < m1.cells.len() implies copy_of(
        m1.cells[q],
        #[trigger] m2.cells[q],
    ) by {
        lemma_minor_cell(g1, col, q);
    }
}

/// The determinant formulas of a matrix and of a copy of it have one shape,
/// with copies of the same cells at the same places.
pub proof fn lemma_det_copies<T: Clone>(g1: Grid<T>, g2: Grid<T>)
    requires
        g1.wf(),
        g1.square(),
        g1.copied_to(g2),
    ensures
        copies(det_formula(g1), det_formula(g2)),
    decreases g1.rows, 2int, 0int,
{
    if g1.rows == 0 {
    } else if g1.rows == 1 {
        lemma_cell_copied(g1, g2, 1, 1);
    } else if g1.rows == 2 {
        lemma_cell_copied(g1, g2, 1, 1);
        lemma_cell_copied(g1, g2, 1, 2);
        lemma_cell_copied(g1, g2, 2, 1);
        lemma_cell_copied(g1, g2, 2, 2);
        lemma_prod_copies(
            Formula::Val(g1.at(1, 1)),
            Formula::Val(g1.at(2, 2)),
            Formula::Val(g2.at(1, 1)),
            Formula::Val(g2.at(2, 2)),
        );
        lemma_prod_copies(
            Formula::Val(g1.at(1, 2)),
            Formula::Val(g1.at(2, 1)),
            Formula::Val(g2.at(1, 2)),
            Formula::Val(g2.at(2, 1)),
        );
    } else if g1.rows == 3 {
        lemma_triple_copies(g1, g2, 1, 1, 2, 2, 3, 3);
        lemma_triple_copies(g1, g2, 1, 2, 2, 3, 3, 1);
        lemma_triple_copies(g1, g2, 1, 3, 2, 1, 3, 2);
        lemma_triple_copies(g1, g2, 3, 1, 2, 2, 1, 3);
        lemma_triple_copies(g1, g2, 3, 2, 2, 3, 1, 1);
        lemma_triple_copies(g1, g2, 3, 3, 2, 1, 1, 2);
        let a1 = sum(
            triple(g1.at(1, 1), g1.at(2, 2), g1.at(3, 3)),
            triple(g1.at(1, 2), g1.at(2, 3), g1.at(3, 1)),
        );
        let a2 = sum(
            triple(g2.at(1, 1), g2.at(2, 2), g2.at(3, 3)),
            triple(g2.at(1, 2), g2.at(2, 3), g2.at(3, 1)),
        );
        assert(copies(a1, a2));
        let b1 = sum(a1, triple(g1.at(1, 3), g1.at(2, 1), g1.at(3, 2)));
        let b2 = sum(a2, triple(g2.at(1, 3), g2.at(2, 1), g2.at(3, 2)));
        assert(copies(b1, b2));
        let c1 = diff(b1, triple(g1.at(3, 1), g1.at(2, 2), g1.at(1, 3)));
        let c2 = diff(b2, triple(g2.at(3, 1), g2.at(2, 2), g2.at(1, 3)));
        assert(copies(c1, c2));
        let d1 = diff(c1, triple(g1.at(3, 2), g1.at(2, 3), g1.at(1, 1)));
        let d2 = diff(c2, triple(g2.at(3, 2), g2.at(2, 3), g2.at(1, 1)));
        assert(copies(d1, d2));
    } else {
        lemma_expansion_copies(g1, g2, g1.rows);
    }
}

proof fn lemma_cell_copied<T: Clone>(g1: Grid<T>, g2: Grid<T>, row: int, col: int)
    requires
        g1.wf(),
        g1.copied_to(g2),
        g1.has(row, col),
    ensures
        copy_of(g1.at(row, col), g2.at(row, col)),
        copies(Formula::Val(g1.at(row, col)), Formula::Val(g2.at(row, col))),
{
    lemma_offset_bounds(g1, row, col);
}

proof fn lemma_prod_copies<T: Clone>(a1: Formula<T>, b1: Formula<T>, a2: Formula<T>, b2: Formula<T>)
    requires
        copies(a1, a2),
        copies(b1, b2),
    ensures
        copies(prod(a1, b1), prod(a2, b2)),
{
}

proof fn lemma_triple_copies<T: Clone>(
    g1: Grid<T>,
    g2: Grid<T>,
    r1: int,
    c1: int,
    r2: int,
    c2: int,
    r3: int,
    c3: int,
)
    requires
        g1.wf(),
        g1.copied_to(g2),
        g1.has(r1, c1),
        g1.has(r2, c2),
        g1.has(r3, c3),
    ensures
        copies(
            triple(g1.at(r1, c1), g1.at(r2, c2), g1.at(r3, c3)),
            triple(g2.at(r1, c1), g2.at(r2, c2), g2.at(r3, c3)),
        ),
{
    lemma_cell_copied(g1, g2, r1, c1);
    lemma_cell_copied(g1, g2, r2, c2);
    lemma_cell_copied(g1, g2, r3, c3);
    lemma_prod_copies(
        Formula::Val(g1.at(r1, c1)),
        Formula::Val(g1.at(r2, c2)),
        Formula::Val(g2.at(r1, c1)),
        Formula::Val(g2.at(r2, c2)),
    );
    lemma_prod_copies(
        prod(Formula::Val(g1.at(r1, c1)), Formula::Val(g1.at(r2, c2))),
        Formula::Val(g1.at(r3, c3)),
        prod(Formula::Val(g2.at(r1, c1)), Formula::Val(g2.at(r2, c2))),
        Formula::Val(g2.at(r3, c3)),
    );
}

proof fn lemma_term_copies<T: Clone>(g1: Grid<T>, g2: Grid<T>, col: nat)
    requires
        g1.wf(),
        g1.square(),
        g1.copied_to(g2),
        g1.has(1, col as int),
    ensures
        copies(cofactor_term(g1, col), cofactor_term(g2, col)),
    decreases g1.rows, 0int, 0int,
{
    lemma_cell_copied(g1, g2, 1, col as int);
    lemma_minor_copied(g1, g2, col as int);
    lemma_minor_shape(g1, col as int);
    lemma_det_copies(g1.minor(col as int), g2.minor(col as int));
    lemma_prod_copies(
        Formula::Val(g1.at(1, col as int)),
        det_formula(g1.minor(col as int)),
        Formula::Val(g2.at(1, col as int)),
        det_formula(g2.minor(col as int)),
    );
}

proof fn lemma_expansion_copies<T: Clone>(g1: Grid<T>, g2: Grid<T>, upto: nat)
    requires
        g1.wf(),
        g1.square(),
        g1.copied_to(g2),
        upto <= g1.rows,
    ensures
        copies(expansion(g1, upto), expansion(g2, upto)),
    decreases g1.rows, 1int, upto,
{
    if upto == 0 {
    } else if upto == 1 {
        lemma_term_copies(g1, g2, 1);
    } else {
        lemma_expansion_copies(g1, g2, (upto - 1) as nat);
        lemma_term_copies(g1, g2, upto);
    }
}

/// Where the expansion over the first `upto` columns is defined, so are the
/// expansion over fewer columns and the term of each column.
pub proof fn lemma_expansion_defined<T: Scalar>(g: Grid<T>, upto: nat, col: nat)
    requires
        defined(expansion(g, upto)),
        1 <= col <= upto,
    ensures
        defined(expansion(g, col)),
        defined(cofactor_term(g, col)),
    decreases upto,
{
    if col < upto {
        lemma_expansion_defined(g, (upto - 1) as nat, col);
    }
}

impl<T: Clone> Matrix<T> {
    /// The matrix without its first row and without its column `col`,
    /// counted from 1: the rows from the second on, each with the element of
    /// that column left out.
    pub fn minor(&self, col: usize) -> (m: Matrix<T>)
        requires
            self@.wf(),
            self@.square(),
            self@.has(1, col as int),
        ensures
            m@.wf(),
            m@.square(),
            m@.rows == self@.rows - 1,
            self@.minor(col as int).copied_to(m@),
    {
        let n = self.n_col;
        let rest = self.get_rows(2, self.n_row);
        let ghost g = self@;
        let ghost small = g.minor(col as int);
        let ghost k = n as int - 1;
        let mut out: Vec<T> = Vec::new();
        let mut p: usize = 0;
        let ghost mut r: int = 0;
        let ghost mut c: int = 0;
        proof {
            assert(k * n == n * n - n) by (nonlinear_arith)
                requires
                    k == n - 1,
            ;
            assert((2 - 1) * g.cols == n);
            assert(g.cells.len() == n * n);
            assert(n * g.cols == n * n);
        }
        while p < rest.len()
            invariant
                g == self@,
                g.wf(),
                g.square(),
                g.has(1, col as int),
                n == g.rows,
                k == n - 1,
                small == g.minor(col as int),
                rest@ == g.rows_between(2, n as int),
                rest@.len() == k * n,
                g.cells.len() == k * n + n,
                p == r * n + c,
                0 <= c < n,
                0 <= r <= k,
                p <= rest@.len(),
                out@.len() == r * k + (if c < col { c } else { c - 1 }),
                forall|q: int| 0 <= q < out@.len() ==> copy_of(small.cells[q], #[trigger] out@[q]),
            decreases rest@.len() - p,
        {
            proof {
                lemma_fundamental_div_mod_converse(p as int, n as int, r, c);
                assert(r < k) by (nonlinear_arith)
                    requires
                        p == r * n + c,
                        p < k * n,
                        0 <= c,
                        0 <= r,
                        n > 0,
                ;
            }
            if p % n != col - 1 {
                let e = rest[p].clone();
                proof {
                    let cc = if c < col {
                        c
                    } else {
                        c - 1
                    };
                    let q = out@.len() as int;
                    lemma_minor_at(g, col as int, r + 1, cc + 1);
                    assert(small.offset(r + 1, cc + 1) == q);
                    assert(skipping(cc + 1, col as int) == c + 1);
                    assert(g.offset(r + 2, c + 1) == n + p) by (nonlinear_arith)
                        requires
                            g.offset(r + 2, c + 1) == (r + 2 - 1) * n + (c + 1 - 1),
                            p == r * n + c,
                    ;
                    assert((2 - 1) * g.cols == n);
                    assert(n * g.cols == k * n + n) by (nonlinear_arith)
                        requires
                            g.cols == n,
                            k == n - 1,
                    ;
                    assert(rest@[p as int] == g.cells[n + p]);
                    assert(small.cells[q] == rest@[p as int]);
                    lemma_copy_same(small.cells[q]);
                    lemma_copy_clone(small.cells[q], small.cells[q], e);
                }
                out.push(e);
            }
            p = p + 1;
            proof {
                if c + 1 == n {
                    assert((r + 1) * n == r * n + n) by (nonlinear_arith);
                    assert((r + 1) * k == r * k + k) by (nonlinear_arith);
                    r = r + 1;
                    c = 0;
                } else {
                    c = c + 1;
                }
            }
        }
        proof {
            assert(r == k && c == 0) by (nonlinear_arith)
                requires
                    r * n + c == k * n,
                    0 <= c < n,
                    0 <= r <= k,
            ;
            assert(small.cells.len() == k * k);
        }
        Matrix::new(out, n - 1, n - 1)
    }
}

impl<T: Scalar> Matrix<T> {
    /// The product of three elements, taken in the order given.
    fn triple_product(
        &self,
        r1: usize,
        c1: usize,
        r2: usize,
        c2: usize,
        r3: usize,
        c3: usize,
    ) -> (r: T)
        requires
            self@.wf(),
            self@.has(r1 as int, c1 as int),
            self@.has(r2 as int, c2 as int),
            self@.has(r3 as int, c3 as int),
            defined(
                triple(
                    self@.at(r1 as int, c1 as int),
                    self@.at(r2 as int, c2 as int),
                    self@.at(r3 as int, c3 as int),
                ),
            ),
        ensures
            evaluates(
                triple(
                    self@.at(r1 as int, c1 as int),
                    self@.at(r2 as int, c2 as int),
                    self@.at(r3 as int, c3 as int),
                ),
                r,
            ),
    {
        let ghost fa = Formula::Val(self@.at(r1 as int, c1 as int));
        let ghost fb = Formula::Val(self@.at(r2 as int, c2 as int));
        let ghost fc = Formula::Val(self@.at(r3 as int, c3 as int));
        let a = copy(self.get(r1, c1));
        let b = copy(self.get(r2, c2));
        let c = copy(self.get(r3, c3));
        proof {
            assert(defined(prod(prod(fa, fb), fc)));
            assert(defined(prod(fa, fb)));
        }
        let ab = times(a, b, Ghost(fa), Ghost(fb));
        times(ab, c, Ghost(prod(fa, fb)), Ghost(fc))
    }

    /// Computes the determinant of a square matrix.
    ///
    /// The result is the formula [`det_formula`] over the elements, computed
    /// with the operators of `T`. The formula has to be defined: no operator
    /// may be handed what its precondition rules out, an overflow for one.
    /// `lemma_total_defined` and `lemma_safe_defined` show that it is, for
    /// operators without preconditions and for exact ones. For exact
    /// operators `lemma_exact_value` gives the result as a value, and the
    /// laws of this module and of `expansion` say which.
    pub fn determinant(&self) -> (r: T)
        requires
            self@.wf(),
            self@.square(),
            defined(det_formula(self@)),
        ensures
            evaluates(det_formula(self@), r),
        decreases self@.rows,
    {
        let ghost g = self@;
        let n = self.n_row;
        if n == 0 {
            T::default()
        } else if n == 1 {
            copy(self.get(1, 1))
        } else if n == 2 {
            let ghost fa = Formula::Val(g.at(1, 1));
            let ghost fb = Formula::Val(g.at(1, 2));
            let ghost fc = Formula::Val(g.at(2, 1));
            let ghost fd = Formula::Val(g.at(2, 2));
            proof {
                assert(defined(diff(prod(fa, fd), prod(fb, fc))));
                assert(defined(prod(fa, fd)));
                assert(defined(prod(fb, fc)));
            }
            let ad = times(copy(self.get(1, 1)), copy(self.get(2, 2)), Ghost(fa), Ghost(fd));
            let bc = times(copy(self.get(1, 2)), copy(self.get(2, 1)), Ghost(fb), Ghost(fc));
            minus(ad, bc, Ghost(prod(fa, fd)), Ghost(prod(fb, fc)))
        } else if n == 3 {
            let ghost t1 = triple(g.at(1, 1), g.at(2, 2), g.at(3, 3));
            let ghost t2 = triple(g.at(1, 2), g.at(2, 3), g.at(3, 1));
            let ghost t3 = triple(g.at(1, 3), g.at(2, 1), g.at(3, 2));
            let ghost t4 = triple(g.at(3, 1), g.at(2, 2), g.at(1, 3));
            let ghost t5 = triple(g.at(3, 2), g.at(2, 3), g.at(1, 1));
            let ghost t6 = triple(g.at(3, 3), g.at(2, 1), g.at(1, 2));
            let ghost s2 = sum(t1, t2);
            let ghost s3 = sum(s2, t3);
            let ghost s4 = diff(s3, t4);
            let ghost s5 = diff(s4, t5);
            proof {
                assert(defined(diff(s5, t6)));
                assert(defined(s5));
                assert(defined(s4));
                assert(defined(s3));
                assert(defined(s2));
            }
            let x1 = self.triple_product(1, 1, 2, 2, 3, 3);
            let x2 = self.triple_product(1, 2, 2, 3, 3, 1);
            let x3 = self.triple_product(1, 3, 2, 1, 3, 2);
            let x4 = self.triple_product(3, 1, 2, 2, 1, 3);
            let x5 = self.triple_product(3, 2, 2, 3, 1, 1);
            let x6 = self.triple_product(3, 3, 2, 1, 1, 2);
            let a2 = plus(x1, x2, Ghost(t1), Ghost(t2));
            let a3 = plus(a2, x3, Ghost(s2), Ghost(t3));
            let a4 = minus(a3, x4, Ghost(s3), Ghost(t4));
            let a5 = minus(a4, x5, Ghost(s4), Ghost(t5));
            minus(a5, x6, Ghost(s5), Ghost(t6))
        } else {
            let first = self.get_row(1);
            let mut acc = self.signed_term(first, 1);
            let mut col: usize = 1;
            while col < n
                invariant
                    g == self@,
                    g.wf(),
                    g.square(),
                    n == g.rows,
                    n >= 4,
                    defined(expansion(g, n as nat)),
                    first@ == g.rows_between(1, 1),
                    1 <= col <= n,
                    evaluates(expansion(g, col as nat), acc),
                decreases n - col,
            {
                col = col + 1;
                let t = self.signed_term(first, col);
                proof {
                    lemma_expansion_defined(g, n as nat, col as nat);
                }
                acc = plus(
                    acc,
                    t,
                    Ghost(expansion(g, (col - 1) as nat)),
                    Ghost(cofactor_term(g, col as nat)),
                );
            }
            acc
        }
    }

    /// The term of column `col` in the expansion along the first row, whose
    /// elements are `first`.
    fn signed_term(&self, first: &[T], col: usize) -> (t: T)
        requires
            self@.wf(),
            self@.square(),
            self@.rows >= 4,
            self@.has(1, col as int),
            first@ == self@.rows_between(1, 1),
            defined(expansion(self@, self@.rows)),
        ensures
            evaluates(cofactor_term(self@, col as nat), t),
        decreases self@.rows, 0int,
    {
        let ghost g = self@;
        let ghost small = g.minor(col as int);
        let ghost fe = Formula::Val(g.at(1, col as int));
        proof {
            lemma_expansion_defined(g, g.rows, col as nat);
            lemma_offset_bounds(g, 1, col as int);
            if col % 2 == 1 {
                assert(defined(prod(fe, det_formula(small))));
            } else {
                assert(defined(neg(prod(fe, det_formula(small)))));
                assert(defined(prod(fe, det_formula(small))));
            }
            assert(defined(det_formula(small)));
        }
        let e = copy(&first[col - 1]);
        let m = self.minor(col);
        proof {
            lemma_minor_shape(g, col as int);
            lemma_det_copies(small, m@);
            lemma_defined_copies(det_formula(small), det_formula(m@));
        }
        let d = m.determinant();
        proof {
            lemma_evaluates_copies(det_formula(small), det_formula(m@), d);
        }
        let t = times(e, d, Ghost(fe), Ghost(det_formula(small)));
        if col % 2 == 0 {
            negated(t, Ghost(prod(fe, det_formula(small))))
        } else {
            t
        }
    }
}

} // verus!
