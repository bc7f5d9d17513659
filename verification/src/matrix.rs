//! Matrices stored row by row, addressed from 1 as in mathematical texts.

use vstd::prelude::*;
use vstd::slice::slice_subrange;
use vstd::std_specs::cmp::PartialEqSpec;
use vstd::std_specs::ops::AddSpec;
use core::ops::Add;
use crate::arith::{
    differs, lemma_copy_clone, lemma_copy_same, lemma_sum_defined_prefix, sum_defined, sums_to,
};

pub mod characteristic;
pub mod determinant;
pub mod display;
pub mod expansion;
pub mod laws;

verus! {

/// 2D Vector
#[derive(Debug, PartialEq)]
pub struct Vec2<T> {
    /// x component
    pub x: T,
    /// y component
    pub y: T,
}

/// 3D Vector
#[derive(Debug, PartialEq)]
pub struct Vec3<T> {
    /// x component
    pub x: T,
    /// y component
    pub y: T,
    /// z component
    pub z: T,
}

/// Matrix
#[derive(Debug, PartialEq)]
pub struct Matrix<T> {
    mat: Vec<T>,
    n_col: usize,
    n_row: usize,
}

/// The mathematical content of a [`Matrix`]: its shape and its cells, row
/// after row.
pub ghost struct Grid<T> {
    /// Number of rows.
    pub rows: nat,
    /// Number of columns.
    pub cols: nat,
    /// The cells in row-major order.
    pub cells: Seq<T>,
}

impl<T> Grid<T> {
    /// There are as many cells as the shape asks for.
    pub open spec fn wf(self) -> bool {
        self.cells.len() == self.rows * self.cols
    }

    /// As many rows as columns.
    pub open spec fn square(self) -> bool {
        self.rows == self.cols
    }

    /// `(row, col)` names a cell; both count from 1.
    pub open spec fn has(self, row: int, col: int) -> bool {
        1 <= row <= self.rows && 1 <= col <= self.cols
    }

    /// Where the cell `(row, col)` lies in `cells`.
    pub open spec fn offset(self, row: int, col: int) -> int {
        (row - 1) * self.cols + (col - 1)
    }

    /// The cell in row `row` and column `col`, both counted from 1.
    pub open spec fn at(self, row: int, col: int) -> T
        recommends
            self.wf(),
            self.has(row, col),
    {
        self.cells[self.offset(row, col)]
    }

    /// The cells `(1, 1)`, `(2, 2)` and so on, to the last row.
    pub open spec fn diagonal(self) -> Seq<T>
        recommends
            self.wf(),
            self.square(),
    {
        Seq::new(self.rows, |k: int| self.at(k + 1, k + 1))
    }

    /// The side of the largest square that fits into the matrix.
    pub open spec fn side(self) -> nat {
        if self.rows <= self.cols {
            self.rows
        } else {
            self.cols
        }
    }

    /// The cells of the rows `from` to `to`, both included.
    pub open spec fn rows_between(self, from: int, to: int) -> Seq<T>
        recommends
            self.wf(),
            1 <= from <= to + 1,
            to <= self.rows,
    {
        self.cells.subrange((from - 1) * self.cols, to * self.cols)
    }
}

/// The offset of a cell lies inside the cell sequence, and the rows lie after
/// one another in it.
pub proof fn lemma_offset_bounds<T>(g: Grid<T>, row: int, col: int)
    requires
        g.wf(),
        g.has(row, col),
    ensures
        0 <= (row - 1) * g.cols <= g.offset(row, col) < row * g.cols <= g.cells.len(),
{
    assert((row - 1) * g.cols + g.cols == row * g.cols) by (nonlinear_arith);
    assert(0 <= (row - 1) * g.cols) by (nonlinear_arith)
        requires
            1 <= row,
            0 <= g.cols,
    ;
    assert(row * g.cols <= g.rows * g.cols) by (nonlinear_arith)
        requires
            row <= g.rows,
            0 <= g.cols,
    ;
}

/// Each cell of a matrix lies in some row and some column.
pub proof fn lemma_cell_place<T>(g: Grid<T>, q: int)
    requires
        g.wf(),
        0 <= q < g.cells.len(),
    ensures
        g.cols > 0,
        g.has(q / (g.cols as int) + 1, q % (g.cols as int) + 1),
        g.offset(q / (g.cols as int) + 1, q % (g.cols as int) + 1) == q,
{
    let c = g.cols as int;
    if c == 0 {
        assert(g.rows * g.cols == 0) by (nonlinear_arith)
            requires
                g.cols == 0,
        ;
    }
    vstd::arithmetic::div_mod::lemma_fundamental_div_mod(q, c);
    vstd::arithmetic::div_mod::lemma_mod_bound(q, c);
    vstd::arithmetic::div_mod::lemma_div_pos_is_pos(q, c);
    assert(q < c * g.rows) by (nonlinear_arith)
        requires
            q < g.rows * g.cols,
            c == g.cols,
    ;
    vstd::arithmetic::div_mod::lemma_multiply_divide_lt(q, c, g.rows as int);
    assert((q / c) * c == c * (q / c)) by (nonlinear_arith);
}

/// Two matrices of one shape with equal cells at each place are equal.
pub proof fn lemma_same_cells<T>(a: Grid<T>, b: Grid<T>)
    requires
        a.wf(),
        b.wf(),
        a.rows == b.rows,
        a.cols == b.cols,
        forall|i: int, j: int| a.has(i, j) ==> #[trigger] a.at(i, j) == b.at(i, j),
    ensures
        a == b,
{
    assert forall|q: int| 0 <= q < a.cells.len() implies a.cells[q] == b.cells[q] by {
        lemma_cell_place(a, q);
        let c = a.cols as int;
        assert(a.at(q / c + 1, q % c + 1) == b.at(q / c + 1, q % c + 1));
    }
    assert(a.cells =~= b.cells);
}

impl<T> View for Matrix<T> {
    type V = Grid<T>;

    closed spec fn view(&self) -> Grid<T> {
        Grid { rows: self.n_row as nat, cols: self.n_col as nat, cells: self.mat@ }
    }
}

impl<T> Matrix<T> {
    /// Creates new matrix from vector
    pub fn new(mat: Vec<T>, n_row: usize, n_col: usize) -> (m: Self)
        ensures
            m@ == (Grid { rows: n_row as nat, cols: n_col as nat, cells: mat@ }),
    {
        Self { mat, n_row, n_col }
    }

    /// Number of rows.
    pub fn n_rows(&self) -> (n: usize)
        ensures
            n == self@.rows,
    {
        self.n_row
    }

    /// Number of columns.
    pub fn n_cols(&self) -> (n: usize)
        ensures
            n == self@.cols,
    {
        self.n_col
    }

    /// The elements, row after row.
    pub fn elements(&self) -> (e: &Vec<T>)
        ensures
            e@ == self@.cells,
    {
        &self.mat
    }

    /// The element in row `row` and column `col`, both counted from 1.
    pub fn get(&self, row: usize, col: usize) -> (r: &T)
        requires
            self@.wf(),
            self@.has(row as int, col as int),
        ensures
            *r == self@.at(row as int, col as int),
    {
        proof {
            lemma_offset_bounds(self@, row as int, col as int);
            assert(self@.offset(row as int, col as int) == (row - 1) * self.n_col + (col - 1));
            assert(self@.cells.len() == self.mat.len());
        }
        &self.mat[(row - 1) * self.n_col + (col - 1)]
    }

    /// The `n_col` elements of row `row`, counted from 1.
    pub fn get_row(&self, row: usize) -> (r: &[T])
        requires
            self@.wf(),
            1 <= row <= self@.rows,
        ensures
            r@ == self@.rows_between(row as int, row as int),
            r@.len() == self@.cols,
            forall|col: int| 1 <= col <= self@.cols ==> r@[col - 1] == #[trigger] self@.at(row as int, col),
    {
        let r = self.get_rows(row, row);
        proof {
            let c = self@.cols as int;
            assert((row - 1) * c + c == row * c) by (nonlinear_arith);
            assert(0 <= (row - 1) * c <= row * c <= self@.rows * c) by (nonlinear_arith)
                requires
                    1 <= row <= self@.rows,
                    0 <= c,
            ;
            assert(r@.len() == row * c - (row - 1) * c);
            assert forall|col: int| 1 <= col <= self@.cols implies r@[col - 1] == #[trigger] self@.at(
                row as int,
                col,
            ) by {
                lemma_offset_bounds(self@, row as int, col);
            }
        }
        r
    }

    /// The elements of the rows `from` to `to`, both included and counted
    /// from 1; no element where `from` is `to + 1`.
    pub fn get_rows(&self, from: usize, to: usize) -> (r: &[T])
        requires
            self@.wf(),
            1 <= from <= to + 1,
            to <= self@.rows,
        ensures
            r@ == self@.rows_between(from as int, to as int),
    {
        proof {
            let c = self@.cols as int;
            assert(0 <= (from - 1) * c <= to * c <= self@.rows * c) by (nonlinear_arith)
                requires
                    1 <= from <= to + 1,
                    to <= self@.rows,
                    0 <= c,
            ;
            assert(c == self.n_col);
            assert(self@.rows * c == self.mat.len());
        }
        slice_subrange(self.mat.as_slice(), (from - 1) * self.n_col, to * self.n_col)
    }
}

impl<T: Add<Output = T> + Clone> Matrix<T> {
    /// Calculate the trace of the matrix
    ///
    /// The elements of the diagonal are added from the first to the last.
    /// Each addition has to meet the precondition of `+`;
    /// `lemma_sum_safe_defined` shows that for exact addition, and
    /// `lemma_exact_sum` gives the result as a value.
    pub fn trace(&self) -> (r: T)
        requires
            self@.wf(),
            self@.square(),
            self@.rows >= 1,
            sum_defined(self@.diagonal()),
        ensures
            sums_to(self@.diagonal(), r),
    {
        let ghost diag = self@.diagonal();
        let mut result = self.get(1, 1).clone();
        proof {
            lemma_copy_same(diag[0]);
            lemma_copy_clone(diag[0], diag[0], result);
            assert(diag.take(1)[0] == diag[0]);
        }
        let mut i: usize = 1;
        while i < self.n_row
            invariant
                self@.wf(),
                self@.square(),
                diag == self@.diagonal(),
                sum_defined(diag),
                1 <= i <= self.n_row,
                self.n_row == self@.rows,
                sums_to(diag.take(i as int), result),
            decreases self.n_row - i,
        {
            i = i + 1;
            let c = self.get(i, i).clone();
            proof {
                let upto = diag.take(i as int);
                lemma_copy_same(upto.last());
                lemma_copy_clone(upto.last(), upto.last(), c);
                assert(upto.drop_last() =~= diag.take(i - 1));
                lemma_sum_defined_prefix(diag, i as int);
            }
            result = result + c;
        }
        proof {
            assert(diag.take(i as int) =~= diag);
        }
        result
    }
}

impl<T: PartialEq> Grid<T> {
    /// Each cell above the diagonal equals, by `==` of `T`, the cell that
    /// mirrors it below the diagonal, as far as both exist.
    pub open spec fn symmetric(self) -> bool {
        forall|i: int, j: int|
            1 <= i < j <= self.side() ==> (#[trigger] self.at(i, j)).eq_spec(
                &#[trigger] self.at(j, i),
            )
    }
}

impl<T: PartialEq> Matrix<T> {
    /// Check if the matrix is symmetric
    ///
    /// Each cell above the diagonal is compared by `!=` with the cell that
    /// mirrors it, as far as both exist; the matrix is symmetric where no
    /// pair differs.
    pub fn is_symmetric(&self) -> (b: bool)
        requires
            self@.wf(),
        ensures
            T::obeys_eq_spec() ==> b == self@.symmetric(),
            b ==> forall|i: int, j: int|
                1 <= i < j <= self@.side() ==> differs(
                    #[trigger] self@.at(i, j),
                    #[trigger] self@.at(j, i),
                    false,
                ),
            !b ==> exists|i: int, j: int|
                1 <= i < j <= self@.side() && differs(
                    #[trigger] self@.at(i, j),
                    #[trigger] self@.at(j, i),
                    true,
                ),
    {
        let k = if self.n_row <= self.n_col {
            self.n_row
        } else {
            self.n_col
        };
        let mut i: usize = 1;
        while i < k
            invariant
                self@.wf(),
                k == self@.side(),
                1 <= i,
                T::obeys_eq_spec() ==> forall|a: int, b: int|
                    1 <= a < b <= k && a < i ==> (#[trigger] self@.at(a, b)).eq_spec(
                        &#[trigger] self@.at(b, a),
                    ),
                forall|a: int, b: int|
                    1 <= a < b <= k && a < i ==> differs(
                        #[trigger] self@.at(a, b),
                        #[trigger] self@.at(b, a),
                        false,
                    ),
            decreases k - i,
        {
            let mut j: usize = i;
            while j < k
                invariant
                    self@.wf(),
                    k == self@.side(),
                    1 <= i <= j <= k,
                    i < k,
                    T::obeys_eq_spec() ==> forall|a: int, b: int|
                        1 <= a < b <= k && (a < i || (a == i && b <= j)) ==> (#[trigger] self@.at(
                            a,
                            b,
                        )).eq_spec(&#[trigger] self@.at(b, a)),
                    forall|a: int, b: int|
                        1 <= a < b <= k && (a < i || (a == i && b <= j)) ==> differs(
                            #[trigger] self@.at(a, b),
                            #[trigger] self@.at(b, a),
                            false,
                        ),
                decreases k - j,
            {
                j = j + 1;
                if *self.get(i, j) != *self.get(j, i) {
                    assert(differs(self@.at(i as int, j as int), self@.at(j as int, i as int), true));
                    return false;
                }
            }
            i = i + 1;
        }
        true
    }
}

} // verus!
