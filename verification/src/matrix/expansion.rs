//! Expansion of the determinant along any row and any column, for elements
//! whose arithmetic is exact and obeys the laws of a commutative ring.

use vstd::prelude::*;
use vstd::arithmetic::div_mod::lemma_fundamental_div_mod_converse;
use vstd::std_specs::ops::{AddSpec, MulSpec, NegSpec, SubSpec};
use crate::arith::{evaluates, exact, lemma_exact_value, value, zero, Scalar};
use crate::matrix::determinant::{det_formula, lemma_minor_at, skipping};
use crate::matrix::laws::{cofactor, cofactors_upto, lemma_expansion_value, lemma_transpose_at};
use crate::matrix::{lemma_offset_bounds, lemma_same_cells, Grid};
use crate::ring::{
    commutative_ring, lemma_add_associates, lemma_add_commutes, lemma_mul_associates,
    lemma_mul_commutes, lemma_mul_distributes, lemma_negation, lemma_sign, lemma_sum_over_sigma,
    lemma_sum_same, lemma_sum_scaled_left, lemma_sum_shifted, lemma_sum_signed, lemma_sum_single,
    lemma_sum_skipping, lemma_sum_split, lemma_sum_swap, inner_sum, outer_sum, sigma, sum_over,
    with_sign,
};

verus! {

impl<T> Grid<T> {
    /// The matrix without its row `row` and without its column `col`.
    pub open spec fn without(self, row: int, col: int) -> Grid<T>
        recommends
            self.wf(),
            self.square(),
            self.has(row, col),
    {
        let n = (self.rows - 1) as nat;
        Grid {
            rows: n,
            cols: n,
            cells: Seq::new(
                n * n,
                |q: int|
                    self.at(skipping(q / (n as int) + 1, row), skipping(q % (n as int) + 1, col)),
            ),
        }
    }
}

/// A square matrix without one row and one column is a square matrix with
/// one row less.
pub proof fn lemma_without_shape<T>(g: Grid<T>, row: int, col: int)
    requires
        g.square(),
        g.rows >= 1,
    ensures
        g.without(row, col).wf(),
        g.without(row, col).square(),
        g.without(row, col).rows == g.rows - 1,
{
}

/// Cell `(i, j)` of a matrix without a row and a column is the cell of the
/// full matrix in the row that `i` comes from and the column that `j` comes
/// from.
pub proof fn lemma_without_at<T>(g: Grid<T>, row: int, col: int, i: int, j: int)
    requires
        g.wf(),
        g.square(),
        g.has(row, col),
        1 <= i < g.rows,
        1 <= j < g.rows,
    ensures
        g.without(row, col).has(i, j),
        g.has(skipping(i, row), skipping(j, col)),
        g.without(row, col).at(i, j) == g.at(skipping(i, row), skipping(j, col)),
{
    let n = (g.rows - 1) as int;
    let m = g.without(row, col);
    lemma_offset_bounds(m, i, j);
    lemma_fundamental_div_mod_converse(m.offset(i, j), n, i - 1, j - 1);
}

/// The matrix without its first row and a column is the minor of that
/// column.
pub proof fn lemma_minor_is_without<T>(g: Grid<T>, col: int)
    requires
        g.wf(),
        g.square(),
        g.has(1, col),
    ensures
        g.minor(col) == g.without(1, col),
{
    let a = g.minor(col);
    let b = g.without(1, col);
    assert forall|i: int, j: int| a.has(i, j) implies #[trigger] a.at(i, j) == b.at(i, j) by {
        lemma_minor_at(g, col, i, j);
        lemma_without_at(g, 1, col, i, j);
    }
    lemma_same_cells(a, b);
}

/// Two rows and two columns can be taken out of a matrix in either order:
/// taking out row `r1` and column `c1` and then, of what is left, row `r2`
/// and column `c2`, gives what taking out the rows and columns that `r2` and
/// `c2` come from does, followed by the places `s1` and `t1` that row
/// `r1` and column `c1` have moved to.
pub proof fn lemma_without_commutes<T>(
    g: Grid<T>,
    r1: int,
    c1: int,
    r2: int,
    c2: int,
    s1: int,
    t1: int,
)
    requires
        g.wf(),
        g.square(),
        g.has(r1, c1),
        1 <= r2 < g.rows,
        1 <= c2 < g.rows,
        r1 == skipping(s1, skipping(r2, r1)),
        c1 == skipping(t1, skipping(c2, c1)),
        1 <= s1,
        1 <= t1,
    ensures
        g.without(r1, c1).without(r2, c2) == g.without(skipping(r2, r1), skipping(c2, c1)).without(
            s1,
            t1,
        ),
{
    let a = g.without(r1, c1);
    let b = g.without(skipping(r2, r1), skipping(c2, c1));
    lemma_without_shape(g, r1, c1);
    lemma_without_shape(g, skipping(r2, r1), skipping(c2, c1));
    lemma_without_shape(a, r2, c2);
    lemma_without_shape(b, s1, t1);
    let left = a.without(r2, c2);
    let right = b.without(s1, t1);
    assert forall|i: int, j: int| left.has(i, j) implies #[trigger] left.at(i, j) == right.at(
        i,
        j,
    ) by {
        lemma_without_at(a, r2, c2, i, j);
        lemma_without_at(g, r1, c1, skipping(i, r2), skipping(j, c2));
        lemma_without_at(b, s1, t1, i, j);
        lemma_without_at(
            g,
            skipping(r2, r1),
            skipping(c2, c1),
            skipping(i, s1),
            skipping(j, t1),
        );
    }
    lemma_same_cells(left, right);
}

/// Taking a row and a column out of the transpose gives the transpose of
/// the matrix without that column and that row.
pub proof fn lemma_without_transpose<T>(g: Grid<T>, row: int, col: int)
    requires
        g.wf(),
        g.square(),
        g.has(row, col),
    ensures
        g.transpose().without(col, row) == g.without(row, col).transpose(),
{
    let t = g.transpose();
    let w = g.without(row, col);
    lemma_without_shape(g, row, col);
    lemma_transpose_shape(g);
    lemma_transpose_shape(w);
    lemma_without_shape(t, col, row);
    let left = t.without(col, row);
    let right = w.transpose();
    assert forall|i: int, j: int| left.has(i, j) implies #[trigger] left.at(i, j) == right.at(
        i,
        j,
    ) by {
        lemma_without_at(t, col, row, i, j);
        lemma_transpose_at(g, skipping(i, col), skipping(j, row));
        lemma_transpose_at(w, i, j);
        lemma_without_at(g, row, col, j, i);
    }
    lemma_same_cells(left, right);
}

/// The transpose of a square matrix is a square matrix of the same side.
pub proof fn lemma_transpose_shape<T>(g: Grid<T>)
    requires
        g.wf(),
        g.square(),
    ensures
        g.transpose().wf(),
        g.transpose().square(),
        g.transpose().rows == g.rows,
{
}

/// The determinant under exact arithmetic.
pub open spec fn det<T: Scalar>(g: Grid<T>) -> T {
    value(det_formula(g))
}

/// The cofactor term of the cell `(row, col)`: the cell times the
/// determinant of the matrix without its row and its column, negated where
/// `row + col` is odd.
pub open spec fn term<T: Scalar>(g: Grid<T>, row: int, col: int) -> T {
    with_sign(row + col, g.at(row, col).mul_spec(det(g.without(row, col))))
}

/// The expansion along row `row`: the sum of the cofactor terms of its
/// cells.
pub open spec fn along_row<T: Scalar>(g: Grid<T>, row: int) -> T {
    sum_over(|j: int| term(g, row, j), 1, g.rows as int)
}

/// The expansion along column `col`: the sum of the cofactor terms of its
/// cells.
pub open spec fn along_column<T: Scalar>(g: Grid<T>, col: int) -> T {
    sum_over(|i: int| term(g, i, col), 1, g.rows as int)
}

/// The determinant of a matrix of side 1 is its cell.
proof fn lemma_det_of_side_1<T: Scalar>(g: Grid<T>)
    requires
        g.rows == 1,
    ensures
        det(g) == g.at(1, 1),
{
}

/// The determinant of a matrix of side 2 is `a11 * a22 + (-(a12 * a21))`.
proof fn lemma_det_of_side_2<T: Scalar>(g: Grid<T>)
    requires
        commutative_ring::<T>(),
        g.rows == 2,
    ensures
        det(g) == g.at(1, 1).mul_spec(g.at(2, 2)).add_spec(
            g.at(1, 2).mul_spec(g.at(2, 1)).neg_spec(),
        ),
{
    reveal_with_fuel(value, 3);
    lemma_negation(g.at(1, 1).mul_spec(g.at(2, 2)), g.at(1, 2).mul_spec(g.at(2, 1)));
}

/// The sum over the indices 1 and 2.
proof fn lemma_sum_of_two<T: Scalar>(f: spec_fn(int) -> T)
    requires
        commutative_ring::<T>(),
    ensures
        sum_over(f, 1, 2) == f(1).add_spec(f(2)),
{
    lemma_sum_single(f, 1);
}

/// The sum over the indices 1, 2 and 3.
proof fn lemma_sum_of_three<T: Scalar>(f: spec_fn(int) -> T)
    requires
        commutative_ring::<T>(),
    ensures
        sum_over(f, 1, 3) == f(1).add_spec(f(2)).add_spec(f(3)),
{
    lemma_sum_of_two(f);
}

/// The cells of a matrix of side 2 or more without its first row and a
/// column.
proof fn lemma_cells_below<T>(g: Grid<T>, col: int, i: int, j: int)
    requires
        g.wf(),
        g.square(),
        g.has(1, col),
        1 <= i < g.rows,
        1 <= j < g.rows,
    ensures
        g.without(1, col).at(i, j) == g.at(i + 1, skipping(j, col)),
{
    lemma_without_at(g, 1, col, i, j);
}

/// `(x * y) * z == z * (y * x)`.
proof fn lemma_product_reversed<T: Scalar>(x: T, y: T, z: T)
    requires
        commutative_ring::<T>(),
    ensures
        x.mul_spec(y).mul_spec(z) == z.mul_spec(y.mul_spec(x)),
{
    lemma_mul_commutes(x.mul_spec(y), z);
    lemma_mul_commutes(x, y);
}

/// Six terms added in two orders.
proof fn lemma_six_terms<T: Scalar>(a: T, b: T, c: T, d: T, e: T, f: T)
    requires
        commutative_ring::<T>(),
    ensures
        a.add_spec(b).add_spec(c).add_spec(d).add_spec(e).add_spec(f) == a.add_spec(e).add_spec(
            f.add_spec(b),
        ).add_spec(c.add_spec(d)),
{
    // right side: ((a + e) + (f + b)) + (c + d)
    lemma_add_commutes(f, b);
    // (a + e) + (b + f) == ((a + e) + b) + f
    lemma_add_associates(a.add_spec(e), b, f);
    // (a + e) + b == a + (e + b) == a + (b + e) == (a + b) + e
    lemma_add_associates(a, e, b);
    lemma_add_commutes(e, b);
    lemma_add_associates(a, b, e);
    let ab = a.add_spec(b);
    // right side is ((ab + e) + f) + (c + d); bring (c + d) forward
    lemma_add_associates(ab.add_spec(e), f, c.add_spec(d));
    lemma_add_commutes(f, c.add_spec(d));
    lemma_add_associates(ab.add_spec(e), c.add_spec(d), f);
    // (ab + e) + (c + d) == ab + (e + (c + d)) == ab + ((c + d) + e) == (ab + (c + d)) + e
    lemma_add_associates(ab, e, c.add_spec(d));
    lemma_add_commutes(e, c.add_spec(d));
    lemma_add_associates(ab, c.add_spec(d), e);
    // ab + (c + d) == (ab + c) + d
    lemma_add_associates(ab, c, d);
}

/// The determinant of a matrix of side 2 or more is its expansion along the
/// first row.
pub proof fn lemma_along_first_row<T: Scalar>(g: Grid<T>)
    requires
        commutative_ring::<T>(),
        g.wf(),
        g.square(),
        g.rows >= 2,
    ensures
        det(g) == along_row(g, 1),
{
    let f = |j: int| term(g, 1, j);
    let n = g.rows as int;
    if g.rows == 2 {
        lemma_det_of_side_2(g);
        lemma_sum_of_two(f);
        lemma_without_shape(g, 1, 1);
        lemma_without_shape(g, 1, 2);
        lemma_cells_below(g, 1, 1, 1);
        lemma_cells_below(g, 2, 1, 1);
        lemma_det_of_side_1(g.without(1, 1));
        lemma_det_of_side_1(g.without(1, 2));
    } else if g.rows == 3 {
        lemma_sum_of_three(f);
        let a11 = g.at(1, 1);
        let a12 = g.at(1, 2);
        let a13 = g.at(1, 3);
        let a21 = g.at(2, 1);
        let a22 = g.at(2, 2);
        let a23 = g.at(2, 3);
        let a31 = g.at(3, 1);
        let a32 = g.at(3, 2);
        let a33 = g.at(3, 3);
        let m1 = g.without(1, 1);
        let m2 = g.without(1, 2);
        let m3 = g.without(1, 3);
        lemma_without_shape(g, 1, 1);
        lemma_without_shape(g, 1, 2);
        lemma_without_shape(g, 1, 3);
        lemma_cells_below(g, 1, 1, 1);
        lemma_cells_below(g, 1, 1, 2);
        lemma_cells_below(g, 1, 2, 1);
        lemma_cells_below(g, 1, 2, 2);
        lemma_cells_below(g, 2, 1, 1);
        lemma_cells_below(g, 2, 1, 2);
        lemma_cells_below(g, 2, 2, 1);
        lemma_cells_below(g, 2, 2, 2);
        lemma_cells_below(g, 3, 1, 1);
        lemma_cells_below(g, 3, 1, 2);
        lemma_cells_below(g, 3, 2, 1);
        lemma_cells_below(g, 3, 2, 2);
        lemma_det_of_side_2(m1);
        lemma_det_of_side_2(m2);
        lemma_det_of_side_2(m3);
        // the six products, each with the element of the first row in front
        let u1 = a11.mul_spec(a22.mul_spec(a33));
        let u2 = a12.mul_spec(a23.mul_spec(a31));
        let u3 = a13.mul_spec(a21.mul_spec(a32));
        let u4 = a13.mul_spec(a22.mul_spec(a31));
        let u5 = a11.mul_spec(a23.mul_spec(a32));
        let u6 = a12.mul_spec(a21.mul_spec(a33));
        lemma_mul_associates(a11, a22, a33);
        lemma_mul_associates(a12, a23, a31);
        lemma_mul_associates(a13, a21, a32);
        lemma_product_reversed(a31, a22, a13);
        lemma_product_reversed(a32, a23, a11);
        lemma_product_reversed(a33, a21, a12);
        assert(det(g) == u1.add_spec(u2).add_spec(u3).sub_spec(u4).sub_spec(u5).sub_spec(u6)) by {
            reveal_with_fuel(value, 8);
        }
        lemma_negation(u1.add_spec(u2).add_spec(u3), u4);
        lemma_negation(u1.add_spec(u2).add_spec(u3).sub_spec(u4), u5);
        lemma_negation(u1.add_spec(u2).add_spec(u3).sub_spec(u4).sub_spec(u5), u6);
        // the three terms of the expansion
        lemma_mul_distributes(a11, a22.mul_spec(a33), a23.mul_spec(a32).neg_spec());
        lemma_negation(a11, a23.mul_spec(a32));
        assert(f(1) == u1.add_spec(u5.neg_spec()));
        lemma_mul_distributes(a12, a21.mul_spec(a33), a23.mul_spec(a31).neg_spec());
        lemma_negation(a12, a23.mul_spec(a31));
        lemma_negation(u6, u2.neg_spec());
        lemma_negation(u2, u2);
        assert(f(2) == u6.neg_spec().add_spec(u2));
        lemma_mul_distributes(a13, a21.mul_spec(a32), a22.mul_spec(a31).neg_spec());
        lemma_negation(a13, a22.mul_spec(a31));
        assert(f(3) == u3.add_spec(u4.neg_spec()));
        lemma_six_terms(u1, u2, u3, u4.neg_spec(), u5.neg_spec(), u6.neg_spec());
    } else {
        let c = |j: int| cofactor(g, j);
        lemma_expansion_value(g, g.rows);
        lemma_cofactors_sigma(g, g.rows);
        lemma_sum_over_sigma(c, 1, n);
        assert forall|j: int| 1 <= j <= n implies #[trigger] c(j) == f(j) by {
            lemma_minor_is_without(g, j);
        }
        lemma_sum_same(c, f, 1, n);
    }
}

proof fn lemma_cofactors_sigma<T: Scalar>(g: Grid<T>, upto: nat)
    requires
        upto >= 1,
    ensures
        cofactors_upto(g, upto) == sigma(|j: int| cofactor(g, j), 1, upto as int),
    decreases upto,
{
    if upto > 1 {
        lemma_cofactors_sigma(g, (upto - 1) as nat);
    }
}

/// The term that the cells `(i, 1)` and `(1, j)` have in common when the
/// first row and the first column are both expanded: their product times the
/// determinant of the matrix without the rows 1 and `i` and the columns 1
/// and `j`, negated where `i + j` is even.
pub open spec fn corner_term<T: Scalar>(g: Grid<T>, i: int, j: int) -> T {
    with_sign(
        i + j + 1,
        g.at(i, 1).mul_spec(g.at(1, j).mul_spec(det(g.without(i, 1).without(1, j - 1)))),
    )
}

/// `s(n) (x * (s(m) (y * z)))` is `s(n + m) (y * (x * z))`.
proof fn lemma_signed_products<T: Scalar>(n: int, m: int, x: T, y: T, z: T)
    requires
        commutative_ring::<T>(),
    ensures
        with_sign(n, x.mul_spec(with_sign(m, y.mul_spec(z)))) == with_sign(
            n + m,
            y.mul_spec(x.mul_spec(z)),
        ),
        with_sign(n, x.mul_spec(with_sign(m, y.mul_spec(z)))) == with_sign(
            n + m,
            x.mul_spec(y.mul_spec(z)),
        ),
{
    lemma_sign(m, 0, x, y.mul_spec(z));
    lemma_sign(n, m, x.mul_spec(y.mul_spec(z)), x);
    lemma_mul_associates(x, y, z);
    lemma_mul_commutes(x, y);
    lemma_mul_associates(y, x, z);
}

/// The sign of a term depends on the parity of its exponent alone.
proof fn lemma_same_parity<T: Scalar>(n: int, m: int, x: T)
    requires
        (n - m) % 2 == 0,
    ensures
        with_sign(n, x) == with_sign(m, x),
{
}

/// A cofactor term of the first row beyond the first column is the sum of
/// the terms that it has in common with the cells of the first column.
proof fn lemma_row_term_by_corners<T: Scalar>(g: Grid<T>, j: int)
    requires
        commutative_ring::<T>(),
        g.wf(),
        g.square(),
        g.rows >= 3,
        2 <= j <= g.rows,
        det(g.without(1, j)) == along_column(g.without(1, j), 1),
    ensures
        term(g, 1, j) == sum_over(|i: int| corner_term(g, i, j), 2, g.rows as int),
{
    let n = g.rows as int;
    let m = g.without(1, j);
    lemma_without_shape(g, 1, j);
    let x = g.at(1, j);
    let inner = |k: int| term(m, k, 1);
    let scaled = |k: int| x.mul_spec(inner(k));
    let signed = |k: int| with_sign(1 + j, scaled(k));
    let corners = |i: int| corner_term(g, i, j);
    lemma_sum_scaled_left(x, inner, scaled, 1, n - 1);
    lemma_sum_signed(1 + j, scaled, signed, 1, n - 1);
    assert forall|k: int| 1 <= k <= n - 1 implies #[trigger] signed(k) == corners(k + 1) by {
        lemma_without_at(g, 1, j, k, 1);
        lemma_without_commutes(g, 1, j, k, 1, 1, j - 1);
        lemma_signed_products(1 + j, k + 1, x, g.at(k + 1, 1), det(m.without(k, 1)));
        lemma_same_parity(1 + j + k + 1, k + 1 + j + 1, g.at(k + 1, 1).mul_spec(x.mul_spec(det(m.without(k, 1)))));
    }
    lemma_sum_shifted(corners, signed, 1, n - 1, 1);
}

/// A cofactor term of the first column below the first row is the sum of
/// the terms that it has in common with the cells of the first row.
proof fn lemma_column_term_by_corners<T: Scalar>(g: Grid<T>, i: int)
    requires
        commutative_ring::<T>(),
        g.wf(),
        g.square(),
        g.rows >= 3,
        2 <= i <= g.rows,
    ensures
        term(g, i, 1) == sum_over(|j: int| corner_term(g, i, j), 2, g.rows as int),
{
    let n = g.rows as int;
    let m = g.without(i, 1);
    lemma_without_shape(g, i, 1);
    lemma_along_first_row(m);
    let x = g.at(i, 1);
    let inner = |k: int| term(m, 1, k);
    let scaled = |k: int| x.mul_spec(inner(k));
    let signed = |k: int| with_sign(i + 1, scaled(k));
    let corners = |j: int| corner_term(g, i, j);
    lemma_sum_scaled_left(x, inner, scaled, 1, n - 1);
    lemma_sum_signed(i + 1, scaled, signed, 1, n - 1);
    assert forall|k: int| 1 <= k <= n - 1 implies #[trigger] signed(k) == corners(k + 1) by {
        lemma_without_at(g, i, 1, 1, k);
        lemma_signed_products(i + 1, 1 + k, x, g.at(1, k + 1), det(m.without(1, k)));
        lemma_same_parity(i + 1 + 1 + k, i + k + 1 + 1, x.mul_spec(g.at(1, k + 1).mul_spec(det(m.without(1, k)))));
    }
    lemma_sum_shifted(corners, signed, 1, n - 1, 1);
}

/// The determinant of a matrix of side 2 or more is its expansion along the
/// first column.
pub proof fn lemma_along_first_column<T: Scalar>(g: Grid<T>)
    requires
        commutative_ring::<T>(),
        g.wf(),
        g.square(),
        g.rows >= 2,
    ensures
        det(g) == along_column(g, 1),
    decreases g.rows,
{
    let n = g.rows as int;
    let along_the_row = |j: int| term(g, 1, j);
    let along_the_column = |i: int| term(g, i, 1);
    lemma_along_first_row(g);
    if g.rows == 2 {
        lemma_sum_of_two(along_the_row);
        lemma_sum_of_two(along_the_column);
        lemma_without_shape(g, 1, 2);
        lemma_without_shape(g, 2, 1);
        lemma_without_at(g, 1, 2, 1, 1);
        lemma_without_at(g, 2, 1, 1, 1);
        lemma_det_of_side_1(g.without(1, 2));
        lemma_det_of_side_1(g.without(2, 1));
        lemma_mul_commutes(g.at(1, 2), g.at(2, 1));
        assert(along_row(g, 1) == sum_over(along_the_row, 1, n));
        assert(along_column(g, 1) == sum_over(along_the_column, 1, n));
        assert(along_the_row(2) == along_the_column(2));
    } else {
        let corners = |i: int, j: int| corner_term(g, i, j);
        let by_rows = |i: int| inner_sum(corners, i, 2, n);
        let by_columns = |j: int| outer_sum(corners, j, 2, n);
        assert forall|j: int| 2 <= j <= n implies #[trigger] along_the_row(j) == by_columns(j) by {
            lemma_without_shape(g, 1, j);
            lemma_along_first_column(g.without(1, j));
            lemma_row_term_by_corners(g, j);
            lemma_sum_same(|i: int| corner_term(g, i, j), |i: int| corners(i, j), 2, n);
        }
        assert forall|i: int| 2 <= i <= n implies #[trigger] along_the_column(i) == by_rows(i) by {
            lemma_column_term_by_corners(g, i);
            lemma_sum_same(|j: int| corner_term(g, i, j), |j: int| corners(i, j), 2, n);
        }
        lemma_sum_same(along_the_row, by_columns, 2, n);
        lemma_sum_same(along_the_column, by_rows, 2, n);
        lemma_sum_swap(corners, 2, n, 2, n);
        assert(sum_over(by_rows, 2, n) == sum_over(by_columns, 2, n));
        lemma_sum_split(along_the_row, 1, 1, n);
        lemma_sum_split(along_the_column, 1, 1, n);
        lemma_sum_single(along_the_row, 1);
        lemma_sum_single(along_the_column, 1);
        assert(along_row(g, 1) == sum_over(along_the_row, 1, n));
        assert(along_column(g, 1) == sum_over(along_the_column, 1, n));
    }
}

/// The determinant of the transpose is the determinant of the matrix.
pub proof fn lemma_det_of_transpose<T: Scalar>(g: Grid<T>)
    requires
        commutative_ring::<T>(),
        g.wf(),
        g.square(),
    ensures
        det(g.transpose()) == det(g),
    decreases g.rows,
{
    let t = g.transpose();
    let n = g.rows as int;
    lemma_transpose_shape(g);
    if g.rows == 0 {
    } else if g.rows == 1 {
        lemma_transpose_at(g, 1, 1);
    } else {
        lemma_along_first_row(t);
        lemma_along_first_column(g);
        let across = |j: int| term(t, 1, j);
        let down = |i: int| term(g, i, 1);
        assert forall|j: int| 1 <= j <= n implies #[trigger] across(j) == down(j) by {
            lemma_transpose_at(g, 1, j);
            lemma_without_transpose(g, j, 1);
            lemma_without_shape(g, j, 1);
            lemma_det_of_transpose(g.without(j, 1));
        }
        lemma_sum_same(across, down, 1, n);
    }
}

/// The column of a matrix without column `j` that column `k` of the full
/// matrix has become.
pub open spec fn moved(k: int, j: int) -> int {
    if k > j {
        k - 1
    } else {
        k
    }
}

/// The term that the cells `(1, j)` and `(row, k)` of different columns have
/// in common when the first row and the row `row` are both expanded: their
/// product times the determinant of the matrix without the two rows and the
/// two columns, with the sign of `row + j + k`, reversed where `j < k`.
pub open spec fn pair_term<T: Scalar>(g: Grid<T>, row: int, j: int, k: int) -> T {
    with_sign(
        row + j + k + if j < k {
            1int
        } else {
            0int
        },
        g.at(1, j).mul_spec(
            g.at(row, k).mul_spec(det(g.without(1, j).without(row - 1, moved(k, j)))),
        ),
    )
}

/// The common term of two cells of different columns, and zero for two
/// cells of one column.
pub open spec fn pair_or_zero<T: Scalar>(g: Grid<T>, row: int, j: int, k: int) -> T {
    if j == k {
        zero::<T>()
    } else {
        pair_term(g, row, j, k)
    }
}

/// A cofactor term of the first row is the sum of the terms that it has in
/// common with the cells of another row.
proof fn lemma_first_row_term_by_pairs<T: Scalar>(g: Grid<T>, row: int, j: int)
    requires
        commutative_ring::<T>(),
        g.wf(),
        g.square(),
        g.rows >= 3,
        2 <= row <= g.rows,
        1 <= j <= g.rows,
        det(g.without(1, j)) == along_row(g.without(1, j), row - 1),
    ensures
        term(g, 1, j) == sum_over(|k: int| pair_or_zero(g, row, j, k), 1, g.rows as int),
{
    let n = g.rows as int;
    let m = g.without(1, j);
    lemma_without_shape(g, 1, j);
    let x = g.at(1, j);
    let inner = |k: int| term(m, row - 1, k);
    let scaled = |k: int| x.mul_spec(inner(k));
    let signed = |k: int| with_sign(1 + j, scaled(k));
    let pairs = |k: int| pair_term(g, row, j, k);
    let all = |k: int| pair_or_zero(g, row, j, k);
    lemma_sum_scaled_left(x, inner, scaled, 1, n - 1);
    lemma_sum_signed(1 + j, scaled, signed, 1, n - 1);
    assert forall|k: int| 1 <= k <= n - 1 implies #[trigger] signed(k) == pairs(skipping(k, j)) by {
        let y = g.at(row, skipping(k, j));
        let d = det(m.without(row - 1, k));
        lemma_without_at(g, 1, j, row - 1, k);
        lemma_signed_products(1 + j, row - 1 + k, x, y, d);
        lemma_same_parity(
            1 + j + (row - 1 + k),
            row + j + skipping(k, j) + if j < skipping(k, j) {
                1int
            } else {
                0int
            },
            x.mul_spec(y.mul_spec(d)),
        );
    }
    lemma_sum_skipping(pairs, signed, all, j, n);
}

/// A cofactor term of a row below the first is the sum of the terms that it
/// has in common with the cells of the first row.
proof fn lemma_row_term_by_pairs<T: Scalar>(g: Grid<T>, row: int, k: int)
    requires
        commutative_ring::<T>(),
        g.wf(),
        g.square(),
        g.rows >= 3,
        2 <= row <= g.rows,
        1 <= k <= g.rows,
    ensures
        term(g, row, k) == sum_over(|j: int| pair_or_zero(g, row, j, k), 1, g.rows as int),
{
    let n = g.rows as int;
    let m = g.without(row, k);
    lemma_without_shape(g, row, k);
    lemma_along_first_row(m);
    let x = g.at(row, k);
    let inner = |j: int| term(m, 1, j);
    let scaled = |j: int| x.mul_spec(inner(j));
    let signed = |j: int| with_sign(row + k, scaled(j));
    let pairs = |j: int| pair_term(g, row, j, k);
    let all = |j: int| pair_or_zero(g, row, j, k);
    lemma_sum_scaled_left(x, inner, scaled, 1, n - 1);
    lemma_sum_signed(row + k, scaled, signed, 1, n - 1);
    assert forall|i: int| 1 <= i <= n - 1 implies #[trigger] signed(i) == pairs(skipping(i, k)) by {
        let j = skipping(i, k);
        let y = g.at(1, j);
        let d = det(m.without(1, i));
        lemma_without_at(g, row, k, 1, i);
        lemma_without_commutes(g, 1, j, row - 1, moved(k, j), 1, i);
        lemma_signed_products(row + k, 1 + i, x, y, d);
        lemma_same_parity(
            row + k + (1 + i),
            row + j + k + if j < k {
                1int
            } else {
                0int
            },
            y.mul_spec(x.mul_spec(d)),
        );
    }
    lemma_sum_skipping(pairs, signed, all, k, n);
}

/// The determinant of a matrix of side 2 or more is its expansion along any
/// of its rows.
pub proof fn lemma_along_row<T: Scalar>(g: Grid<T>, row: int)
    requires
        commutative_ring::<T>(),
        g.wf(),
        g.square(),
        g.rows >= 2,
        1 <= row <= g.rows,
    ensures
        det(g) == along_row(g, row),
    decreases g.rows,
{
    let n = g.rows as int;
    let first = |j: int| term(g, 1, j);
    let other = |k: int| term(g, row, k);
    lemma_along_first_row(g);
    if row == 1 {
    } else if g.rows == 2 {
        lemma_sum_of_two(first);
        lemma_sum_of_two(other);
        lemma_without_shape(g, 1, 1);
        lemma_without_shape(g, 1, 2);
        lemma_without_shape(g, 2, 1);
        lemma_without_shape(g, 2, 2);
        lemma_without_at(g, 1, 1, 1, 1);
        lemma_without_at(g, 1, 2, 1, 1);
        lemma_without_at(g, 2, 1, 1, 1);
        lemma_without_at(g, 2, 2, 1, 1);
        lemma_det_of_side_1(g.without(1, 1));
        lemma_det_of_side_1(g.without(1, 2));
        lemma_det_of_side_1(g.without(2, 1));
        lemma_det_of_side_1(g.without(2, 2));
        lemma_mul_commutes(g.at(1, 1), g.at(2, 2));
        lemma_mul_commutes(g.at(1, 2), g.at(2, 1));
        lemma_add_commutes(first(1), first(2));
        assert(first(1) == other(2));
        assert(first(2) == other(1));
        assert(along_row(g, 1) == sum_over(first, 1, n));
        assert(along_row(g, row) == sum_over(other, 1, n));
    } else {
        let pairs = |j: int, k: int| pair_or_zero(g, row, j, k);
        let by_first = |j: int| inner_sum(pairs, j, 1, n);
        let by_other = |k: int| outer_sum(pairs, k, 1, n);
        assert forall|j: int| 1 <= j <= n implies #[trigger] first(j) == by_first(j) by {
            lemma_without_shape(g, 1, j);
            lemma_along_row(g.without(1, j), row - 1);
            lemma_first_row_term_by_pairs(g, row, j);
            lemma_sum_same(|k: int| pair_or_zero(g, row, j, k), |k: int| pairs(j, k), 1, n);
        }
        assert forall|k: int| 1 <= k <= n implies #[trigger] other(k) == by_other(k) by {
            lemma_row_term_by_pairs(g, row, k);
            lemma_sum_same(|j: int| pair_or_zero(g, row, j, k), |j: int| pairs(j, k), 1, n);
        }
        lemma_sum_same(first, by_first, 1, n);
        lemma_sum_same(other, by_other, 1, n);
        lemma_sum_swap(pairs, 1, n, 1, n);
        assert(sum_over(by_first, 1, n) == sum_over(by_other, 1, n));
        assert(along_row(g, 1) == sum_over(first, 1, n));
        assert(along_row(g, row) == sum_over(other, 1, n));
    }
}

/// The determinant of a matrix of side 2 or more is its expansion along any
/// of its columns.
pub proof fn lemma_along_column<T: Scalar>(g: Grid<T>, col: int)
    requires
        commutative_ring::<T>(),
        g.wf(),
        g.square(),
        g.rows >= 2,
        1 <= col <= g.rows,
    ensures
        det(g) == along_column(g, col),
{
    let t = g.transpose();
    let n = g.rows as int;
    lemma_transpose_shape(g);
    lemma_det_of_transpose(g);
    lemma_along_row(t, col);
    let across = |i: int| term(t, col, i);
    let down = |i: int| term(g, i, col);
    assert forall|i: int| 1 <= i <= n implies #[trigger] across(i) == down(i) by {
        lemma_transpose_at(g, col, i);
        lemma_without_transpose(g, i, col);
        lemma_without_shape(g, i, col);
        lemma_det_of_transpose(g.without(i, col));
        lemma_same_parity(col + i, i + col, g.at(i, col).mul_spec(det(g.without(i, col))));
    }
    lemma_sum_same(across, down, 1, n);
}

/// The determinant of a square matrix of side 2 or more equals its cofactor
/// expansion along any row and along any column, where the arithmetic of the
/// elements is exact and obeys the laws of a commutative ring.
pub proof fn lemma_determinant_along_any_row_and_column<T: Scalar>(
    g: Grid<T>,
    r: T,
    row: int,
    col: int,
)
    requires
        exact::<T>(),
        commutative_ring::<T>(),
        g.wf(),
        g.square(),
        g.rows >= 2,
        g.has(row, col),
        evaluates(det_formula(g), r),
    ensures
        r == along_row(g, row),
        r == along_column(g, col),
{
    lemma_exact_value(det_formula(g), r);
    lemma_along_row(g, row);
    lemma_along_column(g, col);
}

} // verus!
