//! The characteristic polynomial `det(A - xI)`.

use vstd::prelude::*;
use crate::arith::{
    copy, copy_of, defined, diff, evaluates, exact, lemma_exact_copy, lemma_exact_value, prod, sum,
    total, Formula, Scalar,
};
use crate::matrix::determinant::{
    cofactor_term, det_formula, expansion, lemma_minor_cell, lemma_minor_shape, skipping, triple,
};
use crate::matrix::{lemma_cell_place, lemma_offset_bounds, Grid, Matrix};
use vstd::std_specs::convert::FromSpec;
use crate::polynomials::formulas::{
    coefficients_of, lemma_exact_coefficients, lemma_safe_coefficients_defined, over_coefficients,
    safe_coefficients,
    constant_terms, lemma_constant_term, lemma_polynomials_defined, length_of, nonempty,
    producible,
};
use crate::polynomials::Pol;

verus! {

/// `p` stands for the cell `v` in `A - xI`: `v - x` on the diagonal, with
/// `-1` made from the integer by `From`, and the constant `v` elsewhere.
pub open spec fn characteristic_entry<T: Scalar + From<i8>>(v: T, diagonal: bool, p: Pol<T>) -> bool {
    &&& p@.len() == if diagonal { 2nat } else { 1nat }
    &&& copy_of(v, p@[0])
    &&& diagonal ==> call_ensures(<T as From<i8>>::from, (-1i8,), p@[1])
}

impl<T: Scalar + From<i8>> Grid<T> {
    /// `pm` is the matrix `A - xI` of polynomials, where `A` is `self`.
    pub open spec fn characteristic(self, pm: Grid<Pol<T>>) -> bool {
        &&& pm.wf()
        &&& pm.rows == self.rows
        &&& pm.cols == self.cols
        &&& forall|i: int, j: int|
            self.has(i, j) ==> characteristic_entry(self.at(i, j), i == j, #[trigger] pm.at(i, j))
    }
}

impl<T: Scalar + From<i8>> Matrix<T> {
    /// Calculate the characteristic polynomial
    ///
    /// The result is the determinant of `A - xI`, a matrix of polynomials,
    /// computed with the arithmetic of polynomials. That determinant has to
    /// be defined; `lemma_characteristic_defined` shows that it is where the
    /// operators of `T` have no preconditions, `lemma_characteristic_safe`
    /// where they are exact. For exact operators
    /// `lemma_characteristic_coefficients` gives the coefficients of the
    /// result.
    pub fn pol(&self) -> (p: Pol<T>)
        requires
            self@.wf(),
            self@.square(),
            forall|pm: Grid<Pol<T>>| #[trigger] self@.characteristic(pm) ==> defined(det_formula(pm)),
        ensures
            exists|pm: Grid<Pol<T>>| #[trigger] self@.characteristic(pm) && evaluates(det_formula(pm), p),
    {
        let n = self.n_row;
        let ghost g = self@;
        let mut cells: Vec<Pol<T>> = Vec::new();
        let mut i: usize = 0;
        while i < n
            invariant
                g == self@,
                g.wf(),
                g.square(),
                n == g.rows,
                i <= n,
                cells@.len() == i * n,
                forall|a: int, b: int|
                    1 <= a <= i && 1 <= b <= n ==> characteristic_entry(
                        g.at(a, b),
                        a == b,
                        #[trigger] (Grid { rows: n as nat, cols: n as nat, cells: cells@ }).at(a, b),
                    ),
            decreases n - i,
        {
            let mut j: usize = 0;
            while j < n
                invariant
                    g == self@,
                    g.wf(),
                    g.square(),
                    n == g.rows,
                    i < n,
                    j <= n,
                    cells@.len() == i * n + j,
                    forall|a: int, b: int|
                        1 <= a <= i + 1 && 1 <= b <= n && (a <= i || b <= j)
                            ==> characteristic_entry(
                            g.at(a, b),
                            a == b,
                            #[trigger] (Grid { rows: n as nat, cols: n as nat, cells: cells@ }).at(a, b),
                        ),
                decreases n - j,
            {
                let ghost before = cells@;
                let mut coefficients: Vec<T> = Vec::new();
                coefficients.push(copy(self.get(i + 1, j + 1)));
                if i == j {
                    coefficients.push(T::from(-1i8));
                }
                let entry = Pol::new(coefficients);
                cells.push(entry);
                proof {
                    let now = Grid { rows: n as nat, cols: n as nat, cells: cells@ };
                    let was = Grid { rows: n as nat, cols: n as nat, cells: before };
                    assert forall|a: int, b: int|
                        1 <= a <= i + 1 && 1 <= b <= n && (a <= i || b <= j + 1)
                            implies characteristic_entry(g.at(a, b), a == b, #[trigger] now.at(a, b)) by {
                        assert((a - 1) * n + (b - 1) <= i * n + j) by (nonlinear_arith)
                            requires
                                1 <= a <= i + 1,
                                1 <= b <= n,
                                a <= i || b <= j + 1,
                        ;
                        if a <= i || b <= j {
                            assert((a - 1) * n + (b - 1) < i * n + j) by (nonlinear_arith)
                                requires
                                    1 <= a <= i + 1,
                                    1 <= b <= n,
                                    a <= i || b <= j,
                            ;
                            assert(now.at(a, b) == was.at(a, b));
                        } else {
                            assert(a == i + 1 && b == j + 1);
                            assert(now.at(a, b) == cells@[i * n + j]);
                        }
                    }
                }
                j = j + 1;
            }
            proof {
                assert((i + 1) * n == i * n + n) by (nonlinear_arith);
            }
            i = i + 1;
        }
        let minus_identity = Matrix { mat: cells, n_row: n, n_col: n };
        proof {
            assert(minus_identity@.cells.len() == n * n);
            assert(g.characteristic(minus_identity@));
        }
        minus_identity.determinant()
    }
}

/// Each cell of `pm` is a polynomial of one or two coefficients.
pub open spec fn linear_cells<T>(pm: Grid<Pol<T>>) -> bool {
    forall|q: int| 0 <= q < pm.cells.len() ==> 1 <= (#[trigger] pm.cells[q])@.len() <= 2
}

proof fn lemma_linear_cell<T>(pm: Grid<Pol<T>>, row: int, col: int)
    requires
        pm.wf(),
        pm.has(row, col),
        linear_cells(pm),
    ensures
        1 <= pm.at(row, col)@.len() <= 2,
        producible(Formula::Val(pm.at(row, col))),
        length_of(Formula::Val(pm.at(row, col))) == pm.at(row, col)@.len(),
{
    lemma_offset_bounds(pm, row, col);
}

proof fn lemma_linear_minor<T>(pm: Grid<Pol<T>>, col: int)
    requires
        pm.wf(),
        pm.square(),
        pm.has(1, col),
        linear_cells(pm),
    ensures
        linear_cells(pm.minor(col)),
{
    let m = pm.minor(col);
    assert forall|q: int| 0 <= q < m.cells.len() implies 1 <= (#[trigger] m.cells[q])@.len()
        <= 2 by {
        lemma_minor_cell(pm, col, q);
    }
}

proof fn lemma_linear_triple<T>(
    pm: Grid<Pol<T>>,
    r1: int,
    c1: int,
    r2: int,
    c2: int,
    r3: int,
    c3: int,
)
    requires
        pm.wf(),
        pm.has(r1, c1),
        pm.has(r2, c2),
        pm.has(r3, c3),
        linear_cells(pm),
        usize::MAX >= 4,
    ensures
        producible(triple(pm.at(r1, c1), pm.at(r2, c2), pm.at(r3, c3))),
        1 <= length_of(triple(pm.at(r1, c1), pm.at(r2, c2), pm.at(r3, c3))) <= 4,
{
    lemma_linear_cell(pm, r1, c1);
    lemma_linear_cell(pm, r2, c2);
    lemma_linear_cell(pm, r3, c3);
    let ab = prod(Formula::Val(pm.at(r1, c1)), Formula::Val(pm.at(r2, c2)));
    assert(producible(ab) && 1 <= length_of(ab) <= 3);
}

/// The determinant of a square matrix of polynomials with one or two
/// coefficients each can be produced, and has at most one coefficient more
/// than the matrix has rows.
pub proof fn lemma_linear_determinant<T>(pm: Grid<Pol<T>>)
    requires
        pm.wf(),
        pm.square(),
        pm.rows < usize::MAX,
        linear_cells(pm),
    ensures
        producible(det_formula(pm)),
        1 <= length_of(det_formula(pm)) <= pm.rows + 1,
    decreases pm.rows, 2int, 0int,
{
    if pm.rows == 0 {
    } else if pm.rows == 1 {
        lemma_linear_cell(pm, 1, 1);
    } else if pm.rows == 2 {
        lemma_linear_cell(pm, 1, 1);
        lemma_linear_cell(pm, 1, 2);
        lemma_linear_cell(pm, 2, 1);
        lemma_linear_cell(pm, 2, 2);
        let ad = prod(Formula::Val(pm.at(1, 1)), Formula::Val(pm.at(2, 2)));
        let bc = prod(Formula::Val(pm.at(1, 2)), Formula::Val(pm.at(2, 1)));
        assert(producible(ad) && 1 <= length_of(ad) <= 3);
        assert(producible(bc) && 1 <= length_of(bc) <= 3);
    } else if pm.rows == 3 {
        lemma_linear_triple(pm, 1, 1, 2, 2, 3, 3);
        lemma_linear_triple(pm, 1, 2, 2, 3, 3, 1);
        lemma_linear_triple(pm, 1, 3, 2, 1, 3, 2);
        lemma_linear_triple(pm, 3, 1, 2, 2, 1, 3);
        lemma_linear_triple(pm, 3, 2, 2, 3, 1, 1);
        lemma_linear_triple(pm, 3, 3, 2, 1, 1, 2);
        let t1 = triple(pm.at(1, 1), pm.at(2, 2), pm.at(3, 3));
        let t2 = triple(pm.at(1, 2), pm.at(2, 3), pm.at(3, 1));
        let t3 = triple(pm.at(1, 3), pm.at(2, 1), pm.at(3, 2));
        let t4 = triple(pm.at(3, 1), pm.at(2, 2), pm.at(1, 3));
        let t5 = triple(pm.at(3, 2), pm.at(2, 3), pm.at(1, 1));
        let t6 = triple(pm.at(3, 3), pm.at(2, 1), pm.at(1, 2));
        let s2 = sum(t1, t2);
        assert(producible(s2) && 1 <= length_of(s2) <= 4);
        let s3 = sum(s2, t3);
        assert(producible(s3) && 1 <= length_of(s3) <= 4);
        let s4 = diff(s3, t4);
        assert(producible(s4) && 1 <= length_of(s4) <= 4);
        let s5 = diff(s4, t5);
        assert(producible(s5) && 1 <= length_of(s5) <= 4);
        assert(det_formula(pm) == diff(s5, t6));
    } else {
        lemma_linear_expansion(pm, pm.rows);
    }
}

proof fn lemma_linear_term<T>(pm: Grid<Pol<T>>, col: nat)
    requires
        pm.wf(),
        pm.square(),
        pm.rows < usize::MAX,
        pm.has(1, col as int),
        linear_cells(pm),
    ensures
        producible(cofactor_term(pm, col)),
        1 <= length_of(cofactor_term(pm, col)) <= pm.rows + 1,
    decreases pm.rows, 0int, 0int,
{
    lemma_linear_cell(pm, 1, col as int);
    lemma_minor_shape(pm, col as int);
    lemma_linear_minor(pm, col as int);
    lemma_linear_determinant(pm.minor(col as int));
    let t = prod(Formula::Val(pm.at(1, col as int)), det_formula(pm.minor(col as int)));
    assert(producible(t) && 1 <= length_of(t) <= pm.rows + 1);
}

proof fn lemma_linear_expansion<T>(pm: Grid<Pol<T>>, upto: nat)
    requires
        pm.wf(),
        pm.square(),
        pm.rows < usize::MAX,
        1 <= upto <= pm.rows,
        linear_cells(pm),
    ensures
        producible(expansion(pm, upto)),
        1 <= length_of(expansion(pm, upto)) <= pm.rows + 1,
    decreases pm.rows, 1int, upto,
{
    lemma_linear_term(pm, upto);
    if upto > 1 {
        lemma_linear_expansion(pm, (upto - 1) as nat);
    }
}

/// The determinant of `A - xI` can be computed where the arithmetic of the
/// elements of `A` is total.
pub proof fn lemma_characteristic_defined<T: Scalar + From<i8>>(g: Grid<T>, pm: Grid<Pol<T>>)
    requires
        total::<T>(),
        g.wf(),
        g.square(),
        g.rows < usize::MAX,
        g.characteristic(pm),
    ensures
        defined(det_formula(pm)),
{
    lemma_characteristic_linear(g, pm);
    lemma_linear_determinant(pm);
    lemma_polynomials_defined(det_formula(pm));
}

proof fn lemma_characteristic_linear<T: Scalar + From<i8>>(g: Grid<T>, pm: Grid<Pol<T>>)
    requires
        g.wf(),
        g.square(),
        g.characteristic(pm),
    ensures
        linear_cells(pm),
{
    let n = g.rows as int;
    assert forall|q: int| 0 <= q < pm.cells.len() implies 1 <= (#[trigger] pm.cells[q])@.len()
        <= 2 by {
        lemma_cell_place(pm, q);
        let i = q / n + 1;
        let j = q % n + 1;
        assert(characteristic_entry(g.at(i, j), i == j, pm.at(i, j)));
    }
}

/// The matrix of the constant terms of a matrix of polynomials.
pub open spec fn constant_grid<T>(pm: Grid<Pol<T>>) -> Grid<T> {
    Grid { rows: pm.rows, cols: pm.cols, cells: Seq::new(pm.cells.len(), |q: int| pm.cells[q]@[0]) }
}

proof fn lemma_constant_cell<T>(pm: Grid<Pol<T>>, row: int, col: int)
    requires
        pm.wf(),
        pm.has(row, col),
    ensures
        constant_grid(pm).at(row, col) == pm.at(row, col)@[0],
{
    lemma_offset_bounds(pm, row, col);
}

proof fn lemma_constant_minor<T>(pm: Grid<Pol<T>>, col: int)
    requires
        pm.wf(),
        pm.square(),
        pm.has(1, col),
    ensures
        constant_grid(pm.minor(col)) == constant_grid(pm).minor(col),
{
    let a = constant_grid(pm.minor(col));
    let b = constant_grid(pm).minor(col);
    assert(a.cells.len() == b.cells.len());
    assert forall|q: int| 0 <= q < a.cells.len() implies a.cells[q] == b.cells[q] by {
        lemma_minor_cell(pm, col, q);
        let n = pm.rows - 1;
        lemma_constant_cell(pm, q / n + 2, skipping(q % n + 1, col));
    }
    assert(a.cells =~= b.cells);
}

/// The determinant formula of a matrix of polynomials, taken over the
/// constant terms, is the determinant formula of the matrix of the constant
/// terms.
pub proof fn lemma_constant_determinant<T>(pm: Grid<Pol<T>>)
    requires
        pm.wf(),
        pm.square(),
    ensures
        constant_terms(det_formula(pm)) == det_formula(constant_grid(pm)),
    decreases pm.rows, 2int, 0int,
{
    let cg = constant_grid(pm);
    if pm.rows == 0 {
    } else if pm.rows == 1 {
        lemma_constant_cell(pm, 1, 1);
    } else if pm.rows == 2 {
        lemma_constant_cell(pm, 1, 1);
        lemma_constant_cell(pm, 1, 2);
        lemma_constant_cell(pm, 2, 1);
        lemma_constant_cell(pm, 2, 2);
        reveal_with_fuel(constant_terms, 3);
    } else if pm.rows == 3 {
        lemma_constant_cell(pm, 1, 1);
        lemma_constant_cell(pm, 1, 2);
        lemma_constant_cell(pm, 1, 3);
        lemma_constant_cell(pm, 2, 1);
        lemma_constant_cell(pm, 2, 2);
        lemma_constant_cell(pm, 2, 3);
        lemma_constant_cell(pm, 3, 1);
        lemma_constant_cell(pm, 3, 2);
        lemma_constant_cell(pm, 3, 3);
        reveal_with_fuel(constant_terms, 8);
    } else {
        lemma_constant_expansion(pm, pm.rows);
    }
}

proof fn lemma_constant_term_of_column<T>(pm: Grid<Pol<T>>, col: nat)
    requires
        pm.wf(),
        pm.square(),
        pm.has(1, col as int),
    ensures
        constant_terms(cofactor_term(pm, col)) == cofactor_term(constant_grid(pm), col),
    decreases pm.rows, 0int, 0int,
{
    lemma_constant_cell(pm, 1, col as int);
    lemma_minor_shape(pm, col as int);
    lemma_constant_minor(pm, col as int);
    lemma_constant_determinant(pm.minor(col as int));
    reveal_with_fuel(constant_terms, 3);
}

proof fn lemma_constant_expansion<T>(pm: Grid<Pol<T>>, upto: nat)
    requires
        pm.wf(),
        pm.square(),
        1 <= upto <= pm.rows,
    ensures
        constant_terms(expansion(pm, upto)) == expansion(constant_grid(pm), upto),
    decreases pm.rows, 1int, upto,
{
    lemma_constant_term_of_column(pm, upto);
    if upto > 1 {
        lemma_constant_expansion(pm, (upto - 1) as nat);
    }
}

/// Each polynomial in the determinant formula of a matrix of polynomials has
/// a coefficient where each cell of the matrix has.
proof fn lemma_nonempty_determinant<T>(pm: Grid<Pol<T>>)
    requires
        pm.wf(),
        pm.square(),
        pm.rows < usize::MAX,
        linear_cells(pm),
    ensures
        nonempty(det_formula(pm)),
{
    lemma_linear_determinant(pm);
    lemma_producible_nonempty(det_formula(pm));
}

proof fn lemma_producible_nonempty<T>(f: Formula<Pol<T>>)
    requires
        producible(f),
    ensures
        nonempty(f),
    decreases f,
{
    match f {
        Formula::Val(_) => {},
        Formula::Zero => {},
        Formula::Neg(a) => {
            lemma_producible_nonempty(*a);
        },
        Formula::Add(a, b) => {
            lemma_producible_nonempty(*a);
            lemma_producible_nonempty(*b);
        },
        Formula::Sub(a, b) => {
            lemma_producible_nonempty(*a);
            lemma_producible_nonempty(*b);
        },
        Formula::Mul(a, b) => {
            lemma_producible_nonempty(*a);
            lemma_producible_nonempty(*b);
        },
    }
}

/// The characteristic polynomial at `x = 0`, that is its constant term, is
/// the determinant of the matrix, where the arithmetic of the elements is
/// exact.
pub proof fn lemma_characteristic_at_zero<T: Scalar + From<i8>>(
    g: Grid<T>,
    pm: Grid<Pol<T>>,
    p: Pol<T>,
    d: T,
)
    requires
        exact::<T>(),
        g.wf(),
        g.square(),
        g.rows < usize::MAX,
        g.characteristic(pm),
        evaluates(det_formula(pm), p),
        evaluates(det_formula(g), d),
    ensures
        p@.len() >= 1,
        p@[0] == d,
{
    lemma_characteristic_linear(g, pm);
    lemma_nonempty_determinant(pm);
    lemma_constant_term(det_formula(pm), p);
    lemma_constant_determinant(pm);
    let cg = constant_grid(pm);
    let n = g.rows as int;
    assert forall|q: int| 0 <= q < g.cells.len() implies cg.cells[q] == g.cells[q] by {
        lemma_cell_place(g, q);
        let i = q / n + 1;
        let j = q % n + 1;
        assert(characteristic_entry(g.at(i, j), i == j, pm.at(i, j)));
        lemma_exact_copy(g.at(i, j), pm.at(i, j)@[0]);
    }
    assert(cg.cells =~= g.cells);
    assert(cg == g);
    lemma_exact_value(det_formula(g), d);
}

/// The matrix of the coefficient sequences of a matrix of polynomials.
pub open spec fn coefficient_grid<T>(pm: Grid<Pol<T>>) -> Grid<Seq<T>> {
    Grid { rows: pm.rows, cols: pm.cols, cells: Seq::new(pm.cells.len(), |q: int| pm.cells[q]@) }
}

proof fn lemma_coefficient_cell<T>(pm: Grid<Pol<T>>, row: int, col: int)
    requires
        pm.wf(),
        pm.has(row, col),
    ensures
        coefficient_grid(pm).at(row, col) == pm.at(row, col)@,
{
    lemma_offset_bounds(pm, row, col);
}

proof fn lemma_coefficient_minor<T>(pm: Grid<Pol<T>>, col: int)
    requires
        pm.wf(),
        pm.square(),
        pm.has(1, col),
    ensures
        coefficient_grid(pm.minor(col)) == coefficient_grid(pm).minor(col),
{
    let a = coefficient_grid(pm.minor(col));
    let b = coefficient_grid(pm).minor(col);
    assert(a.cells.len() == b.cells.len());
    assert forall|q: int| 0 <= q < a.cells.len() implies a.cells[q] == b.cells[q] by {
        lemma_minor_cell(pm, col, q);
        let n = pm.rows - 1;
        lemma_coefficient_cell(pm, q / n + 2, skipping(q % n + 1, col));
    }
    assert(a.cells =~= b.cells);
}

/// The determinant formula of a matrix of polynomials, taken over the
/// coefficients, is the determinant formula of the matrix of the coefficient
/// sequences.
pub proof fn lemma_coefficient_determinant<T>(pm: Grid<Pol<T>>)
    requires
        pm.wf(),
        pm.square(),
    ensures
        over_coefficients(det_formula(pm)) == det_formula(coefficient_grid(pm)),
    decreases pm.rows, 2int, 0int,
{
    if pm.rows == 0 {
    } else if pm.rows == 1 {
        lemma_coefficient_cell(pm, 1, 1);
    } else if pm.rows == 2 {
        lemma_coefficient_cell(pm, 1, 1);
        lemma_coefficient_cell(pm, 1, 2);
        lemma_coefficient_cell(pm, 2, 1);
        lemma_coefficient_cell(pm, 2, 2);
        reveal_with_fuel(over_coefficients, 3);
    } else if pm.rows == 3 {
        lemma_coefficient_cell(pm, 1, 1);
        lemma_coefficient_cell(pm, 1, 2);
        lemma_coefficient_cell(pm, 1, 3);
        lemma_coefficient_cell(pm, 2, 1);
        lemma_coefficient_cell(pm, 2, 2);
        lemma_coefficient_cell(pm, 2, 3);
        lemma_coefficient_cell(pm, 3, 1);
        lemma_coefficient_cell(pm, 3, 2);
        lemma_coefficient_cell(pm, 3, 3);
        reveal_with_fuel(over_coefficients, 8);
    } else {
        lemma_coefficient_expansion(pm, pm.rows);
    }
}

proof fn lemma_coefficient_term<T>(pm: Grid<Pol<T>>, col: nat)
    requires
        pm.wf(),
        pm.square(),
        pm.has(1, col as int),
    ensures
        over_coefficients(cofactor_term(pm, col)) == cofactor_term(coefficient_grid(pm), col),
    decreases pm.rows, 0int, 0int,
{
    lemma_coefficient_cell(pm, 1, col as int);
    lemma_minor_shape(pm, col as int);
    lemma_coefficient_minor(pm, col as int);
    lemma_coefficient_determinant(pm.minor(col as int));
    reveal_with_fuel(over_coefficients, 3);
}

proof fn lemma_coefficient_expansion<T>(pm: Grid<Pol<T>>, upto: nat)
    requires
        pm.wf(),
        pm.square(),
        1 <= upto <= pm.rows,
    ensures
        over_coefficients(expansion(pm, upto)) == expansion(coefficient_grid(pm), upto),
    decreases pm.rows, 1int, upto,
{
    lemma_coefficient_term(pm, upto);
    if upto > 1 {
        lemma_coefficient_expansion(pm, (upto - 1) as nat);
    }
}

/// The matrix `A - xI` as coefficient sequences: `[a, -1]` on the diagonal
/// and `[a]` elsewhere, where `-1` is what `From` makes of the integer.
pub open spec fn minus_identity<T: Scalar + From<i8>>(g: Grid<T>) -> Grid<Seq<T>> {
    let n = g.cols as int;
    Grid {
        rows: g.rows,
        cols: g.cols,
        cells: Seq::new(
            g.cells.len(),
            |q: int|
                if q / n == q % n {
                    seq![g.cells[q], T::from_spec(-1i8)]
                } else {
                    seq![g.cells[q]]
                },
        ),
    }
}

/// The coefficients of the characteristic polynomial under exact
/// arithmetic: the determinant of `A - xI`.
pub open spec fn characteristic_coefficients<T: Scalar + From<i8>>(g: Grid<T>) -> Seq<T> {
    coefficients_of(det_formula(minus_identity(g)))
}

/// What `A - xI` is as coefficient sequences, each matrix of polynomials
/// that stands for it is.
proof fn lemma_minus_identity<T: Scalar + From<i8>>(g: Grid<T>, pm: Grid<Pol<T>>)
    requires
        exact::<T>(),
        T::obeys_from_spec(),
        g.wf(),
        g.square(),
        g.characteristic(pm),
    ensures
        coefficient_grid(pm) == minus_identity(g),
{
    let cg = coefficient_grid(pm);
    let mi = minus_identity(g);
    let n = g.cols as int;
    assert forall|q: int| 0 <= q < g.cells.len() implies cg.cells[q] == mi.cells[q] by {
        lemma_cell_place(g, q);
        let i = q / n + 1;
        let j = q % n + 1;
        let cell = pm.at(i, j);
        assert(characteristic_entry(g.at(i, j), i == j, cell));
        lemma_exact_copy(g.at(i, j), cell@[0]);
        assert(cell@ =~= mi.cells[q]);
    }
    assert(cg.cells =~= mi.cells);
}

/// The determinant of `A - xI` can be computed where the arithmetic of the
/// elements of `A` is exact and each operation on coefficients that it takes
/// is safe.
pub proof fn lemma_characteristic_safe<T: Scalar + From<i8>>(g: Grid<T>, pm: Grid<Pol<T>>)
    requires
        exact::<T>(),
        T::obeys_from_spec(),
        g.wf(),
        g.square(),
        g.characteristic(pm),
        safe_coefficients(det_formula(minus_identity(g))),
    ensures
        defined(det_formula(pm)),
{
    lemma_minus_identity(g, pm);
    lemma_coefficient_determinant(pm);
    lemma_safe_coefficients_defined(det_formula(pm));
}

/// The characteristic polynomial has the coefficients of the determinant of
/// `A - xI` and no others, where the arithmetic of the elements is exact and
/// `From` makes one value of an integer.
pub proof fn lemma_characteristic_coefficients<T: Scalar + From<i8>>(
    g: Grid<T>,
    pm: Grid<Pol<T>>,
    p: Pol<T>,
)
    requires
        exact::<T>(),
        T::obeys_from_spec(),
        g.wf(),
        g.square(),
        g.characteristic(pm),
        evaluates(det_formula(pm), p),
    ensures
        p@ == characteristic_coefficients(g),
{
    lemma_exact_coefficients(det_formula(pm), p);
    lemma_coefficient_determinant(pm);
    lemma_minus_identity(g, pm);
}

} // verus!
