use algebra::matrix::display::grid_text;
use algebra::matrix::{Matrix, Vec2, Vec3};
use algebra::polynomials::Pol;

#[test]
fn test_mat() {
    let mat = Matrix::new(vec![1., 2., 3., 4., 5., 6., 7., 8., 9.], 3, 3);
    assert_eq!(3., *mat.get(1, 3));
    assert_eq!(9., *mat.get(3, 3));
    assert!(!mat.is_symmetric());
    assert_eq!(Pol::new(vec![0., 18., 15., -1.]), mat.pol());

    let mat = Matrix::new(vec![1, 2, 2, 1], 2, 2);
    assert!(mat.is_symmetric());
    assert_eq!(mat.trace(), 2);

    let mat = Matrix::new(
        vec![
            2., 3., -1., 0., 0., 1., 1., 1., 2., 3., 1., -1., 4., 1., 2., 0.,
        ],
        4,
        4,
    );
    assert_eq!(mat.determinant(), 38.);
}

fn four_by_four() -> Vec<f64> {
    vec![
        2., 3., -1., 0., 0., 1., 1., 1., 2., 3., 1., -1., 4., 1., 2., 0.,
    ]
}

#[test]
fn get_counts_rows_and_columns_from_one() {
    let mat = Matrix::new(vec![1, 2, 3, 4, 5, 6], 2, 3);
    assert_eq!(*mat.get(1, 1), 1);
    assert_eq!(*mat.get(1, 3), 3);
    assert_eq!(*mat.get(2, 1), 4);
    assert_eq!(*mat.get(2, 3), 6);
    assert_eq!(mat.n_rows(), 2);
    assert_eq!(mat.n_cols(), 3);
    assert_eq!(mat.elements(), &vec![1, 2, 3, 4, 5, 6]);
}

#[test]
fn get_row_returns_the_whole_row() {
    let mat = Matrix::new(vec![1, 2, 3, 4, 5, 6], 2, 3);
    assert_eq!(mat.get_row(1), &[1, 2, 3]);
    assert_eq!(mat.get_row(2), &[4, 5, 6]);
}

#[test]
fn get_rows_spans_both_ends() {
    let mat = Matrix::new(vec![1, 2, 3, 4, 5, 6], 3, 2);
    assert_eq!(mat.get_rows(1, 3), &[1, 2, 3, 4, 5, 6]);
    assert_eq!(mat.get_rows(2, 3), &[3, 4, 5, 6]);
    assert_eq!(mat.get_rows(2, 2), &[3, 4]);
    assert_eq!(mat.get_rows(3, 2).len(), 0);
}

#[test]
fn trace_adds_the_diagonal() {
    let mat = Matrix::new(vec![1, 2, 3, 4, 5, 6, 7, 8, 9], 3, 3);
    assert_eq!(mat.trace(), 15);
    let one = Matrix::new(vec![7.5], 1, 1);
    assert_eq!(one.trace(), 7.5);
}

#[test]
fn symmetry_compares_mirrored_cells() {
    let symmetric = Matrix::new(vec![1, 7, 3, 7, 4, 5, 3, 5, 6], 3, 3);
    assert!(symmetric.is_symmetric());
    let last_pair_differs = Matrix::new(vec![1, 7, 3, 7, 4, 5, 3, 0, 6], 3, 3);
    assert!(!last_pair_differs.is_symmetric());
    let single = Matrix::new(vec![3], 1, 1);
    assert!(single.is_symmetric());
    let empty: Matrix<i32> = Matrix::new(vec![], 0, 0);
    assert!(empty.is_symmetric());
}

#[test]
fn symmetry_of_an_oblong_matrix_looks_at_its_leading_square() {
    let wide = Matrix::new(vec![1, 2, 9, 2, 1, 8], 2, 3);
    assert!(wide.is_symmetric());
    let tall = Matrix::new(vec![1, 2, 3, 1, 9, 8], 3, 2);
    assert!(!tall.is_symmetric());
}

#[test]
fn symmetric_exactly_when_equal_to_the_transpose() {
    let samples = vec![
        vec![1, 2, 2, 1],
        vec![1, 2, 3, 1],
        vec![0, 0, 0, 0],
        vec![5, -1, -1, 5],
    ];
    for cells in samples {
        let transposed = vec![cells[0], cells[2], cells[1], cells[3]];
        let mat = Matrix::new(cells.clone(), 2, 2);
        assert_eq!(mat.is_symmetric(), cells == transposed);
    }
}

#[test]
fn minor_drops_the_first_row_and_one_column() {
    let mat = Matrix::new(vec![1, 2, 3, 4, 5, 6, 7, 8, 9], 3, 3);
    assert_eq!(mat.minor(1), Matrix::new(vec![5, 6, 8, 9], 2, 2));
    assert_eq!(mat.minor(2), Matrix::new(vec![4, 6, 7, 9], 2, 2));
    assert_eq!(mat.minor(3), Matrix::new(vec![4, 5, 7, 8], 2, 2));
    let one = Matrix::new(vec![4], 1, 1);
    assert_eq!(one.minor(1), Matrix::new(vec![], 0, 0));
}

#[test]
fn determinant_of_no_cell_is_the_default_value() {
    let empty: Matrix<f64> = Matrix::new(vec![], 0, 0);
    assert_eq!(empty.determinant(), 0.);
}

#[test]
fn determinant_of_one_cell_is_the_cell() {
    let one = Matrix::new(vec![-4.5], 1, 1);
    assert_eq!(one.determinant(), -4.5);
}

#[test]
fn determinant_of_side_two_is_the_closed_form() {
    let (a, b, c, d) = (3., 8., 4., 6.);
    let mat = Matrix::new(vec![a, b, c, d], 2, 2);
    assert_eq!(mat.determinant(), a * d - b * c);
    assert_eq!(mat.determinant(), -14.);
}

#[test]
fn determinant_of_side_three_is_the_rule_of_sarrus() {
    let m = [2., 0., 1., 1., 3., 2., 1., 1., 4.];
    let mat = Matrix::new(m.to_vec(), 3, 3);
    let sarrus = m[0] * m[4] * m[8] + m[1] * m[5] * m[6] + m[2] * m[3] * m[7]
        - m[6] * m[4] * m[2]
        - m[7] * m[5] * m[0]
        - m[8] * m[3] * m[1];
    assert_eq!(mat.determinant(), sarrus);
    assert_eq!(mat.determinant(), 18.);
    let singular = Matrix::new(vec![1., 2., 3., 4., 5., 6., 7., 8., 9.], 3, 3);
    assert_eq!(singular.determinant(), 0.);
}

#[test]
fn determinant_of_side_four_is_the_expansion_along_the_first_row() {
    let mat = Matrix::new(four_by_four(), 4, 4);
    let row = [2., 3., -1., 0.];
    let mut expansion = 0.;
    for col in 1..=4 {
        let sign = if col % 2 == 1 { 1. } else { -1. };
        expansion += sign * row[col - 1] * mat.minor(col).determinant();
    }
    assert_eq!(mat.determinant(), expansion);
    assert_eq!(expansion, 38.);
}

#[test]
fn determinant_agrees_with_the_expansion_along_another_row_and_column() {
    // Second row of the 4x4 sample: 0, 1, 1, 1; signs start negative.
    let along_second_row = -0. * det3([3., -1., 0., 3., 1., -1., 1., 2., 0.])
        + 1. * det3([2., -1., 0., 2., 1., -1., 4., 2., 0.])
        - 1. * det3([2., 3., 0., 2., 3., -1., 4., 1., 0.])
        + 1. * det3([2., 3., -1., 2., 3., 1., 4., 1., 2.]);
    // Fourth column: 0, 1, -1, 0; signs start negative.
    let along_fourth_column = -0. * det3([0., 1., 1., 2., 3., 1., 4., 1., 2.])
        + 1. * det3([2., 3., -1., 2., 3., 1., 4., 1., 2.])
        - (-1.) * det3([2., 3., -1., 0., 1., 1., 4., 1., 2.])
        + 0. * det3([2., 3., -1., 0., 1., 1., 2., 3., 1.]);
    let mat = Matrix::new(four_by_four(), 4, 4);
    assert_eq!(mat.determinant(), along_second_row);
    assert_eq!(mat.determinant(), along_fourth_column);
}

fn det3(m: [f64; 9]) -> f64 {
    Matrix::new(m.to_vec(), 3, 3).determinant()
}

#[test]
fn determinant_of_side_five() {
    let mat = Matrix::new(
        vec![
            1, 2, 0, 3, 1, 0, 1, 4, 1, 2, 2, 0, 1, 1, 0, 1, 1, 0, 2, 3, 3, 0, 2, 1, 1,
        ],
        5,
        5,
    );
    assert_eq!(mat.determinant(), 24);
}

#[test]
fn determinant_of_a_matrix_of_polynomials() {
    let x = || Pol::new(vec![0., 1.]);
    let one = || Pol::new(vec![1.]);
    let mat = Matrix::new(vec![x(), one(), one(), x()], 2, 2);
    assert_eq!(mat.determinant(), Pol::new(vec![-1., 0., 1.]));
}

#[test]
fn characteristic_polynomials() {
    let one = Matrix::new(vec![5.], 1, 1);
    assert_eq!(one.pol(), Pol::new(vec![5., -1.]));
    let two = Matrix::new(vec![1., 2., 2., 1.], 2, 2);
    assert_eq!(two.pol(), Pol::new(vec![-3., -2., 1.]));
    let three = Matrix::new(vec![2., 0., 1., 1., 3., 2., 1., 1., 4.], 3, 3);
    assert_eq!(three.pol(), Pol::new(vec![18., -23., 9., -1.]));
    let four = Matrix::new(four_by_four(), 4, 4);
    assert_eq!(four.pol(), Pol::new(vec![38., -28., 5., -4., 1.]));
    let integers = Matrix::new(vec![1, 2, 2, 1], 2, 2);
    assert_eq!(integers.pol(), Pol::new(vec![-3, -2, 1]));
}

#[test]
fn characteristic_polynomial_at_zero_is_the_determinant() {
    let samples = vec![
        (vec![5.], 1),
        (vec![3., 8., 4., 6.], 2),
        (vec![2., 0., 1., 1., 3., 2., 1., 1., 4.], 3),
        (four_by_four(), 4),
    ];
    for (cells, side) in samples {
        let mat = Matrix::new(cells, side, side);
        let constant = mat.pol().coefficients()[0];
        assert_eq!(constant, mat.determinant());
    }
}

#[test]
fn matrix_text_is_a_grid_of_centered_cells() {
    let mat = Matrix::new(vec![1, 2, 3, 4], 2, 2);
    let expected = format!("|{:^20}|{:^20}|\n|{:^20}|{:^20}|", 1, 2, 3, 4);
    assert_eq!(mat.to_text(), expected);
    assert_eq!(
        mat.to_text(),
        "|         1          |         2          |\n|         3          |         4          |"
    );
}

#[test]
fn matrix_text_of_floats_and_of_no_cells() {
    let mat = Matrix::new(vec![1.5, -2.], 1, 2);
    assert_eq!(mat.to_text(), format!("|{:^20}|{:^20}|", "1.5", "-2"));
    let empty: Matrix<i32> = Matrix::new(vec![], 0, 0);
    assert_eq!(empty.to_text(), "|");
}

#[test]
fn grid_text_keeps_texts_that_fill_the_field() {
    let long = "abcdefghijklmnopqrstuvwxyz".to_string();
    let exact = "12345678901234567890".to_string();
    let odd = "abc".to_string();
    let text = grid_text(&vec![long.clone(), exact.clone(), odd], 2);
    assert_eq!(
        text,
        format!("|{}|{}|\n|        abc         |", long, exact)
    );
}

#[test]
fn vectors_as_text() {
    assert_eq!(Vec2 { x: 1, y: -2 }.to_text(), "(1, -2)");
    assert_eq!(Vec3 { x: 1.5, y: 0., z: 3. }.to_text(), "(1.5, 0, 3)");
    assert_eq!(Vec2 { x: 1, y: 2 }, Vec2 { x: 1, y: 2 });
    assert_ne!(Vec3 { x: 1, y: 2, z: 3 }, Vec3 { x: 1, y: 2, z: 4 });
}
