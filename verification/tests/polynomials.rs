use algebra::polynomials::display::{term_text, terms_text, Shown};
use algebra::polynomials::Pol;
use std::ops::AddAssign;

fn pol(coefficients: &[f64]) -> Pol<f64> {
    Pol::new(coefficients.to_vec())
}

#[test]
fn new_keeps_the_coefficients() {
    let p = pol(&[1., 0., 2., 0.]);
    assert_eq!(p.coefficients(), &vec![1., 0., 2., 0.]);
}

#[test]
fn new_of_nothing_is_the_zero_polynomial() {
    let p: Pol<f64> = Pol::new(vec![]);
    assert_eq!(p.coefficients(), &vec![0.]);
    let d: Pol<f64> = Pol::default();
    assert_eq!(d.coefficients(), &vec![0.]);
    assert_eq!(p, d);
}

#[test]
fn clone_is_equal() {
    let p = pol(&[1., -2., 3.]);
    assert_eq!(p.clone(), p);
}

#[test]
fn addition_pads_the_shorter_operand() {
    assert_eq!(pol(&[1., 2., 3.]) + pol(&[10., 20.]), pol(&[11., 22., 3.]));
    assert_eq!(pol(&[10., 20.]) + pol(&[1., 2., 3.]), pol(&[11., 22., 3.]));
    assert_eq!(pol(&[1.]) + pol(&[-1.]), pol(&[0.]));
}

#[test]
fn subtraction_pads_the_shorter_operand() {
    assert_eq!(pol(&[1., 2., 3.]) - pol(&[10., 20.]), pol(&[-9., -18., 3.]));
    assert_eq!(pol(&[10., 20.]) - pol(&[1., 2., 3.]), pol(&[9., 18., -3.]));
    assert_eq!(pol(&[1., 2.]) - pol(&[1., 2.]), pol(&[0., 0.]));
}

#[test]
fn negation_negates_each_coefficient() {
    assert_eq!(-pol(&[1., -2., 0.5]), pol(&[-1., 2., -0.5]));
}

#[test]
fn addition_in_place() {
    let mut p = pol(&[1., 2., 3.]);
    p += pol(&[10., 20.]);
    assert_eq!(p, pol(&[11., 22., 3.]));
    let mut q = pol(&[10., 20.]);
    q += pol(&[1., 2., 3.]);
    assert_eq!(q, pol(&[11., 22., 3.]));
    let mut r = pol(&[1.]);
    r.add_assign(pol(&[2.]));
    assert_eq!(r, pol(&[3.]));
}

#[test]
fn multiplication_is_the_convolution() {
    assert_eq!(pol(&[1., 2., 3.]) * pol(&[4., 5.]), pol(&[4., 13., 22., 15.]));
    assert_eq!(pol(&[4., 5.]) * pol(&[1., 2., 3.]), pol(&[4., 13., 22., 15.]));
    assert_eq!(pol(&[1., -1.]) * pol(&[1., 1.]), pol(&[1., 0., -1.]));
    assert_eq!(pol(&[3.]) * pol(&[2.]), pol(&[6.]));
}

#[test]
fn multiplication_by_reference() {
    let p = pol(&[1., 2., 3.]);
    let q = pol(&[4., 5.]);
    assert_eq!(&p * &q, pol(&[4., 13., 22., 15.]));
    assert_eq!(p.product(&q), pol(&[4., 13., 22., 15.]));
    assert_eq!(p * &q, pol(&[4., 13., 22., 15.]));
}

#[test]
fn scaling_multiplies_each_coefficient() {
    assert_eq!(pol(&[1., -2., 0.5]).scale(&4.), pol(&[4., -8., 2.]));
    assert_eq!(pol(&[1., 2.]).scale(&0.), pol(&[0., 0.]));
}

#[test]
fn equality_counts_zeros_at_the_high_end() {
    assert_eq!(pol(&[1., 2.]), pol(&[1., 2.]));
    assert_ne!(pol(&[1., 2.]), pol(&[1., 2., 0.]));
    assert_ne!(pol(&[1., 2.]), pol(&[1., 3.]));
    assert_ne!(pol(&[0.]), pol(&[0., 0.]));
}

#[test]
fn addition_is_commutative_and_associative() {
    let (p, q, r) = (pol(&[1., 2., 3.]), pol(&[0.5, -4.]), pol(&[8., 0., 0., 1.]));
    assert_eq!(p.clone() + q.clone(), q.clone() + p.clone());
    assert_eq!(
        (p.clone() + q.clone()) + r.clone(),
        p.clone() + (q.clone() + r.clone())
    );
}

#[test]
fn adding_the_zero_polynomial_of_the_same_length_changes_nothing() {
    let p = pol(&[1., -2., 3.]);
    assert_eq!(p.clone() + pol(&[0., 0., 0.]), p);
}

#[test]
fn multiplication_is_associative_on_small_integers() {
    let (p, q, r) = (pol(&[1., 2.]), pol(&[3., 0., -1.]), pol(&[2., 5.]));
    assert_eq!(
        (p.clone() * q.clone()) * r.clone(),
        p.clone() * (q.clone() * r.clone())
    );
    assert_eq!((p * q) * r, pol(&[6., 27., 28., -9., -10.]));
}

#[test]
fn degree_of_a_product_is_the_sum_of_the_degrees() {
    let p = pol(&[1., 0., 2.]);
    let q = pol(&[3., 4., 0., 5.]);
    let product = p.clone() * q.clone();
    let degree = |x: &Pol<f64>| x.coefficients().len() - 1;
    assert_eq!(degree(&product), degree(&p) + degree(&q));
    assert_eq!(product.coefficients()[5], 10.);
}

#[test]
fn polynomials_over_integers() {
    let p = Pol::new(vec![1, 2]);
    let q = Pol::new(vec![3, 4]);
    assert_eq!(p.clone() + q.clone(), Pol::new(vec![4, 6]));
    assert_eq!(p.clone() - q.clone(), Pol::new(vec![-2, -2]));
    assert_eq!(p * q, Pol::new(vec![3, 10, 8]));
}

#[test]
fn text_of_a_polynomial() {
    assert_eq!(
        pol(&[1., 0., -2.5, 1., -1.]).to_text(),
        "+ 1 - 2.5x^2 + x^3 - x^4 "
    );
    assert_eq!(pol(&[-1., 3.]).to_text(), "- 1 + 3x ");
    assert_eq!(pol(&[0., -1.]).to_text(), "- x ");
    assert_eq!(pol(&[0., 0.]).to_text(), "");
    assert_eq!(pol(&[0., 18., 15., -1.]).to_text(), "+ 18x + 15x^2 - x^3 ");
    assert_eq!(Pol::new(vec![2, -1, 0, 7]).to_text(), "+ 2 - x + 7x^3 ");
}

#[test]
fn text_of_a_high_power() {
    let mut coefficients = vec![0.; 13];
    coefficients[12] = 2.;
    coefficients[10] = -1.;
    assert_eq!(Pol::new(coefficients).to_text(), "- x^10 + 2x^12 ");
}

#[test]
fn describe_tells_sign_and_size() {
    assert!(matches!(Pol::describe(&0.), Shown::Skipped));
    assert!(matches!(Pol::describe(&-0.), Shown::Skipped));
    match Pol::describe(&-2.5) {
        Shown::Term { negative, unit, magnitude } => {
            assert!(negative);
            assert!(!unit);
            assert_eq!(magnitude, "2.5");
        }
        Shown::Skipped => panic!("a nonzero coefficient is shown"),
    }
    match Pol::describe(&-1.) {
        Shown::Term { negative, unit, magnitude } => {
            assert!(negative);
            assert!(unit);
            assert_eq!(magnitude, "1");
        }
        Shown::Skipped => panic!("a nonzero coefficient is shown"),
    }
    match Pol::describe(&1) {
        Shown::Term { negative, unit, magnitude } => {
            assert!(!negative);
            assert!(unit);
            assert_eq!(magnitude, "1");
        }
        Shown::Skipped => panic!("a nonzero coefficient is shown"),
    }
}

#[test]
fn text_of_one_term() {
    assert_eq!(term_text(false, false, "3", 0), "+ 3 ");
    assert_eq!(term_text(true, true, "1", 0), "- 1 ");
    assert_eq!(term_text(false, true, "1", 1), "+ x ");
    assert_eq!(term_text(true, false, "2.5", 1), "- 2.5x ");
    assert_eq!(term_text(false, true, "1", 2), "+ x^2 ");
    assert_eq!(term_text(true, false, "4", 123), "- 4x^123 ");
}

#[test]
fn text_of_terms_skips_zeros() {
    let terms = vec![
        Shown::Skipped,
        Shown::Term { negative: false, unit: false, magnitude: "18".to_string() },
        Shown::Skipped,
        Shown::Term { negative: true, unit: true, magnitude: "1".to_string() },
    ];
    assert_eq!(terms_text(&terms), "+ 18x - x^3 ");
    assert_eq!(terms_text(&vec![]), "");
}
