use algebra::rational::Rat;

fn parts(r: Rat) -> (i32, i32) {
    (r.num, r.den)
}

#[test]
fn addition_cross_multiplies_and_reduces() {
    assert_eq!(parts(Rat { num: 1, den: 2 } + Rat { num: 1, den: 3 }), (5, 6));
    assert_eq!(parts(Rat { num: 1, den: 2 } + Rat { num: 1, den: 2 }), (1, 1));
    assert_eq!(parts(Rat { num: 1, den: 6 } + Rat { num: 1, den: 3 }), (1, 2));
    assert_eq!(parts(Rat { num: -1, den: 2 } + Rat { num: 1, den: 3 }), (-1, 6));
}

#[test]
fn multiplication_multiplies_and_reduces() {
    assert_eq!(parts(Rat { num: 2, den: 3 } * Rat { num: 3, den: 4 }), (1, 2));
    assert_eq!(parts(Rat { num: 1, den: 2 } * Rat { num: 1, den: 3 }), (1, 6));
    assert_eq!(parts(Rat { num: -4, den: 6 } * Rat { num: 3, den: 2 }), (-1, 1));
    assert_eq!(parts(Rat { num: 1, den: -2 } * Rat { num: 1, den: 3 }), (1, -6));
}

#[test]
fn operands_need_not_be_reduced() {
    assert_eq!(parts(Rat { num: 2, den: 4 } + Rat { num: 3, den: 9 }), (5, 6));
    assert_eq!(parts(Rat { num: 2, den: 4 } * Rat { num: 3, den: 9 }), (1, 6));
}

#[test]
fn both_parts_are_divided_by_the_greatest_common_divisor() {
    let r = Rat { num: i32::MIN, den: 1 } * Rat { num: 1, den: i32::MIN };
    assert_eq!(parts(r), (-1, -1));
    let s = Rat { num: i32::MIN, den: 1 } * Rat { num: 1, den: 2 };
    assert_eq!(parts(s), (-1073741824, 1));
}

fn gcd(a: u32, b: u32) -> u32 {
    if b == 0 {
        a
    } else {
        gcd(b, a % b)
    }
}

#[test]
fn results_are_in_lowest_terms() {
    for a in 1..8 {
        for b in 1..8 {
            for c in 1..8 {
                for d in 1..8 {
                    let sum = Rat { num: a, den: b } + Rat { num: c, den: d };
                    assert_eq!(gcd(sum.num.unsigned_abs(), sum.den.unsigned_abs()), 1);
                    assert_eq!(sum.num * b * d, (a * d + b * c) * sum.den);
                    let product = Rat { num: -a, den: b } * Rat { num: c, den: d };
                    assert_eq!(gcd(product.num.unsigned_abs(), product.den.unsigned_abs()), 1);
                    assert_eq!(product.num * b * d, -a * c * product.den);
                }
            }
        }
    }
}
