use algebra::gcd;

#[test]
fn gcd_of_coprime_numbers_is_one() {
    assert_eq!(gcd(9, 28), 1);
    assert_eq!(gcd(1, 1), 1);
    assert_eq!(gcd(1, 4_000_000_000), 1);
}

#[test]
fn gcd_finds_the_largest_common_divisor() {
    assert_eq!(gcd(12, 18), 6);
    assert_eq!(gcd(18, 12), 6);
    assert_eq!(gcd(7, 7), 7);
    assert_eq!(gcd(48, 180), 12);
    assert_eq!(gcd(u32::MAX, u32::MAX), u32::MAX);
    assert_eq!(gcd(2_147_483_648, 1_073_741_824), 1_073_741_824);
}

#[test]
fn gcd_divides_both_and_no_common_divisor_is_larger() {
    for a in 1u32..40 {
        for b in 1u32..40 {
            let g = gcd(a, b);
            assert_eq!(a % g, 0);
            assert_eq!(b % g, 0);
            for d in g + 1..=a.min(b) {
                assert!(a % d != 0 || b % d != 0);
            }
        }
    }
}
