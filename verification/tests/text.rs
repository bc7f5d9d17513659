use algebra::text::{centered_text, decimal_text};

#[test]
fn decimal_text_writes_the_digits() {
    assert_eq!(decimal_text(0), "0");
    assert_eq!(decimal_text(7), "7");
    assert_eq!(decimal_text(10), "10");
    assert_eq!(decimal_text(1234567890), "1234567890");
    assert_eq!(decimal_text(usize::MAX), format!("{}", usize::MAX));
}

#[test]
fn centered_text_puts_the_extra_space_on_the_right() {
    assert_eq!(centered_text("ab", 6), "  ab  ");
    assert_eq!(centered_text("ab", 7), "  ab   ");
    assert_eq!(centered_text("", 3), "   ");
    assert_eq!(centered_text("abc", 20), format!("{:^20}", "abc"));
    assert_eq!(centered_text("abcd", 20), format!("{:^20}", "abcd"));
}

#[test]
fn centered_text_keeps_a_text_that_fills_the_field() {
    assert_eq!(centered_text("abcdef", 6), "abcdef");
    assert_eq!(centered_text("abcdefgh", 6), "abcdefgh");
    assert_eq!(centered_text("abc", 0), "abc");
}

#[test]
fn centered_text_counts_characters() {
    assert_eq!(centered_text("äö", 6), "  äö  ");
    assert_eq!(centered_text("äö", 6), format!("{:^6}", "äö"));
}
