use vislumino::text::{decimal, zero_padded};

#[test]
fn decimal_writes_numbers_without_leading_zeros() {
    assert_eq!(decimal(0), "0");
    assert_eq!(decimal(7), "7");
    assert_eq!(decimal(10), "10");
    assert_eq!(decimal(1234567890), "1234567890");
    assert_eq!(decimal(u128::MAX), u128::MAX.to_string());
}

#[test]
fn zero_padded_fills_up_to_the_width() {
    assert_eq!(zero_padded(0, 5), "00000");
    assert_eq!(zero_padded(42, 5), "00042");
    assert_eq!(zero_padded(99999, 5), "99999");
    assert_eq!(zero_padded(100000, 5), "100000");
    assert_eq!(zero_padded(3, 0), "3");
    assert_eq!(zero_padded(3, 1), "3");
}
