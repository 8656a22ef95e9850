use github_helper::text::to_decimal;

#[test]
fn decimal_of_single_digits() {
    let digits = ["0", "1", "2", "3", "4", "5", "6", "7", "8", "9"];
    for (value, text) in digits.iter().enumerate() {
        assert_eq!(to_decimal(value as u128), *text);
    }
}

#[test]
fn decimal_of_longer_numbers() {
    assert_eq!(to_decimal(10), "10");
    assert_eq!(to_decimal(50), "50");
    assert_eq!(to_decimal(109), "109");
    assert_eq!(to_decimal(1234567890), "1234567890");
    assert_eq!(to_decimal(18446744073709551616), "18446744073709551616");
}

#[test]
fn decimal_of_the_largest_number() {
    assert_eq!(to_decimal(u128::MAX), "340282366920938463463374607431768211455");
    assert_eq!(to_decimal(u128::MAX), u128::MAX.to_string());
}
