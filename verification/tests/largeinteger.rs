use plb::common::largeinteger::LargeInteger;

#[test]
fn test_large_integer_with_values() {
    let large_integer = LargeInteger::new(123, 456);
    assert_eq!(large_integer.low, 123);
    assert_eq!(large_integer.high, 456);
}

#[test]
fn test_large_integer_with_default_values() {
    let large_integer = LargeInteger::default();
    assert_eq!(large_integer.low, 0);
    assert_eq!(large_integer.high, 0);
}

#[test]
fn test_large_integer_equality() {
    let large_integer1 = LargeInteger::new(123, 456);
    let large_integer2 = LargeInteger::new(123, 456);
    assert_eq!(large_integer1, large_integer2);
}

#[test]
fn test_large_integer_inequality() {
    let large_integer1 = LargeInteger::new(123, 456);
    let large_integer2 = LargeInteger::new(789, 101112);
    assert_ne!(large_integer1, large_integer2);
}
