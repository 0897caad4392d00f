use ppl::runtime::integer::{i32_as_string, i32_plus_i32, minus_i32};

#[test]
fn i32_arithmetic() {
    assert_eq!(minus_i32(5), -5);
    assert_eq!(minus_i32(-7), 7);
    assert_eq!(i32_plus_i32(2, 40), 42);
    assert_eq!(i32_plus_i32(i32::MAX, i32::MIN), -1);
}

#[test]
fn i32_texts() {
    assert_eq!(i32_as_string(0), "0");
    assert_eq!(i32_as_string(42), "42");
    assert_eq!(i32_as_string(-42), "-42");
    assert_eq!(i32_as_string(i32::MIN), "-2147483648");
    assert_eq!(i32_as_string(i32::MAX), "2147483647");
}
