use tensor_template::naming::{decimal_text, make_indexed_prefix, make_leaf_key, signed_decimal_text};
use tensor_template::shape::Dimension;

#[test]
fn decimal_has_no_leading_zero() {
    assert_eq!(decimal_text(0), "0");
    assert_eq!(decimal_text(7), "7");
    assert_eq!(decimal_text(10), "10");
    assert_eq!(decimal_text(1005), "1005");
    assert_eq!(decimal_text(u64::MAX), "18446744073709551615");
}

#[test]
fn signed_decimal_puts_a_minus_before_the_magnitude() {
    assert_eq!(signed_decimal_text(0), "0");
    assert_eq!(signed_decimal_text(42), "42");
    assert_eq!(signed_decimal_text(-42), "-42");
    assert_eq!(signed_decimal_text(i64::MAX), "9223372036854775807");
    assert_eq!(signed_decimal_text(i64::MIN), "-9223372036854775808");
}

#[test]
fn leaf_key_is_prefix_separator_name() {
    assert_eq!(make_leaf_key("", "data"), "__data");
    assert_eq!(make_leaf_key("__phasor0", "data"), "__phasor0__data");
    assert_eq!(make_leaf_key("__0", ""), "__0__");
}

#[test]
fn indexed_prefix_joins_name_and_index() {
    assert_eq!(make_indexed_prefix("", "data", 2), "__data2");
    assert_eq!(make_indexed_prefix("", "", 0), "__0");
    assert_eq!(make_indexed_prefix("__a1", "b", 13), "__a1__b13");
}

#[test]
fn axis_without_name_enters_a_key_as_nothing() {
    assert_eq!(Dimension::unnamed(3).key_name(), "");
    assert_eq!(Dimension::named(3, "rows").key_name(), "rows");
    assert_eq!(Dimension::named(3, "rows").size, 3);
    assert_eq!(Dimension::unnamed(3).name, None);
}
