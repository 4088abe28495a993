use verbalcode::decimal::{i32_to_string, parse_i32};

#[test]
fn rendering_round_trips() {
    for n in [0, 1, -1, 7, 42, -42, 1000, i32::MAX, i32::MIN] {
        assert_eq!(parse_i32(&i32_to_string(n)), n);
    }
}

#[test]
fn rendering_is_canonical() {
    assert_eq!(i32_to_string(0), "0");
    assert_eq!(i32_to_string(305), "305");
    assert_eq!(i32_to_string(-20), "-20");
    assert_eq!(i32_to_string(i32::MIN), "-2147483648");
    assert_eq!(i32_to_string(i32::MAX), "2147483647");
}

#[test]
fn parsing_accepts_signs_and_leading_zeros() {
    assert_eq!(parse_i32("007"), 7);
    assert_eq!(parse_i32("+42"), 42);
    assert_eq!(parse_i32("-0"), 0);
    assert_eq!(parse_i32("-2147483648"), i32::MIN);
}

#[test]
fn parsing_reads_anything_else_as_zero() {
    assert_eq!(parse_i32(""), 0);
    assert_eq!(parse_i32("-"), 0);
    assert_eq!(parse_i32("+"), 0);
    assert_eq!(parse_i32("12a"), 0);
    assert_eq!(parse_i32(" 12"), 0);
    assert_eq!(parse_i32("2147483648"), 0);
    assert_eq!(parse_i32("-2147483649"), 0);
    assert_eq!(parse_i32("999999999999999999999999"), 0);
}
