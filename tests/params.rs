use mulambda::params::parse_ratio;

#[test]
fn ratio_of_two_integers() {
    assert_eq!(parse_ratio(b"16:9"), Some((16, 9)));
    assert_eq!(parse_ratio(b"1:1"), Some((1, 1)));
    assert_eq!(parse_ratio(b"+4:-3"), Some((4, -3)));
}

#[test]
fn ratio_ignores_text_after_a_second_colon() {
    assert_eq!(parse_ratio(b"16:9:whatever"), Some((16, 9)));
}

#[test]
fn ratio_needs_a_colon_and_two_integers() {
    assert_eq!(parse_ratio(b"16"), None);
    assert_eq!(parse_ratio(b":9"), None);
    assert_eq!(parse_ratio(b"16:"), None);
    assert_eq!(parse_ratio(b"16:x"), None);
    assert_eq!(parse_ratio(b"1.5:1"), None);
    assert_eq!(parse_ratio(b" 16:9"), None);
    assert_eq!(parse_ratio(b"-:9"), None);
    assert_eq!(parse_ratio(b""), None);
}

#[test]
fn ratio_limits_of_i32() {
    assert_eq!(parse_ratio(b"2147483647:-2147483648"), Some((i32::MAX, i32::MIN)));
    assert_eq!(parse_ratio(b"2147483648:1"), None);
    assert_eq!(parse_ratio(b"1:-2147483649"), None);
    assert_eq!(parse_ratio(b"99999999999999999999:1"), None);
    assert_eq!(parse_ratio(b"0007:03"), Some((7, 3)));
}
