use radiodiodj::text::{decimal_text, parse_i64, sort_texts};

#[test]
fn integers_are_written_and_read_back_in_decimal() {
    assert_eq!(decimal_text(0), "0");
    assert_eq!(decimal_text(-42), "-42");
    assert_eq!(decimal_text(i64::MIN), i64::MIN.to_string());
    assert_eq!(decimal_text(i64::MAX), i64::MAX.to_string());
    for n in [0i64, 7, -7, 1234567890123, i64::MIN, i64::MAX] {
        assert_eq!(parse_i64(&decimal_text(n)), Some(n));
    }
}

#[test]
fn parsing_matches_the_standard_library() {
    for s in ["", "+", "-", "+5", "-0", "007", "12a", " 1", "9223372036854775807", "9223372036854775808", "-9223372036854775808", "-9223372036854775809", "99999999999999999999999"] {
        assert_eq!(parse_i64(s), s.parse::<i64>().ok(), "{s}");
    }
}

#[test]
fn texts_sort_by_code_point() {
    let mut v = vec!["b".to_string(), "B".to_string(), "a".to_string(), "ä".to_string(), "a".to_string()];
    sort_texts(&mut v);
    let mut w = vec!["b".to_string(), "B".to_string(), "a".to_string(), "ä".to_string(), "a".to_string()];
    w.sort();
    assert_eq!(v, w);
}
