use digit_distance::digits::{derive_digit_stream, find_in_text, find_pattern, preview};

#[test]
fn stream_drops_prefix_and_non_digits() {
    assert_eq!(derive_digit_stream("2.7182\n818 28"), "718281828");
}

#[test]
fn stream_skips_exactly_two_characters() {
    assert_eq!(derive_digit_stream("123456"), "3456");
    assert_eq!(derive_digit_stream("1.41421"), "41421");
}

#[test]
fn stream_of_short_text_is_empty() {
    assert_eq!(derive_digit_stream(""), "");
    assert_eq!(derive_digit_stream("3"), "");
    assert_eq!(derive_digit_stream("3."), "");
}

#[test]
fn stream_keeps_only_ascii_digits() {
    assert_eq!(derive_digit_stream("2.1\u{0663}2\u{00b2}3x"), "123");
    for c in derive_digit_stream("3.14 15\t92-65\r\n35").chars() {
        assert!(c.is_ascii_digit());
    }
}

#[test]
fn stream_is_deterministic() {
    let text = "2.718281828459045 2353602874";
    assert_eq!(derive_digit_stream(text), derive_digit_stream(text));
}

#[test]
fn search_at_start_of_stream() {
    assert_eq!(find_pattern("2001200199998888", "20012001"), Some(0));
}

#[test]
fn search_after_prefix_strip() {
    assert_eq!(find_in_text("000120012001", "20012001"), Some(2));
}

#[test]
fn search_reports_first_of_several() {
    assert_eq!(find_pattern("000120012001", "20012001"), Some(4));
    assert_eq!(find_pattern("91200120012001", "20012001"), Some(2));
}

#[test]
fn search_finds_known_position() {
    let stream = "31415926535897932384626433832795";
    assert_eq!(find_pattern(stream, "9793"), Some(12));
    let planted = format!("{}{}{}", "5".repeat(37), "20012001", "7".repeat(11));
    assert_eq!(find_pattern(&planted, "20012001"), Some(37));
}

#[test]
fn search_absent_pattern_not_found() {
    assert_eq!(find_pattern("1890037041890037042001200", "20012001"), None);
}

#[test]
fn search_in_short_stream_not_found() {
    assert_eq!(find_pattern("", "20012001"), None);
    assert_eq!(find_pattern("2001200", "20012001"), None);
}

#[test]
fn search_pattern_filling_whole_stream() {
    assert_eq!(find_pattern("20012001", "20012001"), Some(0));
}

#[test]
fn search_match_at_last_start_index() {
    assert_eq!(find_pattern("1120012001", "20012001"), Some(2));
}

#[test]
fn search_through_text_with_noise() {
    assert_eq!(find_in_text("2.99 2001\n2001", "20012001"), Some(2));
    assert_eq!(find_in_text("20012001", "20012001"), None);
}

#[test]
fn preview_clamps_to_stream() {
    assert_eq!(preview("12345", 50), "12345");
    assert_eq!(preview("1234567", 3), "123");
    assert_eq!(preview("", 50), "");
    assert_eq!(preview("123", 0), "");
}

#[test]
fn preview_of_long_stream_has_fifty_digits() {
    let stream = "0123456789".repeat(7);
    let p = preview(&stream, 50);
    assert_eq!(p.len(), 50);
    assert_eq!(p, "0123456789".repeat(5));
}
