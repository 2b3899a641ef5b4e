use pipemap::engine::{replacement_request, transform, Request};
use pipemap::error::TransformError;
use pipemap::input::{assemble_input, is_blank, trim_chars};

fn s(text: &str) -> String {
    text.to_string()
}

fn lines(all: &[&str]) -> Vec<String> {
    all.iter().map(|l| l.to_string()).collect()
}

#[test]
fn assemble_input_joins_lines_with_line_feeds() {
    assert_eq!(assemble_input(&lines(&["one", "two", "three"])), "one\ntwo\nthree");
    assert_eq!(assemble_input(&lines(&["only"])), "only");
}

#[test]
fn assemble_input_trims_both_ends() {
    assert_eq!(assemble_input(&lines(&["", "  a b  ", "", " c ", "", ""])), "a b  \n\n c");
    assert_eq!(assemble_input(&lines(&["\u{a0}x\u{2003}"])), "x");
}

#[test]
fn assemble_input_of_nothing_is_empty() {
    assert_eq!(assemble_input(&lines(&[])), "");
    assert_eq!(assemble_input(&lines(&[""])), "");
    assert_eq!(assemble_input(&lines(&["  ", "\t"])), "");
}

#[test]
fn is_blank_agrees_with_std_on_every_character() {
    for code in 0..=0x10ffffu32 {
        if let Some(c) = char::from_u32(code) {
            assert_eq!(is_blank(c), c.is_whitespace(), "U+{:04X}", code);
        }
    }
}

#[test]
fn trim_chars_agrees_with_std() {
    let cases = [
        "", " ", "  \t\n", "a", " a", "a ", "  a b  ", "\u{3000}a\u{85}", "a\u{b}", "\u{200b}a ",
        "\n\nline\n", "x  y",
    ];
    for case in cases {
        assert_eq!(trim_chars(&case.chars().collect()), case.trim(), "{:?}", case);
    }
}

#[test]
fn request_without_count_replaces_all() {
    let request = replacement_request(s("a"), s("b"), true, None).ok().unwrap();
    assert!(matches!(&request, Request::ReplaceLiteral { count: 0, .. }));
    assert_eq!(transform(s("aaa"), request), Ok(s("bbb")));
}

#[test]
fn request_with_count_replaces_first_matches() {
    let request = replacement_request(s("a"), s("b"), true, Some(s("2"))).unwrap();
    assert_eq!(
        request,
        Request::ReplaceLiteral { old_pattern: s("a"), new_pattern: s("b"), count: 2 }
    );
    assert_eq!(transform(s("aaa"), request), Ok(s("bba")));
}

#[test]
fn request_by_pattern_unless_literal() {
    let request = replacement_request(s("a."), s("-"), false, Some(s("1"))).ok().unwrap();
    assert!(matches!(&request, Request::ReplacePattern { count: 1, .. }));
    assert_eq!(transform(s("abac a."), request), Ok(s("-ac a.")));
    let request = replacement_request(s("a."), s("-"), true, Some(s("1"))).ok().unwrap();
    assert_eq!(transform(s("abac a."), request), Ok(s("abac -")));
}

#[test]
fn request_refuses_bad_count() {
    assert!(matches!(
        replacement_request(s("a"), s("b"), false, Some(s("many"))),
        Err(TransformError::InvalidCount)
    ));
    assert!(matches!(
        replacement_request(s("a"), s("b"), true, Some(s("-2"))),
        Err(TransformError::InvalidCount)
    ));
}

#[test]
fn request_with_huge_count_replaces_every_match() {
    let request = replacement_request(s("a"), s("b"), true, Some(s("99999999999999999999"))).unwrap();
    assert_eq!(
        request,
        Request::ReplaceLiteral { old_pattern: s("a"), new_pattern: s("b"), count: u32::MAX }
    );
    assert_eq!(transform(s("aaa"), request), Ok(s("bbb")));
}

#[test]
fn transform_selects_fields() {
    let request = Request::Select { selection: s("0 2") };
    assert_eq!(transform(s("the quick brown fox"), request), Ok(s("the brown")));
    let request = Request::Select { selection: s("5") };
    assert_eq!(
        transform(s("a b c"), request),
        Err(TransformError::OutOfRange { index: 5, field_count: 3 })
    );
}

#[test]
fn transform_refuses_invalid_pattern() {
    let request = Request::ReplacePattern { pattern: s("(["), new_pattern: s("x"), count: 0 };
    assert_eq!(transform(s("abc"), request), Err(TransformError::InvalidPattern));
}
