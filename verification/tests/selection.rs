use pipemap::error::TransformError;
use pipemap::fields::split_fields;
use pipemap::number::{parse_count, parse_numeral};
use pipemap::select::{cut, largest_of, parse_selection};
use pipemap::text::{chars_of, string_of};

fn s(text: &str) -> String {
    text.to_string()
}

fn words(text: &str) -> Vec<String> {
    split_fields(&text.chars().collect())
        .iter()
        .map(|w| w.iter().collect())
        .collect()
}

fn number(text: &str) -> Option<u64> {
    parse_numeral(&text.chars().collect())
}

#[test]
fn cut_selects_first_and_third_word() {
    assert_eq!(cut(s("the quick brown fox"), s("0 2")), Ok(s("the brown")));
}

#[test]
fn cut_with_empty_selection_returns_input() {
    assert_eq!(cut(s("the  quick\tbrown"), s("")), Ok(s("the  quick\tbrown")));
    assert_eq!(cut(s(""), s("")), Ok(s("")));
}

#[test]
fn cut_keeps_order_and_repeats() {
    assert_eq!(cut(s("a b c d"), s("3 0 0 2")), Ok(s("d a a c")));
}

#[test]
fn cut_single_index_is_the_field_itself() {
    let input = "alpha \t beta\ngamma\r\ndelta";
    let all = words(input);
    assert_eq!(all, vec![s("alpha"), s("beta"), s("gamma"), s("delta")]);
    for i in 0..all.len() {
        assert_eq!(cut(s(input), format!("{}", i)), Ok(all[i].clone()));
    }
}

#[test]
fn cut_index_out_of_range_names_largest_valid_index() {
    let err = cut(s("one two three"), s("5")).unwrap_err();
    assert_eq!(err, TransformError::OutOfRange { index: 5, field_count: 3 });
    assert_eq!(err.max_valid_index(), Some(2));
}

#[test]
fn cut_index_equal_to_field_count_fails() {
    assert_eq!(
        cut(s("one two three"), s("0 3 1")),
        Err(TransformError::OutOfRange { index: 3, field_count: 3 })
    );
}

#[test]
fn cut_reports_the_largest_index() {
    assert_eq!(
        cut(s("one two"), s("7 9 8")),
        Err(TransformError::OutOfRange { index: 9, field_count: 2 })
    );
}

#[test]
fn cut_on_input_without_fields() {
    let err = cut(s("  \n "), s("0")).unwrap_err();
    assert_eq!(err, TransformError::OutOfRange { index: 0, field_count: 0 });
    assert_eq!(err.max_valid_index(), None);
}

#[test]
fn cut_refuses_non_numeric_token_before_range() {
    assert_eq!(
        cut(s("one two"), s("9 x")),
        Err(TransformError::InvalidIndex { position: 1 })
    );
    assert_eq!(
        cut(s("one two"), s("-1")),
        Err(TransformError::InvalidIndex { position: 0 })
    );
}

#[test]
fn cut_with_blank_selection_selects_nothing() {
    assert_eq!(cut(s("one two"), s("  ")), Ok(s("")));
}

#[test]
fn cut_splits_on_ascii_whitespace_only() {
    // A vertical tab and a no-break space do not separate fields.
    assert_eq!(cut(s("a\u{b}b c\u{a0}d"), s("1")), Ok(s("c\u{a0}d")));
    assert_eq!(cut(s("a\u{c}b"), s("1")), Ok(s("b")));
}

#[test]
fn cut_handles_non_ascii_fields() {
    assert_eq!(cut(s("grüße  мир 世界"), s("2 0")), Ok(s("世界 grüße")));
}

#[test]
fn parse_selection_reads_indices_in_order() {
    assert_eq!(parse_selection(s("0 3 4")), Ok(vec![0, 3, 4]));
    assert_eq!(parse_selection(s(" 2\t2 \n1 ")), Ok(vec![2, 2, 1]));
    assert_eq!(parse_selection(s("")), Ok(vec![]));
}

#[test]
fn parse_selection_names_first_bad_token() {
    assert_eq!(
        parse_selection(s("1 two 3 four")),
        Err(TransformError::InvalidIndex { position: 1 })
    );
    assert_eq!(
        parse_selection(s("99999999999999999999999 1x")),
        Err(TransformError::InvalidIndex { position: 1 })
    );
}

#[test]
fn parse_selection_keeps_large_numerals() {
    assert_eq!(parse_selection(s("4294967296")), Ok(vec![4294967296]));
    assert_eq!(parse_selection(s("1 4294967295 0")), Ok(vec![1, 4294967295, 0]));
    assert_eq!(
        parse_selection(s("0 340282366920938463463374607431768211456")),
        Ok(vec![0, u64::MAX])
    );
}

#[test]
fn cut_with_numeral_above_32_bits_is_a_range_error() {
    let err = cut(s("one two three"), s("4294967296")).unwrap_err();
    assert_eq!(err, TransformError::OutOfRange { index: 4294967296, field_count: 3 });
    assert_eq!(err.max_valid_index(), Some(2));
    assert_eq!(
        cut(s("one two three"), s("0 4294967296 1")),
        Err(TransformError::OutOfRange { index: 4294967296, field_count: 3 })
    );
}

#[test]
fn cut_with_numeral_above_64_bits_is_a_range_error() {
    assert_eq!(
        cut(s("one two three"), s("1 99999999999999999999999999999 2")),
        Err(TransformError::OutOfRange { index: u64::MAX, field_count: 3 })
    );
    assert_eq!(
        cut(s(""), s("18446744073709551616")),
        Err(TransformError::OutOfRange { index: u64::MAX, field_count: 0 })
    );
}

#[test]
fn cut_accepts_sign_and_leading_zeros() {
    assert_eq!(cut(s("a b c"), s("+2 000000000000000000000000001")), Ok(s("c b")));
}

#[test]
fn parse_numeral_agrees_with_std_on_what_is_a_numeral() {
    let cases = [
        "0", "7", "42", "+42", "007", "4294967295", "4294967296", "99999999999999999999999",
        "", "+", "-", "-0", "-5", "++1", "1+", "1 ", " 1", "1a", "a", "٣", "1_000", "0x10",
        "+0", "00000000000000000000004294967295", "18446744073709551615",
        "18446744073709551616", "+18446744073709551614",
        "340282366920938463463374607431768211456000",
    ];
    for case in cases {
        let expected = match case.parse::<u128>() {
            Ok(v) => Some(if v > u64::MAX as u128 { u64::MAX } else { v as u64 }),
            Err(e) => {
                if *e.kind() == std::num::IntErrorKind::PosOverflow {
                    Some(u64::MAX)
                } else {
                    None
                }
            }
        };
        assert_eq!(number(case), expected, "{:?}", case);
    }
}

#[test]
fn parse_numeral_reads_exact_values() {
    assert_eq!(number("4294967295"), Some(4294967295));
    assert_eq!(number("4294967296"), Some(4294967296));
    assert_eq!(number("+42"), Some(42));
    assert_eq!(number("18446744073709551615"), Some(u64::MAX));
    assert_eq!(number("18446744073709551614"), Some(u64::MAX - 1));
}

#[test]
fn parse_numeral_saturates_beyond_64_bits() {
    assert_eq!(number("18446744073709551616"), Some(u64::MAX));
    assert_eq!(number("100000000000000000000000000000000000000000000"), Some(u64::MAX));
    assert_eq!(number("18446744073709551616x"), None);
    assert_eq!(number("99999999999999999999999999 "), None);
}

#[test]
fn parse_count_reads_or_refuses() {
    assert_eq!(parse_count("3"), Ok(3));
    assert_eq!(parse_count("0"), Ok(0));
    assert_eq!(parse_count("+12"), Ok(12));
    assert_eq!(parse_count("4294967295"), Ok(u32::MAX));
    assert_eq!(parse_count("-1"), Err(TransformError::InvalidCount));
    assert_eq!(parse_count("two"), Err(TransformError::InvalidCount));
    assert_eq!(parse_count(""), Err(TransformError::InvalidCount));
}

#[test]
fn parse_count_saturates_large_numerals() {
    assert_eq!(parse_count("4294967296"), Ok(u32::MAX));
    assert_eq!(parse_count("99999999999999999999999999999999"), Ok(u32::MAX));
    assert_eq!(parse_count("99999999999999999999999999999999."), Err(TransformError::InvalidCount));
}

#[test]
fn split_fields_agrees_with_std() {
    let cases = [
        "", " ", "a", " a ", "a b", "a  b", "\ta\n\nb\r\nc\u{c}d ", "a\u{b}b", "a\u{a0}b",
        "the quick brown fox", "  lead", "trail  ", "é è\tê",
    ];
    for case in cases {
        let expected: Vec<String> = case.split_ascii_whitespace().map(|w| w.to_string()).collect();
        assert_eq!(words(case), expected, "{:?}", case);
    }
}

#[test]
fn largest_of_picks_the_maximum() {
    assert_eq!(largest_of(&vec![3, 9, 2, 9, 1]), 9);
    assert_eq!(largest_of(&vec![5]), 5);
    assert_eq!(largest_of(&vec![]), 0);
}

#[test]
fn chars_and_strings_convert_both_ways() {
    let chars = chars_of("héllo wörld");
    assert_eq!(chars, "héllo wörld".chars().collect::<Vec<char>>());
    assert_eq!(string_of(&chars, 0, chars.len()), "héllo wörld");
    assert_eq!(string_of(&chars, 6, 11), "wörld");
    assert_eq!(string_of(&chars, 3, 3), "");
}
