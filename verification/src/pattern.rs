//! Replacing matches of a regular expression.
//!
//! Compiling and matching are left to the `regex` crate. What it returns
//! is not proved here: it is named, and the contracts speak of the names.

use vstd::prelude::*;
use crate::error::{same_text, TransformError};

verus! {

/// The error that `regex` reports for a pattern that it cannot compile.
#[verifier::external_type_specification]
#[verifier::external_body]
pub struct ExRegexError(regex::Error);

/// Whether `regex::Regex::new` compiles `pattern`.
pub uninterp spec fn pattern_compiles(pattern: Seq<char>) -> bool;

/// What `regex::Regex::replacen` returns for the expression compiled
/// from `pattern` on `haystack`, with `limit` and `replacement`.
pub uninterp spec fn pattern_replaced(
    pattern: Seq<char>,
    haystack: Seq<char>,
    limit: nat,
    replacement: Seq<char>,
) -> Seq<char>;

/// Compiles `pattern` with `regex::Regex::new` and, where that succeeds,
/// calls `regex::Regex::replacen` on the haystack.
///
/// Trusted: the result is an error exactly where the pattern does not
/// compile, and else the text that `replacen` returns. Both depend on
/// the arguments alone. In `regex`, a limit of zero replaces every match,
/// and `$name` or `$1` in the replacement stands for a capture group.
#[verifier::external_body]
fn regex_replacen(pattern: &str, haystack: &str, limit: usize, replacement: &str) -> (out: Result<
    String,
    regex::Error,
>)
    ensures
        out is Ok == pattern_compiles(pattern@),
        out matches Ok(text) ==> text@ == pattern_replaced(
            pattern@,
            haystack@,
            limit as nat,
            replacement@,
        ),
{
    match regex::Regex::new(pattern) {
        Ok(re) => Ok(re.replacen(haystack, limit, replacement).into_owned()),
        Err(e) => Err(e),
    }
}

/// What a pattern replacement makes of an input: the replaced text where
/// the pattern compiles, else a configuration error.
pub open spec fn regex_replace_spec(
    input: Seq<char>,
    pattern: Seq<char>,
    new_pattern: Seq<char>,
    count: nat,
) -> Result<Seq<char>, TransformError> {
    if pattern_compiles(pattern) {
        Ok(pattern_replaced(pattern, input, count, new_pattern))
    } else {
        Err(TransformError::InvalidPattern)
    }
}

/// Turns the outcome of a pattern replacement into the library's result:
/// the replaced text as it is, and any compile error into
/// `InvalidPattern`.
pub fn replacement_outcome(outcome: Result<String, regex::Error>) -> (out: Result<String, TransformError>)
    ensures
        match outcome {
            Ok(text) => out == Ok::<String, TransformError>(text),
            Err(_) => out == Err::<String, TransformError>(TransformError::InvalidPattern),
        },
{
    match outcome {
        Ok(text) => Ok(text),
        Err(_) => Err(TransformError::InvalidPattern),
    }
}

/// Replaces matches of the regular expression `pattern` in `input` by
/// `new_pattern`: all of them where `num_flag` is zero, else the first
/// `num_flag`, counted from the left. A pattern that does not compile is
/// refused before anything is replaced.
pub fn find_replace_regex(input: String, pattern: &str, new_pattern: &str, num_flag: u32) -> (out: Result<
    String,
    TransformError,
>)
    ensures
        same_text(out, regex_replace_spec(input@, pattern@, new_pattern@, num_flag as nat)),
{
    replacement_outcome(regex_replacen(pattern, input.as_str(), num_flag as usize, new_pattern))
}

} // verus!
