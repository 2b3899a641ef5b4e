//! Choosing and applying one transformation.

use vstd::prelude::*;
use crate::error::{same_text, TransformError};
use crate::number::{count_of, parse_count};
use crate::pattern::{find_replace_regex, regex_replace_spec};
use crate::replace::{find_replace_string, literal_replace};
use crate::select::{cut, cut_spec};

verus! {

/// One transformation of the input, with its parameters.
#[derive(Clone, Debug, PartialEq, Eq)]
pub enum Request {
    /// Select fields by the indices that `selection` lists.
    Select { selection: String },
    /// Replace matches of the literal `old_pattern`.
    ReplaceLiteral { old_pattern: String, new_pattern: String, count: u32 },
    /// Replace matches of the regular expression `pattern`.
    ReplacePattern { pattern: String, new_pattern: String, count: u32 },
}

/// The replacement that a pattern pair and its flags ask for. Without a
/// count argument the count is zero, which asks for every match; a count
/// argument that is no numeral is an error.
pub open spec fn replacement_request_spec(
    old_pattern: String,
    new_pattern: String,
    literal: bool,
    count_arg: Option<String>,
) -> Result<Request, TransformError> {
    let count = match count_arg {
        None => Ok(0u32),
        Some(arg) => count_of(arg@),
    };
    match count {
        Err(e) => Err(e),
        Ok(count) => if literal {
            Ok(Request::ReplaceLiteral { old_pattern, new_pattern, count })
        } else {
            Ok(Request::ReplacePattern { pattern: old_pattern, new_pattern, count })
        },
    }
}

/// What a request makes of an input.
pub open spec fn transform_spec(input: Seq<char>, request: Request) -> Result<
    Seq<char>,
    TransformError,
> {
    match request {
        Request::Select { selection } => cut_spec(input, selection@),
        Request::ReplaceLiteral { old_pattern, new_pattern, count } => Ok(
            literal_replace(input, old_pattern@, new_pattern@, count as nat),
        ),
        Request::ReplacePattern { pattern, new_pattern, count } => regex_replace_spec(
            input,
            pattern@,
            new_pattern@,
            count as nat,
        ),
    }
}

/// Builds the replacement request for a pattern pair: literal or by
/// regular expression, with the count that `count_arg` denotes.
pub fn replacement_request(
    old_pattern: String,
    new_pattern: String,
    literal: bool,
    count_arg: Option<String>,
) -> (out: Result<Request, TransformError>)
    ensures
        out == replacement_request_spec(old_pattern, new_pattern, literal, count_arg),
{
    let count: u32 = match count_arg {
        None => 0,
        Some(arg) => match parse_count(arg.as_str()) {
            Ok(count) => count,
            Err(e) => {
                return Err(e);
            },
        },
    };
    if literal {
        Ok(Request::ReplaceLiteral { old_pattern, new_pattern, count })
    } else {
        Ok(Request::ReplacePattern { pattern: old_pattern, new_pattern, count })
    }
}

/// Applies the request to the input. The input is not changed: the
/// result is a new text, or the error that refused the request.
pub fn transform(input: String, request: Request) -> (out: Result<String, TransformError>)
    ensures
        same_text(out, transform_spec(input@, request)),
{
    match request {
        Request::Select { selection } => cut(input, selection),
        Request::ReplaceLiteral { old_pattern, new_pattern, count } => Ok(
            find_replace_string(input, old_pattern, new_pattern, count),
        ),
        Request::ReplacePattern { pattern, new_pattern, count } => find_replace_regex(
            input,
            pattern.as_str(),
            new_pattern.as_str(),
            count,
        ),
    }
}

} // verus!
