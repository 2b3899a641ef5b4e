//! The ways in which a transformation can be refused.

use vstd::prelude::*;

verus! {

/// Why a transformation produced no output.
#[derive(Clone, Copy, Debug, PartialEq, Eq, Structural)]
pub enum TransformError {
    /// The search pattern is not a regular expression that can be compiled.
    InvalidPattern,
    /// The replacement count is not a numeral: an optional `+`, then one
    /// or more digits.
    InvalidCount,
    /// The selection's token at `position` (counted from zero) is not a
    /// numeral. A numeral of any size is an index, never this error.
    InvalidIndex { position: usize },
    /// The largest selected index does not name a field of the input.
    /// `index` is that index, or the largest 64-bit number where the
    /// index is larger still; `field_count` is the number of fields.
    OutOfRange { index: u64, field_count: usize },
}

impl TransformError {
    /// The largest index that the input would have accepted: for a range
    /// error on an input with at least one field, the number of fields
    /// less one; otherwise none.
    pub open spec fn max_valid_index_spec(self) -> Option<usize> {
        match self {
            TransformError::OutOfRange { index, field_count } => if field_count > 0 {
                Some((field_count - 1) as usize)
            } else {
                None
            },
            _ => None,
        }
    }

    /// The largest index that the input would have accepted, if any.
    pub fn max_valid_index(&self) -> (out: Option<usize>)
        ensures
            out == self.max_valid_index_spec(),
    {
        match self {
            TransformError::OutOfRange { index: _, field_count } => if *field_count > 0 {
                Some(*field_count - 1)
            } else {
                None
            },
            _ => None,
        }
    }
}

/// Whether a result holds the expected text, or the expected error.
pub open spec fn same_text(
    out: Result<String, TransformError>,
    expected: Result<Seq<char>, TransformError>,
) -> bool {
    match (out, expected) {
        (Ok(v), Ok(s)) => v@ == s,
        (Err(a), Err(b)) => a == b,
        _ => false,
    }
}

} // verus!
