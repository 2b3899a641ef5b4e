//! Reading unsigned decimal numerals of any length.

use vstd::prelude::*;
use crate::error::TransformError;
use crate::text::chars_of;

verus! {

/// Whether `c` is one of the ASCII digits `0` to `9`.
pub open spec fn is_digit(c: char) -> bool {
    '0' <= c <= '9'
}

/// The number that the digit `c` stands for.
pub open spec fn digit_value(c: char) -> nat {
    (c as u32 - '0' as u32) as nat
}

/// Whether every character of `s` is a digit.
pub open spec fn all_digits(s: Seq<char>) -> bool {
    forall|i: int| 0 <= i < s.len() ==> is_digit(#[trigger] s[i])
}

/// The number that a run of digits denotes in base ten.
pub open spec fn decimal_value(s: Seq<char>) -> nat
    decreases s.len(),
{
    if s.len() == 0 {
        0
    } else {
        decimal_value(s.drop_last()) * 10 + digit_value(s.last())
    }
}

/// The digits of a numeral: the text without one leading `+`, if any.
pub open spec fn numeral_digits(s: Seq<char>) -> Seq<char> {
    if s.len() > 0 && s[0] == '+' {
        s.drop_first()
    } else {
        s
    }
}

/// Whether `s` is a numeral: an optional `+`, then one or more digits.
/// A numeral may have any number of digits.
pub open spec fn is_numeral(s: Seq<char>) -> bool {
    numeral_digits(s).len() > 0 && all_digits(numeral_digits(s))
}

/// The number that a numeral denotes, however large.
pub open spec fn numeral_value(s: Seq<char>) -> nat {
    decimal_value(numeral_digits(s))
}

/// `v` where it fits in 64 bits, else the largest 64-bit number.
pub open spec fn saturated(v: nat) -> u64 {
    if v <= u64::MAX {
        v as u64
    } else {
        u64::MAX
    }
}

/// `v` where it fits in 32 bits, else the largest 32-bit number.
pub open spec fn saturated_count(v: nat) -> u32 {
    if v <= u32::MAX {
        v as u32
    } else {
        u32::MAX
    }
}

/// What reading `s` gives: for a numeral its value, saturated at the
/// largest 64-bit number; for any other text, nothing.
pub open spec fn parse_numeral_spec(s: Seq<char>) -> Option<u64> {
    if is_numeral(s) {
        Some(saturated(numeral_value(s)))
    } else {
        None
    }
}

/// Reads a numeral. A value too large for 64 bits is not refused: it is
/// given as the largest 64-bit number.
pub fn parse_numeral(text: &Vec<char>) -> (out: Option<u64>)
    ensures
        out == parse_numeral_spec(text@),
{
    let n = text.len();
    let start: usize = if n > 0 && text[0] == '+' { 1 } else { 0 };
    let ghost d = numeral_digits(text@);
    proof {
        assert(d == text@.skip(start as int));
    }
    if start == n {
        return None;
    }
    let mut value: u64 = 0;
    let mut i: usize = start;
    while i < n
        invariant
            n == text@.len(),
            start <= i <= n,
            d == text@.skip(start as int),
            d == numeral_digits(text@),
            all_digits(d.take(i - start)),
            value == saturated(decimal_value(d.take(i - start))),
        decreases n - i,
    {
        let c = text[i];
        let ghost prefix = d.take(i - start + 1);
        proof {
            assert(d[i - start] == c);
            assert(prefix.drop_last() == d.take(i - start));
            assert(prefix.last() == c);
        }
        if !('0' <= c && c <= '9') {
            proof {
                assert(!is_digit(d[i - start]));
            }
            return None;
        }
        let digit: u128 = (c as u32 - '0' as u32) as u128;
        let next: u128 = value as u128 * 10 + digit;
        proof {
            assert forall|k: int| 0 <= k < prefix.len() implies is_digit(#[trigger] prefix[k]) by {
                if k < i - start {
                    assert(prefix[k] == d.take(i - start)[k]);
                }
            }
        }
        value = if next > 0xffff_ffff_ffff_ffff { 0xffff_ffff_ffff_ffff } else { next as u64 };
        i += 1;
    }
    proof {
        assert(d.take(n - start) == d);
    }
    Some(value)
}

/// The replacement count that an argument denotes: for a numeral its
/// value, saturated at the largest 32-bit number; for any other text, the
/// error `InvalidCount`.
pub open spec fn count_of(arg: Seq<char>) -> Result<u32, TransformError> {
    if is_numeral(arg) {
        Ok(saturated_count(numeral_value(arg)))
    } else {
        Err(TransformError::InvalidCount)
    }
}

/// Reads a replacement count from its argument. A numeral too large for
/// 32 bits is not refused: it counts as the largest 32-bit number.
pub fn parse_count(arg: &str) -> (out: Result<u32, TransformError>)
    ensures
        out == count_of(arg@),
{
    match parse_numeral(&chars_of(arg)) {
        Some(v) => Ok(if v > 0xffff_ffff { 0xffff_ffff } else { v as u32 }),
        None => Err(TransformError::InvalidCount),
    }
}

} // verus!
