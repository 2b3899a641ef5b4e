//! Assembling the input buffer from the lines that were read.

use vstd::prelude::*;
use crate::text::{append_chars, chars_of, string_of};

verus! {

/// The characters with the Unicode property `White_Space`.
pub open spec fn is_whitespace(c: char) -> bool {
    ||| '\u{9}' <= c <= '\u{d}'
    ||| c == ' '
    ||| c == '\u{85}'
    ||| c == '\u{a0}'
    ||| c == '\u{1680}'
    ||| '\u{2000}' <= c <= '\u{200a}'
    ||| c == '\u{2028}'
    ||| c == '\u{2029}'
    ||| c == '\u{202f}'
    ||| c == '\u{205f}'
    ||| c == '\u{3000}'
}

/// The number of whitespace characters at the start of `s`.
pub open spec fn leading_whitespace(s: Seq<char>) -> nat
    decreases s.len(),
{
    if s.len() > 0 && is_whitespace(s[0]) {
        1 + leading_whitespace(s.drop_first())
    } else {
        0
    }
}

/// The number of whitespace characters at the end of `s`.
pub open spec fn trailing_whitespace(s: Seq<char>) -> nat
    decreases s.len(),
{
    if s.len() > 0 && is_whitespace(s.last()) {
        1 + trailing_whitespace(s.drop_last())
    } else {
        0
    }
}

/// `s` without the whitespace at its start and at its end.
pub open spec fn trimmed(s: Seq<char>) -> Seq<char> {
    if leading_whitespace(s) >= s.len() {
        Seq::empty()
    } else {
        s.subrange(leading_whitespace(s) as int, s.len() - trailing_whitespace(s))
    }
}

/// The lines in order, each followed by a line feed.
pub open spec fn terminated_lines(lines: Seq<Seq<char>>) -> Seq<char>
    decreases lines.len(),
{
    if lines.len() == 0 {
        Seq::empty()
    } else {
        terminated_lines(lines.drop_last()) + lines.last() + seq!['\n']
    }
}

/// `s` without its last character, if it has one.
pub open spec fn without_last(s: Seq<char>) -> Seq<char> {
    if s.len() > 0 {
        s.drop_last()
    } else {
        s
    }
}

/// The input buffer that the lines make: the lines joined by line
/// feeds, without whitespace at either end.
pub open spec fn buffer_of(lines: Seq<Seq<char>>) -> Seq<char> {
    trimmed(without_last(terminated_lines(lines)))
}

/// The character sequences that the strings denote.
pub open spec fn line_views(lines: Seq<String>) -> Seq<Seq<char>> {
    Seq::new(lines.len(), |i: int| lines[i]@)
}

/// Whether `c` is whitespace.
pub fn is_blank(c: char) -> (out: bool)
    ensures
        out == is_whitespace(c),
{
    ('\u{9}' <= c && c <= '\u{d}') || c == ' ' || c == '\u{85}' || c == '\u{a0}' || c == '\u{1680}'
        || ('\u{2000}' <= c && c <= '\u{200a}') || c == '\u{2028}' || c == '\u{2029}' || c
        == '\u{202f}' || c == '\u{205f}' || c == '\u{3000}'
}

/// Removes the whitespace at the start and at the end of `text`.
pub fn trim_chars(text: &Vec<char>) -> (out: String)
    ensures
        out@ == trimmed(text@),
{
    let n = text.len();
    let mut a: usize = 0;
    proof {
        assert(text@.skip(0) == text@);
    }
    while a < n && is_blank(text[a])
        invariant
            n == text@.len(),
            a <= n,
            leading_whitespace(text@) == a + leading_whitespace(text@.skip(a as int)),
        decreases n - a,
    {
        proof {
            assert(text@.skip(a as int).drop_first() == text@.skip(a + 1));
        }
        a += 1;
    }
    if a == n {
        return String::new();
    }
    let mut e: usize = n;
    proof {
        assert(text@.take(n as int) == text@);
        assert(text@.skip(a as int)[0] == text@[a as int]);
    }
    while e > a + 1 && is_blank(text[e - 1])
        invariant
            n == text@.len(),
            a < e <= n,
            !is_whitespace(text@[a as int]),
            trailing_whitespace(text@) == (n - e) + trailing_whitespace(text@.take(e as int)),
        decreases e,
    {
        proof {
            assert(text@.take(e as int).drop_last() == text@.take(e - 1));
        }
        e -= 1;
    }
    proof {
        assert(text@.take(e as int).last() == text@[e - 1]);
        assert(trailing_whitespace(text@.take(e as int)) == 0);
    }
    string_of(text, a, e)
}

/// Assembles the input buffer from the lines read: every line is
/// followed by a line feed, the last line feed is dropped, and the
/// whitespace at both ends of the whole is removed.
pub fn assemble_input(lines: &Vec<String>) -> (out: String)
    ensures
        out@ == buffer_of(line_views(lines@)),
{
    let ghost all = line_views(lines@);
    let mut joined: Vec<char> = Vec::new();
    let mut i: usize = 0;
    while i < lines.len()
        invariant
            i <= lines.len(),
            all == line_views(lines@),
            joined@ == terminated_lines(all.take(i as int)),
        decreases lines.len() - i,
    {
        proof {
            assert(all.take(i + 1).drop_last() == all.take(i as int));
            assert(all.take(i + 1).last() == lines@[i as int]@);
        }
        append_chars(&mut joined, &chars_of(lines[i].as_str()));
        joined.push('\n');
        i += 1;
    }
    proof {
        assert(all.take(i as int) == all);
    }
    joined.pop();
    trim_chars(&joined)
}

} // verus!
