//! Splitting text into fields separated by ASCII whitespace.

use vstd::prelude::*;

verus! {

/// The characters that separate fields: space, tab, line feed, form feed
/// and carriage return.
pub open spec fn is_separator(c: char) -> bool {
    c == ' ' || c == '\t' || c == '\n' || c == '\x0C' || c == '\r'
}

/// Length of the longest prefix of `s` that holds no separator.
pub open spec fn word_len(s: Seq<char>) -> nat
    decreases s.len(),
{
    if s.len() == 0 || is_separator(s[0]) {
        0
    } else {
        1 + word_len(s.drop_first())
    }
}

/// The fields of `s`: its maximal runs of characters that are not
/// separators, from left to right. No field is empty.
pub open spec fn fields(s: Seq<char>) -> Seq<Seq<char>>
    decreases s.len(),
    via fields_terminates
{
    if s.len() == 0 {
        Seq::empty()
    } else if is_separator(s[0]) {
        fields(s.drop_first())
    } else {
        seq![s.take(word_len(s) as int)] + fields(s.skip(word_len(s) as int))
    }
}

#[via_fn]
proof fn fields_terminates(s: Seq<char>) {
    lemma_word_len_bounds(s);
}

/// The views of a vector of character vectors.
pub open spec fn views(v: Seq<Vec<char>>) -> Seq<Seq<char>> {
    Seq::new(v.len(), |i: int| v[i]@)
}

/// A word is never longer than the text, and is empty only where the
/// text is empty or starts with a separator.
pub proof fn lemma_word_len_bounds(s: Seq<char>)
    ensures
        word_len(s) <= s.len(),
        s.len() > 0 && !is_separator(s[0]) ==> word_len(s) >= 1,
    decreases s.len(),
{
    if s.len() > 0 && !is_separator(s[0]) {
        lemma_word_len_bounds(s.drop_first());
    }
}

/// The word at the start of `s` holds no separator, and ends at the end
/// of `s` or before a separator.
pub proof fn lemma_word_len_is_run(s: Seq<char>)
    ensures
        word_len(s) <= s.len(),
        forall|k: int| 0 <= k < word_len(s) ==> !is_separator(#[trigger] s[k]),
        word_len(s) < s.len() ==> is_separator(s[word_len(s) as int]),
    decreases s.len(),
{
    if s.len() > 0 && !is_separator(s[0]) {
        let t = s.drop_first();
        lemma_word_len_is_run(t);
        assert forall|k: int| 0 <= k < word_len(s) implies !is_separator(#[trigger] s[k]) by {
            if k > 0 {
                assert(s[k] == t[k - 1]);
            }
        }
        if word_len(s) < s.len() {
            assert(s[word_len(s) as int] == t[word_len(t) as int]);
        }
    }
}

/// Whether `w` holds at least one character and no separator.
pub open spec fn is_word(w: Seq<char>) -> bool {
    &&& w.len() > 0
    &&& forall|k: int| 0 <= k < w.len() ==> !is_separator(#[trigger] w[k])
}

/// Every field holds at least one character and no separator.
pub proof fn lemma_fields_are_words(s: Seq<char>)
    ensures
        forall|i: int| 0 <= i < fields(s).len() ==> is_word(#[trigger] fields(s)[i]),
    decreases s.len(),
{
    if s.len() == 0 {
        assert(fields(s).len() == 0);
    } else if is_separator(s[0]) {
        lemma_fields_are_words(s.drop_first());
        assert(fields(s) == fields(s.drop_first()));
    } else {
        let n = word_len(s) as int;
        lemma_word_len_bounds(s);
        lemma_word_len_is_run(s);
        lemma_fields_are_words(s.skip(n));
        let head = s.take(n);
        let tail = fields(s.skip(n));
        assert forall|i: int| 0 <= i < fields(s).len() implies is_word(#[trigger] fields(s)[i]) by {
            if i == 0 {
                assert(fields(s)[0] == head);
                assert(head.len() > 0);
                assert forall|k: int| 0 <= k < head.len() implies !is_separator(#[trigger] head[k]) by {
                    assert(head[k] == s[k]);
                }
            } else {
                assert(fields(s)[i] == tail[i - 1]);
            }
        }
    }
}

/// A run without separators that ends at the end of the text or before
/// a separator is the word at the start of the text.
pub proof fn lemma_run_is_word(s: Seq<char>, n: int)
    requires
        0 <= n <= s.len(),
        forall|k: int| 0 <= k < n ==> !is_separator(#[trigger] s[k]),
        n < s.len() ==> is_separator(s[n]),
    ensures
        word_len(s) == n,
    decreases s.len(),
{
    if n > 0 {
        let t = s.drop_first();
        assert forall|k: int| 0 <= k < n - 1 implies !is_separator(#[trigger] t[k]) by {
            assert(t[k] == s[k + 1]);
        }
        lemma_run_is_word(t, n - 1);
    }
}

/// Whether `c` separates fields.
pub fn separates(c: char) -> (b: bool)
    ensures
        b == is_separator(c),
{
    c == ' ' || c == '\t' || c == '\n' || c == '\x0C' || c == '\r'
}

/// Splits `text` into its fields.
pub fn split_fields(text: &Vec<char>) -> (out: Vec<Vec<char>>)
    ensures
        views(out@) == fields(text@),
{
    let n = text.len();
    let mut out: Vec<Vec<char>> = Vec::new();
    let mut i: usize = 0;
    proof {
        assert(text@.skip(0) == text@);
        assert(views(out@) + fields(text@.skip(0)) == fields(text@));
    }
    while i < n
        invariant
            n == text@.len(),
            i <= n,
            views(out@) + fields(text@.skip(i as int)) == fields(text@),
        decreases n - i,
    {
        let ghost rest = text@.skip(i as int);
        if separates(text[i]) {
            proof {
                assert(rest.drop_first() == text@.skip(i + 1));
            }
            i += 1;
        } else {
            let mut word: Vec<char> = Vec::new();
            let mut j: usize = i;
            while j < n && !separates(text[j])
                invariant
                    n == text@.len(),
                    i <= j <= n,
                    word@ == text@.subrange(i as int, j as int),
                    forall|k: int| i <= k < j ==> !is_separator(#[trigger] text@[k]),
                decreases n - j,
            {
                word.push(text[j]);
                j += 1;
            }
            proof {
                assert forall|k: int| 0 <= k < j - i implies !is_separator(#[trigger] rest[k]) by {
                    assert(rest[k] == text@[i + k]);
                }
                lemma_run_is_word(rest, j - i);
                assert(rest.take(j - i) == word@);
                assert(rest.skip(j - i) == text@.skip(j as int));
                assert(views(out@.push(word)) == views(out@) + seq![word@]);
            }
            out.push(word);
            i = j;
        }
    }
    proof {
        assert(views(out@) + fields(text@.skip(i as int)) == views(out@));
    }
    out
}

} // verus!
