//! Replacing occurrences of a literal pattern.

use vstd::prelude::*;
use crate::number::saturated_count;
use crate::text::{append_chars, chars_of, string_of};

verus! {

/// A limit with one match used up; no limit stays no limit.
pub open spec fn one_fewer(limit: Option<nat>) -> Option<nat> {
    match limit {
        None => None,
        Some(n) => Some((n - 1) as nat),
    }
}

/// `s` with matches of `old` replaced by `new`, scanning from the left
/// and resuming after each match, so that matches do not overlap. With
/// `Some(n)` only the first `n` matches are replaced; with `None`, all.
///
/// The empty pattern matches once before every character and once at
/// the end.
pub open spec fn replace_spec(s: Seq<char>, old: Seq<char>, new: Seq<char>, limit: Option<nat>) -> Seq<char>
    decreases s.len(),
{
    if limit == Some(0nat) {
        s
    } else if old.len() == 0 {
        if s.len() == 0 {
            new
        } else {
            new + seq![s[0]] + replace_spec(s.drop_first(), old, new, one_fewer(limit))
        }
    } else if s.len() < old.len() {
        s
    } else if s.take(old.len() as int) == old {
        new + replace_spec(s.skip(old.len() as int), old, new, one_fewer(limit))
    } else {
        seq![s[0]] + replace_spec(s.drop_first(), old, new, limit)
    }
}

/// The number of matches of `old` that a scan of `s` from the left
/// finds, resuming after each match.
pub open spec fn count_matches(s: Seq<char>, old: Seq<char>) -> nat
    decreases s.len(),
{
    if old.len() == 0 {
        s.len() + 1
    } else if s.len() < old.len() {
        0
    } else if s.take(old.len() as int) == old {
        1 + count_matches(s.skip(old.len() as int), old)
    } else {
        count_matches(s.drop_first(), old)
    }
}

/// The limit that a replacement count stands for: zero asks for every
/// match, any other count for that many.
pub open spec fn limit_of(count: nat) -> Option<nat> {
    if count == 0 {
        None
    } else {
        Some(count)
    }
}

/// Literal replacement under a replacement count.
pub open spec fn literal_replace(s: Seq<char>, old: Seq<char>, new: Seq<char>, count: nat) -> Seq<char> {
    replace_spec(s, old, new, limit_of(count))
}

/// A count that was saturated at the largest 32-bit number replaces what
/// the count itself would replace, on every text with no more matches
/// than that number.
pub proof fn lemma_saturated_count_is_exact(s: Seq<char>, old: Seq<char>, new: Seq<char>, count: nat)
    requires
        count > 0,
        count_matches(s, old) <= u32::MAX,
    ensures
        literal_replace(s, old, new, saturated_count(count) as nat) == literal_replace(
            s,
            old,
            new,
            count,
        ),
{
    if count > u32::MAX {
        lemma_limit_reaches_all(s, old, new, count);
        lemma_limit_reaches_all(s, old, new, u32::MAX as nat);
    }
}

/// The position in `s` at which its first `n` matches end: the end of
/// the `n`th match, or the end of `s` where it has fewer.
pub open spec fn end_of_matches(s: Seq<char>, old: Seq<char>, n: nat) -> nat
    decreases s.len(),
{
    if n == 0 {
        0
    } else if old.len() == 0 || s.len() < old.len() {
        s.len()
    } else if s.take(old.len() as int) == old {
        old.len() + end_of_matches(s.skip(old.len() as int), old, (n - 1) as nat)
    } else {
        1 + end_of_matches(s.drop_first(), old, n)
    }
}

/// Replacing the first `n` matches of a pattern that is not empty
/// changes the text up to the end of the `n`th match, as replacing every
/// match there does, and leaves the rest as it stands, with all the
/// matches beyond the `n`th.
pub proof fn lemma_later_matches_untouched(s: Seq<char>, old: Seq<char>, new: Seq<char>, n: nat)
    requires
        old.len() > 0,
    ensures
        end_of_matches(s, old, n) <= s.len(),
        replace_spec(s, old, new, Some(n)) == replace_spec(
            s.take(end_of_matches(s, old, n) as int),
            old,
            new,
            None,
        ) + s.skip(end_of_matches(s, old, n) as int),
        count_matches(s.skip(end_of_matches(s, old, n) as int), old) == count_matches(s, old) - (if n
            <= count_matches(s, old) {
            n
        } else {
            count_matches(s, old)
        }),
    decreases s.len(),
{
    let m = old.len() as int;
    let p = end_of_matches(s, old, n) as int;
    if n == 0 {
        assert(s.skip(0) == s);
        assert(s.take(0).len() == 0);
        assert(Seq::<char>::empty() + s == s);
    } else if s.len() < m {
        assert(s.take(p) == s);
        assert(s + s.skip(p) == s);
    } else if s.take(m) == old {
        let rest = s.skip(m);
        let q = end_of_matches(rest, old, (n - 1) as nat) as int;
        lemma_later_matches_untouched(rest, old, new, (n - 1) as nat);
        assert(one_fewer(Some(n)) == Some((n - 1) as nat));
        assert(s.take(p).take(m) == s.take(m));
        assert(s.take(p).skip(m) == rest.take(q));
        assert(rest.skip(q) == s.skip(p));
        assert(replace_spec(s.take(p), old, new, None) == new + replace_spec(
            rest.take(q),
            old,
            new,
            None,
        ));
        assert(new + (replace_spec(rest.take(q), old, new, None) + rest.skip(q)) == (new
            + replace_spec(rest.take(q), old, new, None)) + rest.skip(q));
    } else {
        let rest = s.drop_first();
        let q = end_of_matches(rest, old, n) as int;
        lemma_later_matches_untouched(rest, old, new, n);
        let head = seq![s[0]];
        assert(s.take(p).drop_first() == rest.take(q));
        assert(rest.skip(q) == s.skip(p));
        if p >= m {
            assert(s.take(p).take(m) == s.take(m));
            assert(s.take(p)[0] == s[0]);
        } else {
            assert(head + rest.take(q) == s.take(p));
        }
        assert(replace_spec(s.take(p), old, new, None) == head + replace_spec(
            rest.take(q),
            old,
            new,
            None,
        ));
        assert(head + (replace_spec(rest.take(q), old, new, None) + rest.skip(q)) == (head
            + replace_spec(rest.take(q), old, new, None)) + rest.skip(q));
    }
}

/// Whether no character of `new` occurs in `old`.
pub open spec fn shares_no_character(new: Seq<char>, old: Seq<char>) -> bool {
    forall|i: int| 0 <= i < new.len() ==> !old.contains(#[trigger] new[i])
}

/// A limit that is at least the number of matches replaces every match.
pub proof fn lemma_limit_reaches_all(s: Seq<char>, old: Seq<char>, new: Seq<char>, limit: nat)
    requires
        limit >= count_matches(s, old),
    ensures
        replace_spec(s, old, new, Some(limit)) == replace_spec(s, old, new, None),
    decreases s.len(),
{
    let m = old.len() as int;
    if m == 0 {
        if s.len() > 0 {
            lemma_limit_reaches_all(s.drop_first(), old, new, (limit - 1) as nat);
        }
    } else if s.len() < m {
    } else if s.take(m) == old {
        lemma_limit_reaches_all(s.skip(m), old, new, (limit - 1) as nat);
    } else {
        lemma_limit_reaches_all(s.drop_first(), old, new, limit);
        if limit == 0 {
            assert(seq![s[0]] + s.drop_first() == s);
        }
    }
}

/// Replacing with count zero gives what replacing with a count equal to
/// the number of matches gives.
pub proof fn lemma_count_zero_is_match_count(s: Seq<char>, old: Seq<char>, new: Seq<char>)
    ensures
        literal_replace(s, old, new, 0) == literal_replace(s, old, new, count_matches(s, old)),
{
    lemma_limit_reaches_all(s, old, new, count_matches(s, old));
}

/// Characters that do not occur in the pattern, put before a text, add
/// no match to it.
pub proof fn lemma_barrier_adds_no_match(barrier: Seq<char>, x: Seq<char>, old: Seq<char>)
    requires
        old.len() > 0,
        shares_no_character(barrier, old),
    ensures
        count_matches(barrier + x, old) == count_matches(x, old),
    decreases barrier.len(),
{
    let m = old.len() as int;
    let whole = barrier + x;
    if barrier.len() == 0 {
        assert(whole == x);
    } else {
        let shorter = barrier.drop_first();
        assert(whole.drop_first() == shorter + x);
        assert forall|i: int| 0 <= i < shorter.len() implies !old.contains(#[trigger] shorter[i]) by {
            assert(shorter[i] == barrier[i + 1]);
        }
        lemma_barrier_adds_no_match(shorter, x, old);
        if whole.len() >= m && whole.take(m) == old {
            assert(whole.take(m)[0] == barrier[0]);
            assert(old[0] == barrier[0]);
            assert(old.contains(barrier[0]));
        }
    }
}

/// Where the first `k` characters of a replaced text all occur in the
/// pattern, none of them was put there by a replacement: they are the
/// first `k` characters of the text before the replacement.
pub proof fn lemma_replaced_prefix(
    t: Seq<char>,
    old: Seq<char>,
    new: Seq<char>,
    limit: Option<nat>,
    k: int,
)
    requires
        old.len() > 0,
        new.len() > 0,
        shares_no_character(new, old),
        0 <= k <= t.len(),
        k <= replace_spec(t, old, new, limit).len(),
        forall|j: int| 0 <= j < k ==> old.contains(#[trigger] replace_spec(t, old, new, limit)[j]),
    ensures
        forall|j: int| 0 <= j < k ==> #[trigger] replace_spec(t, old, new, limit)[j] == t[j],
    decreases t.len(),
{
    let m = old.len() as int;
    let x = replace_spec(t, old, new, limit);
    if limit == Some(0nat) {
    } else if t.len() < m {
    } else if t.take(m) == old {
        if k >= 1 {
            assert(x[0] == new[0]);
            assert(old.contains(x[0]));
            assert(!old.contains(new[0]));
        }
    } else {
        let t1 = t.drop_first();
        let x1 = replace_spec(t1, old, new, limit);
        assert(x == seq![t[0]] + x1);
        if k >= 1 {
            assert forall|j: int| 0 <= j < k - 1 implies old.contains(#[trigger] x1[j]) by {
                assert(x1[j] == x[j + 1]);
            }
            lemma_replaced_prefix(t1, old, new, limit, k - 1);
            assert forall|j: int| 0 <= j < k implies #[trigger] x[j] == t[j] by {
                if j > 0 {
                    assert(x[j] == x1[j - 1]);
                    assert(t[j] == t1[j - 1]);
                }
            }
        }
    }
}

/// Replacing the first `n` matches leaves the later ones: where the
/// pattern is not empty, and the replacement is not empty and shares no
/// character with the pattern, the output holds as many matches as the
/// input, less `n` or less all of them if there are fewer.
pub proof fn lemma_replace_lowers_count(s: Seq<char>, old: Seq<char>, new: Seq<char>, n: nat)
    requires
        old.len() > 0,
        new.len() > 0,
        shares_no_character(new, old),
    ensures
        count_matches(replace_spec(s, old, new, Some(n)), old) == count_matches(s, old) - (if n
            <= count_matches(s, old) {
            n
        } else {
            count_matches(s, old)
        }),
    decreases s.len(),
{
    let m = old.len() as int;
    if n == 0 {
    } else if s.len() < m {
    } else if s.take(m) == old {
        let rest = s.skip(m);
        let x = replace_spec(rest, old, new, Some((n - 1) as nat));
        assert(one_fewer(Some(n)) == Some((n - 1) as nat));
        lemma_barrier_adds_no_match(new, x, old);
        lemma_replace_lowers_count(rest, old, new, (n - 1) as nat);
    } else {
        let t = s.drop_first();
        let x = replace_spec(t, old, new, Some(n));
        let out = seq![s[0]] + x;
        lemma_replace_lowers_count(t, old, new, n);
        assert(out.drop_first() == x);
        if out.len() >= m && out.take(m) == old {
            assert forall|j: int| 0 <= j < m - 1 implies old.contains(#[trigger] x[j]) by {
                assert(x[j] == out.take(m)[j + 1]);
                assert(old[j + 1] == x[j]);
            }
            lemma_replaced_prefix(t, old, new, Some(n), m - 1);
            assert forall|j: int| 0 <= j < m implies out.take(m)[j] == s.take(m)[j] by {
                if j > 0 {
                    assert(out[j] == x[j - 1]);
                    assert(s[j] == t[j - 1]);
                }
            }
            assert(out.take(m) =~= s.take(m));
        }
    }
}

/// The same law for a replacement count: a count `n` above zero leaves
/// `count_matches(input) - min(n, count_matches(input))` matches, for a
/// pattern and a replacement as above.
pub proof fn lemma_count_leaves_later_matches(s: Seq<char>, old: Seq<char>, new: Seq<char>, n: nat)
    requires
        n > 0,
        old.len() > 0,
        new.len() > 0,
        shares_no_character(new, old),
    ensures
        count_matches(literal_replace(s, old, new, n), old) == count_matches(s, old) - (if n
            <= count_matches(s, old) {
            n
        } else {
            count_matches(s, old)
        }),
{
    lemma_replace_lowers_count(s, old, new, n);
}

/// Whether `old` stands in `text` at position `at`.
fn matches_here(text: &Vec<char>, at: usize, old: &Vec<char>) -> (out: bool)
    requires
        at + old@.len() <= text@.len(),
    ensures
        out == (text@.subrange(at as int, at + old@.len()) == old@),
{
    let n = text.len();
    let m = old.len();
    let mut k: usize = 0;
    while k < m
        invariant
            n == text@.len(),
            m == old@.len(),
            at + m <= text@.len(),
            k <= m,
            forall|j: int| 0 <= j < k ==> text@[at + j] == old@[j],
        decreases m - k,
    {
        if text[at + k] != old[k] {
            proof {
                assert(text@.subrange(at as int, at + m)[k as int] == text@[at + k]);
            }
            return false;
        }
        k += 1;
    }
    proof {
        assert(text@.subrange(at as int, at + m) =~= old@);
    }
    true
}

/// Replaces matches of `old` in `text` by `new`: all of them where
/// `count` is zero, else the first `count`.
pub fn replace_chars(text: &Vec<char>, old: &Vec<char>, new: &Vec<char>, count: u32) -> (out: Vec<char>)
    ensures
        out@ == literal_replace(text@, old@, new@, count as nat),
{
    let n = text.len();
    let m = old.len();
    let unbounded = count == 0;
    let mut remaining: u32 = count;
    let mut out: Vec<char> = Vec::new();
    let mut i: usize = 0;
    let mut scanning = true;
    let ghost target = literal_replace(text@, old@, new@, count as nat);
    proof {
        assert(text@.skip(0) == text@);
        assert(out@ + target == target);
    }
    while scanning
        invariant
            n == text@.len(),
            m == old@.len(),
            i <= n,
            unbounded ==> remaining == 0,
            scanning ==> unbounded || remaining > 0,
            scanning ==> target == out@ + replace_spec(
                text@.skip(i as int),
                old@,
                new@,
                if unbounded { None } else { Some(remaining as nat) },
            ),
            !scanning ==> target == out@ + text@.skip(i as int),
        decreases n - i + (if scanning { 1nat } else { 0nat }),
    {
        let ghost rest = text@.skip(i as int);
        let ghost limit: Option<nat> = if unbounded { None } else { Some(remaining as nat) };
        let ghost done = out@;
        if m == 0 {
            append_chars(&mut out, new);
            if i == n {
                scanning = false;
                proof {
                    assert(out@ + text@.skip(i as int) == out@);
                }
            } else {
                out.push(text[i]);
                proof {
                    assert(rest.drop_first() == text@.skip(i + 1));
                    assert(out@ == done + (new@ + seq![rest[0]]));
                    assert(target == out@ + replace_spec(rest.drop_first(), old@, new@, one_fewer(limit)));
                }
                i += 1;
            }
        } else if n - i < m {
            scanning = false;
        } else if matches_here(text, i, old) {
            append_chars(&mut out, new);
            proof {
                assert(rest.take(m as int) == text@.subrange(i as int, i + m));
                assert(rest.skip(m as int) == text@.skip(i + m));
                assert(target == out@ + replace_spec(rest.skip(m as int), old@, new@, one_fewer(limit)));
            }
            i += m;
        } else {
            out.push(text[i]);
            proof {
                assert(rest.take(m as int) == text@.subrange(i as int, i + m));
                assert(rest.drop_first() == text@.skip(i + 1));
                assert(out@ == done + seq![rest[0]]);
                assert(target == out@ + replace_spec(rest.drop_first(), old@, new@, limit));
            }
            i += 1;
            continue;
        }
        if scanning && !unbounded {
            remaining -= 1;
            if remaining == 0 {
                scanning = false;
            }
        }
    }
    let mut k: usize = i;
    while k < n
        invariant
            n == text@.len(),
            i <= k <= n,
            target == out@ + text@.skip(k as int),
        decreases n - k,
    {
        out.push(text[k]);
        proof {
            assert(text@.skip(k as int) == seq![text@[k as int]] + text@.skip(k + 1));
        }
        k += 1;
    }
    proof {
        assert(out@ + text@.skip(n as int) == out@);
    }
    out
}

/// Replaces matches of the literal `old_pattern` in `input` by
/// `new_pattern`: all of them where `num_flag` is zero, else the first
/// `num_flag`, counted from the left.
pub fn find_replace_string(input: String, old_pattern: String, new_pattern: String, num_flag: u32) -> (out:
    String)
    ensures
        out@ == literal_replace(input@, old_pattern@, new_pattern@, num_flag as nat),
{
    let replaced = replace_chars(
        &chars_of(input.as_str()),
        &chars_of(old_pattern.as_str()),
        &chars_of(new_pattern.as_str()),
        num_flag,
    );
    proof {
        assert(replaced@.subrange(0, replaced@.len() as int) == replaced@);
    }
    string_of(&replaced, 0, replaced.len())
}

} // verus!
