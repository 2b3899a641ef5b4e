//! Selecting fields of the input by their positions.

use vstd::prelude::*;
use crate::error::{same_text, TransformError};
use crate::fields::{fields, split_fields, views};
use crate::number::{is_numeral, numeral_value, parse_numeral, saturated};
use crate::text::{append_chars, chars_of, string_of};

verus! {

/// Whether `position` is the first token that is no numeral.
pub open spec fn is_first_invalid(tokens: Seq<Seq<char>>, position: int) -> bool {
    &&& 0 <= position < tokens.len()
    &&& !is_numeral(tokens[position])
    &&& forall|k: int| 0 <= k < position ==> is_numeral(#[trigger] tokens[k])
}

/// Whether every token is a numeral.
pub open spec fn all_numerals(tokens: Seq<Seq<char>>) -> bool {
    forall|k: int| 0 <= k < tokens.len() ==> is_numeral(#[trigger] tokens[k])
}

/// The numbers that the tokens denote, in the tokens' order and however
/// large; or, where a token is no numeral, the error that names the first
/// such token.
pub open spec fn indices_of(tokens: Seq<Seq<char>>) -> Result<Seq<nat>, TransformError> {
    if all_numerals(tokens) {
        Ok(Seq::new(tokens.len(), |k: int| numeral_value(tokens[k])))
    } else {
        Err(
            TransformError::InvalidIndex {
                position: (choose|p: int| is_first_invalid(tokens, p)) as usize,
            },
        )
    }
}

/// The indices that a selection string asks for.
pub open spec fn selection_of(selection: Seq<char>) -> Result<Seq<nat>, TransformError> {
    indices_of(fields(selection))
}

/// The numbers as 64-bit numbers: each as it is where it fits, else the
/// largest 64-bit number.
pub open spec fn saturated_all(values: Seq<nat>) -> Seq<u64> {
    Seq::new(values.len(), |k: int| saturated(values[k]))
}

/// The numbers of `v` as natural numbers.
pub open spec fn naturals(v: Seq<u64>) -> Seq<nat> {
    Seq::new(v.len(), |k: int| v[k] as nat)
}

/// The largest number of `s`; zero where `s` is empty.
pub open spec fn largest(s: Seq<nat>) -> nat
    decreases s.len(),
{
    if s.len() == 0 {
        0
    } else if s.last() > largest(s.drop_last()) {
        s.last()
    } else {
        largest(s.drop_last())
    }
}

/// The parts in order, with one space between neighbours.
pub open spec fn join_with_space(parts: Seq<Seq<char>>) -> Seq<char>
    decreases parts.len(),
{
    if parts.len() == 0 {
        Seq::empty()
    } else if parts.len() == 1 {
        parts[0]
    } else {
        join_with_space(parts.drop_last()) + seq![' '] + parts.last()
    }
}

/// The fields that the indices pick, in the indices' order.
pub open spec fn picked(all: Seq<Seq<char>>, indices: Seq<nat>) -> Seq<Seq<char>> {
    Seq::new(indices.len(), |k: int| all[indices[k] as int])
}

/// What a selection makes of an input: the input itself for the empty
/// selection; else the picked fields joined by spaces, provided that
/// every token of the selection is a numeral and the largest of their
/// values is below the number of the input's fields. The range error
/// carries that largest value, saturated at the largest 64-bit number.
pub open spec fn cut_spec(input: Seq<char>, selection: Seq<char>) -> Result<
    Seq<char>,
    TransformError,
> {
    if selection.len() == 0 {
        Ok(input)
    } else {
        match selection_of(selection) {
            Err(e) => Err(e),
            Ok(indices) => if indices.len() > 0 && largest(indices) >= fields(input).len() {
                Err(
                    TransformError::OutOfRange {
                        index: saturated(largest(indices)),
                        field_count: fields(input).len() as usize,
                    },
                )
            } else {
                Ok(join_with_space(picked(fields(input), indices)))
            },
        }
    }
}

/// Whether a result holds the expected numbers, each saturated at the
/// largest 64-bit number, or the expected error.
pub open spec fn same_indices(
    out: Result<Vec<u64>, TransformError>,
    expected: Result<Seq<nat>, TransformError>,
) -> bool {
    match (out, expected) {
        (Ok(v), Ok(s)) => v@ == saturated_all(s),
        (Err(a), Err(b)) => a == b,
        _ => false,
    }
}

/// The first token that is no numeral is the one that the error names.
pub proof fn lemma_first_invalid_is_reported(tokens: Seq<Seq<char>>, position: int)
    requires
        is_first_invalid(tokens, position),
    ensures
        indices_of(tokens) == Err::<Seq<nat>, TransformError>(
            TransformError::InvalidIndex { position: position as usize },
        ),
{
    assert(!all_numerals(tokens));
    let p = choose|p: int| is_first_invalid(tokens, p);
    if p < position {
        assert(is_numeral(tokens[p]));
    } else if position < p {
        assert(is_numeral(tokens[position]));
    }
}

/// A selection is refused as `InvalidIndex` exactly where one of its
/// tokens is no numeral; the size of a numeral plays no part.
pub proof fn lemma_invalid_index_iff_not_numeral(selection: Seq<char>)
    ensures
        selection_of(selection) is Err <==> !all_numerals(fields(selection)),
        selection_of(selection) is Err ==> selection_of(selection)->Err_0 is InvalidIndex,
{
}

/// The empty selection asks for no index.
pub proof fn lemma_empty_selection_has_no_index(selection: Seq<char>)
    requires
        selection.len() == 0,
    ensures
        selection_of(selection) == Ok::<Seq<nat>, TransformError>(Seq::empty()),
{
    assert(fields(selection).len() == 0);
    assert(all_numerals(fields(selection)));
    assert(selection_of(selection)->Ok_0 =~= Seq::<nat>::empty());
}

/// The largest number of a sequence is at least each of its numbers, and
/// is one of them unless the sequence is empty.
pub proof fn lemma_largest(s: Seq<nat>)
    ensures
        forall|k: int| 0 <= k < s.len() ==> #[trigger] s[k] <= largest(s),
        s.len() > 0 ==> exists|k: int| 0 <= k < s.len() && #[trigger] s[k] == largest(s),
    decreases s.len(),
{
    if s.len() > 0 {
        let t = s.drop_last();
        lemma_largest(t);
        assert forall|k: int| 0 <= k < s.len() implies #[trigger] s[k] <= largest(s) by {
            if k < t.len() {
                assert(s[k] == t[k]);
            }
        }
        if s.last() > largest(t) || t.len() == 0 {
            assert(s[s.len() - 1] == largest(s));
        } else {
            let k = choose|k: int| 0 <= k < t.len() && #[trigger] t[k] == largest(t);
            assert(s[k] == largest(s));
        }
    }
}

/// Saturating each number and taking the largest gives the largest
/// number, saturated.
pub proof fn lemma_largest_saturates(values: Seq<nat>)
    ensures
        largest(naturals(saturated_all(values))) == saturated(largest(values)),
    decreases values.len(),
{
    if values.len() > 0 {
        lemma_largest_saturates(values.drop_last());
        assert(naturals(saturated_all(values)).drop_last() == naturals(
            saturated_all(values.drop_last()),
        ));
        assert(naturals(saturated_all(values)).last() == saturated(values.last()));
    }
}

/// A selection of the single index `i`, where the input has a field
/// `i`, gives that field.
pub proof fn lemma_single_index_gives_field(input: Seq<char>, selection: Seq<char>, i: nat)
    requires
        selection_of(selection) == Ok::<Seq<nat>, TransformError>(seq![i]),
        i < fields(input).len(),
    ensures
        cut_spec(input, selection) == Ok::<Seq<char>, TransformError>(fields(input)[i as int]),
{
    let indices = seq![i];
    if selection.len() == 0 {
        lemma_empty_selection_has_no_index(selection);
        assert(indices.len() == 1);
    }
    assert(indices.drop_last().len() == 0);
    assert(largest(indices.drop_last()) == 0);
    assert(largest(indices) == i);
    assert(picked(fields(input), indices).len() == 1);
    assert(picked(fields(input), indices)[0] == fields(input)[i as int]);
}

/// A selection whose tokens are all numerals, one of them with a value
/// at or above the number of the input's fields, gives a range error,
/// wherever that token stands and however large its value is. The error
/// names the largest value asked for, saturated at the largest 64-bit
/// number, and the number of fields.
pub proof fn lemma_index_beyond_fields_fails(
    input: Seq<char>,
    selection: Seq<char>,
    indices: Seq<nat>,
    k: int,
)
    requires
        selection_of(selection) == Ok::<Seq<nat>, TransformError>(indices),
        0 <= k < indices.len(),
        indices[k] >= fields(input).len(),
    ensures
        cut_spec(input, selection) == Err::<Seq<char>, TransformError>(
            TransformError::OutOfRange {
                index: saturated(largest(indices)),
                field_count: fields(input).len() as usize,
            },
        ),
        largest(indices) >= indices[k],
{
    lemma_largest(indices);
    if selection.len() == 0 {
        lemma_empty_selection_has_no_index(selection);
    }
}

/// The empty selection gives the input back, whatever the input.
pub proof fn lemma_empty_selection_keeps_input(input: Seq<char>)
    ensures
        cut_spec(input, Seq::empty()) == Ok::<Seq<char>, TransformError>(input),
{
}

/// Reads the indices that a selection string asks for: its fields, each
/// read as a numeral, in their order and with repeats. An index too
/// large for 64 bits is given as the largest 64-bit number.
pub fn parse_selection(selection: String) -> (out: Result<Vec<u64>, TransformError>)
    ensures
        same_indices(out, selection_of(selection@)),
{
    let tokens = split_fields(&chars_of(selection.as_str()));
    let ghost toks = fields(selection@);
    let mut indices: Vec<u64> = Vec::new();
    let mut i: usize = 0;
    while i < tokens.len()
        invariant
            toks == fields(selection@),
            views(tokens@) == toks,
            i <= tokens.len(),
            indices@.len() == i,
            forall|k: int| 0 <= k < i ==> is_numeral(#[trigger] toks[k]),
            forall|k: int| 0 <= k < i ==> #[trigger] indices@[k] == saturated(numeral_value(toks[k])),
        decreases tokens.len() - i,
    {
        proof {
            assert(toks[i as int] == tokens@[i as int]@);
        }
        match parse_numeral(&tokens[i]) {
            Some(n) => {
                indices.push(n);
            },
            None => {
                proof {
                    lemma_first_invalid_is_reported(toks, i as int);
                }
                return Err(TransformError::InvalidIndex { position: i });
            },
        }
        i += 1;
    }
    proof {
        assert(all_numerals(toks));
        assert(indices@ =~= saturated_all(selection_of(selection@)->Ok_0));
    }
    Ok(indices)
}

/// The largest of the indices; zero where there is none.
pub fn largest_of(indices: &Vec<u64>) -> (out: u64)
    ensures
        out == largest(naturals(indices@)),
{
    let mut best: u64 = 0;
    let mut i: usize = 0;
    let ghost all = naturals(indices@);
    while i < indices.len()
        invariant
            i <= indices.len(),
            all == naturals(indices@),
            best == largest(all.take(i as int)),
        decreases indices.len() - i,
    {
        proof {
            assert(all.take(i + 1).drop_last() == all.take(i as int));
            assert(all.take(i + 1).last() == indices@[i as int]);
        }
        if indices[i] > best {
            best = indices[i];
        }
        i += 1;
    }
    proof {
        assert(all.take(i as int) == all);
    }
    best
}

/// Selects fields of `input` by the indices that `selection` lists.
///
/// The empty selection gives the input back. Otherwise the input is split
/// into fields at ASCII whitespace, and the result is the selected fields
/// joined by single spaces, in the order in which the selection names
/// them, repeats included. A selection token that is no numeral is
/// refused first; then a largest index that is not below the number of
/// fields, whatever its size. A selection of whitespace alone names no
/// field and gives the empty text.
pub fn cut(input: String, selection: String) -> (out: Result<String, TransformError>)
    ensures
        same_text(out, cut_spec(input@, selection@)),
        selection@.len() == 0 ==> out == Ok::<String, TransformError>(input),
{
    if selection.as_str().is_empty() {
        return Ok(input);
    }
    let ghost wanted = selection_of(selection@);
    let indices = match parse_selection(selection) {
        Ok(indices) => indices,
        Err(e) => {
            return Err(e);
        },
    };
    let ghost values = wanted->Ok_0;
    let tokens = split_fields(&chars_of(input.as_str()));
    let ghost all = fields(input@);
    let top = largest_of(&indices);
    proof {
        lemma_largest_saturates(values);
        lemma_largest(values);
    }
    if indices.len() > 0 && top >= tokens.len() as u64 {
        return Err(TransformError::OutOfRange { index: top, field_count: tokens.len() });
    }
    let ghost parts = picked(all, values);
    let mut joined: Vec<char> = Vec::new();
    let mut k: usize = 0;
    while k < indices.len()
        invariant
            k <= indices.len(),
            all == fields(input@),
            views(tokens@) == all,
            wanted == Ok::<Seq<nat>, TransformError>(values),
            indices@ == saturated_all(values),
            parts == picked(all, values),
            forall|j: int| 0 <= j < values.len() ==> (#[trigger] values[j]) < tokens@.len(),
            joined@ == join_with_space(parts.take(k as int)),
        decreases indices.len() - k,
    {
        let ghost before = parts.take(k as int);
        let ghost after = parts.take(k + 1);
        proof {
            assert(indices@[k as int] == saturated(values[k as int]));
            assert(values[k as int] < tokens@.len());
        }
        let at = indices[k] as usize;
        proof {
            assert(at == values[k as int]);
            assert(after.drop_last() == before);
            assert(after.last() == all[at as int]);
            assert(all[at as int] == tokens@[at as int]@);
        }
        if k > 0 {
            joined.push(' ');
            proof {
                assert(joined@ == join_with_space(before) + seq![' ']);
            }
        }
        append_chars(&mut joined, &tokens[at]);
        k += 1;
    }
    proof {
        assert(parts.take(k as int) == parts);
        assert(joined@.subrange(0, joined@.len() as int) == joined@);
    }
    Ok(string_of(&joined, 0, joined.len()))
}

} // verus!
