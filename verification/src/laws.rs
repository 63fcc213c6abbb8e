//! The engine's general guarantees, stated over the model and proved once
//! for every input.

use vstd::prelude::*;

use crate::model::{
    bound_is_exact, bound_ok, bound_value, chars_of_word, filtered_words, has_letter, is_letter,
    lemma_has_letter_count, letter_count, letter_ok, lower_chars, matches_filter, word_matches,
    word_of_chars, FilterModel,
};

verus! {

/// Law: rendering a constructed word yields exactly the string the word
/// was built from.
pub proof fn lemma_word_round_trip(s: Seq<char>)
    requires
        lower_chars(s),
    ensures
        chars_of_word(word_of_chars(s)) == s,
{
    assert(chars_of_word(word_of_chars(s)) =~= s);
}

/// Filtering a sequence whose members all satisfy the predicate keeps it
/// unchanged.
proof fn lemma_filter_fixed(s: Seq<Seq<u8>>, pred: spec_fn(Seq<u8>) -> bool)
    requires
        forall|i: int| 0 <= i < s.len() ==> pred(#[trigger] s[i]),
    ensures
        s.filter(pred) == s,
    decreases s.len(),
{
    reveal_with_fuel(Seq::<_>::filter, 2);
    if s.len() > 0 {
        assert forall|i: int| 0 <= i < s.drop_last().len() implies pred(
            #[trigger] s.drop_last()[i],
        ) by {
            assert(s.drop_last()[i] == s[i]);
        }
        lemma_filter_fixed(s.drop_last(), pred);
        assert(pred(s.last()));
        assert(s.filter(pred) =~= s);
    } else {
        assert(s.filter(pred) =~= s);
    }
}

/// Law: filtering is idempotent — filtering a word list, then filtering
/// the result by a filter with the same matching relation, yields the
/// once-filtered list unchanged.
pub proof fn lemma_filter_idempotent(ws: Seq<Seq<u8>>, m1: FilterModel, m2: FilterModel)
    requires
        forall|w: Seq<u8>| #[trigger] word_matches(w, m1) == word_matches(w, m2),
    ensures
        filtered_words(filtered_words(ws, m1), m2) == filtered_words(ws, m1),
{
    let once = filtered_words(ws, m1);
    assert forall|i: int| 0 <= i < once.len() implies matches_filter(m2)(#[trigger] once[i]) by {
        ws.lemma_filter_pred(matches_filter(m1), i);
        assert(word_matches(once[i], m1));
    }
    lemma_filter_fixed(once, matches_filter(m2));
}

/// Law: filtering never enlarges the candidate set.
pub proof fn lemma_filter_shrinks(ws: Seq<Seq<u8>>, m: FilterModel)
    ensures
        filtered_words(ws, m).len() <= ws.len(),
{
    ws.lemma_filter_len(matches_filter(m));
}

/// Law: every candidate surviving a filtering pass is consistent with the
/// whole filter — there is no partial satisfaction.
pub proof fn lemma_survivor_matches(ws: Seq<Seq<u8>>, m: FilterModel, i: int)
    requires
        0 <= i < filtered_words(ws, m).len(),
    ensures
        word_matches(filtered_words(ws, m)[i], m),
{
    ws.lemma_filter_pred(matches_filter(m), i);
}

/// Law: filtering drops nothing it should keep — a listed word consistent
/// with the filter is in the result.
pub proof fn lemma_matching_word_survives(ws: Seq<Seq<u8>>, m: FilterModel, i: int)
    requires
        0 <= i < ws.len(),
        word_matches(ws[i], m),
    ensures
        filtered_words(ws, m).contains(ws[i]),
{
    ws.lemma_filter_contains(matches_filter(m), i);
}

/// Law: a surviving candidate holds the letter at every position a
/// correct verdict pinned down.
pub proof fn lemma_match_meets_required(w: Seq<u8>, m: FilterModel, b: u8, p: int)
    requires
        word_matches(w, m),
        is_letter(b),
        m.slot(b).required.contains(p),
        0 <= p < w.len(),
    ensures
        w[p] == b,
{
    assert(letter_ok(w, m.slot(b), b));
}

/// Law: a surviving candidate avoids every position a misplaced or
/// incorrect verdict ruled out for a letter.
pub proof fn lemma_match_meets_forbidden(w: Seq<u8>, m: FilterModel, b: u8, p: int)
    requires
        word_matches(w, m),
        is_letter(b),
        m.slot(b).forbidden.contains(p),
        0 <= p < w.len(),
    ensures
        w[p] != b,
{
    assert(letter_ok(w, m.slot(b), b));
}

/// Law: a surviving candidate's occurrence count for every letter
/// satisfies that letter's recorded bound.
pub proof fn lemma_match_meets_bound(w: Seq<u8>, m: FilterModel, b: u8)
    requires
        word_matches(w, m),
        is_letter(b),
    ensures
        bound_ok(m.slot(b).bound, letter_count(w, b)),
{
    assert(letter_ok(w, m.slot(b), b));
}

/// Law: a letter some verdict confirmed present occurs in every surviving
/// candidate.
pub proof fn lemma_match_meets_presence(w: Seq<u8>, m: FilterModel, b: u8)
    requires
        word_matches(w, m),
        is_letter(b),
        bound_value(m.slot(b).bound) >= 1,
    ensures
        has_letter(w, b),
{
    lemma_match_meets_bound(w, m, b);
    lemma_has_letter_count(w, b);
}

/// Law: recording a verdict only adds knowledge.  For every letter, the
/// pinned and forbidden position sets can only grow, the occurrence bound
/// never loosens, and a bound once frozen stays frozen.
pub proof fn lemma_record_monotone(m: FilterModel, b: u8, c: u8)
    requires
        m.wf(),
        is_letter(b),
        is_letter(c),
    ensures
        m.slot(b).required.subset_of(m.record_correct(c).slot(b).required),
        m.slot(b).forbidden.subset_of(m.record_correct(c).slot(b).forbidden),
        bound_value(m.record_correct(c).slot(b).bound) >= bound_value(m.slot(b).bound),
        bound_is_exact(m.slot(b).bound) ==> bound_is_exact(m.record_correct(c).slot(b).bound),
        m.slot(b).required.subset_of(m.record_misplaced(c).slot(b).required),
        m.slot(b).forbidden.subset_of(m.record_misplaced(c).slot(b).forbidden),
        bound_value(m.record_misplaced(c).slot(b).bound) >= bound_value(m.slot(b).bound),
        bound_is_exact(m.slot(b).bound) ==> bound_is_exact(m.record_misplaced(c).slot(b).bound),
        m.slot(b).required.subset_of(m.record_incorrect(c).slot(b).required),
        m.slot(b).forbidden.subset_of(m.record_incorrect(c).slot(b).forbidden),
        bound_value(m.record_incorrect(c).slot(b).bound) >= bound_value(m.slot(b).bound),
        bound_is_exact(m.slot(b).bound) ==> bound_is_exact(m.record_incorrect(c).slot(b).bound),
{
}

} // verus!
