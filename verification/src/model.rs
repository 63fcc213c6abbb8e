//! The mathematical model of the engine: words as sequences of letter
//! bytes, a guess round's accumulated verdicts as per-letter knowledge,
//! and the matching relation that filtering decides.

use vstd::prelude::*;

verus! {

/// The two failure modes of the engine: a word string whose length is not
/// exactly five letters, and a filter applied before all five positions
/// received a verdict.
#[derive(Clone, Copy, Debug, PartialEq, Eq, Structural)]
pub enum SolverError {
    InvalidLength,
    IncompleteFilter,
}

/// A letter is a lowercase ASCII byte.
pub open spec fn is_letter(b: u8) -> bool {
    97 <= b <= 122
}

/// Slot of a letter in a 26-entry alphabet table.
pub open spec fn letter_index(b: u8) -> int {
    b - 97
}

pub open spec fn is_lower_char(c: char) -> bool {
    'a' <= c && c <= 'z'
}

pub open spec fn lower_chars(s: Seq<char>) -> bool {
    forall|i: int| 0 <= i < s.len() ==> is_lower_char(#[trigger] s[i])
}

pub open spec fn lower_word(w: Seq<u8>) -> bool {
    forall|i: int| 0 <= i < w.len() ==> is_letter(#[trigger] w[i])
}

/// The letter bytes spelled by a string of lowercase characters.
pub open spec fn word_of_chars(s: Seq<char>) -> Seq<u8> {
    Seq::new(s.len(), |i: int| s[i] as u8)
}

/// The characters spelled by a sequence of letter bytes.
pub open spec fn chars_of_word(w: Seq<u8>) -> Seq<char> {
    Seq::new(w.len(), |i: int| w[i] as char)
}

/// Whether the letter `b` occurs anywhere in `w`.
pub open spec fn has_letter(w: Seq<u8>, b: u8) -> bool {
    exists|i: int| 0 <= i < w.len() && w[i] == b
}

/// How many positions of `w` hold the letter `b`.
pub open spec fn letter_count(w: Seq<u8>, b: u8) -> nat
    decreases w.len(),
{
    if w.len() == 0 {
        0
    } else {
        letter_count(w.drop_last(), b) + if w.last() == b {
            1nat
        } else {
            0nat
        }
    }
}

/// An occurrence bound for one letter: the answer holds at least `n`
/// occurrences, or exactly `n`.
pub enum Bound {
    AtLeast(nat),
    Exactly(nat),
}

pub open spec fn bound_value(b: Bound) -> nat {
    match b {
        Bound::AtLeast(n) => n,
        Bound::Exactly(n) => n,
    }
}

pub open spec fn bound_is_exact(b: Bound) -> bool {
    b is Exactly
}

/// One more required occurrence; the mode is unchanged.
pub open spec fn bound_inc(b: Bound) -> Bound {
    match b {
        Bound::AtLeast(n) => Bound::AtLeast((n + 1) as nat),
        Bound::Exactly(n) => Bound::Exactly((n + 1) as nat),
    }
}

/// Freeze the bound at its accumulated value.
pub open spec fn bound_cap(b: Bound) -> Bound {
    Bound::Exactly(bound_value(b))
}

/// Whether `count` occurrences satisfy the bound.
pub open spec fn bound_ok(b: Bound, count: nat) -> bool {
    match b {
        Bound::AtLeast(n) => count >= n,
        Bound::Exactly(n) => count == n,
    }
}

/// What some verdicts have established about one letter: positions the
/// letter is known to occupy, positions it is known not to occupy, and a
/// bound on how often it occurs in the answer.
#[verifier::ext_equal]
pub struct LetterKnowledge {
    pub required: Set<int>,
    pub forbidden: Set<int>,
    pub bound: Bound,
}

/// The state of a letter no verdict has spoken of.
pub open spec fn blank_knowledge() -> LetterKnowledge {
    LetterKnowledge { required: Set::empty(), forbidden: Set::empty(), bound: Bound::AtLeast(0) }
}

/// One guess round's accumulated verdicts: how many verdicts were recorded
/// so far (one per position, left to right) and the 26 per-letter states.
#[verifier::ext_equal]
pub struct FilterModel {
    pub recorded: nat,
    pub slots: Seq<LetterKnowledge>,
}

impl FilterModel {
    pub open spec fn wf(self) -> bool {
        self.recorded <= 5 && self.slots.len() == 26
    }

    pub open spec fn slot(self, b: u8) -> LetterKnowledge {
        self.slots[letter_index(b)]
    }

    /// A filter holding no verdicts yet.
    pub open spec fn blank() -> FilterModel {
        FilterModel { recorded: 0, slots: Seq::new(26, |i: int| blank_knowledge()) }
    }

    /// Every position has received its verdict.
    pub open spec fn complete(self) -> bool {
        self.recorded == 5
    }

    /// Records that letter `b` occupies the current position.
    pub open spec fn record_correct(self, b: u8) -> FilterModel {
        let k = self.slot(b);
        FilterModel {
            recorded: self.recorded + 1,
            slots: self.slots.update(
                letter_index(b),
                LetterKnowledge {
                    required: k.required.insert(self.recorded as int),
                    forbidden: k.forbidden,
                    bound: bound_inc(k.bound),
                },
            ),
        }
    }

    /// Records that letter `b` occurs in the answer, but not at the
    /// current position.
    pub open spec fn record_misplaced(self, b: u8) -> FilterModel {
        let k = self.slot(b);
        FilterModel {
            recorded: self.recorded + 1,
            slots: self.slots.update(
                letter_index(b),
                LetterKnowledge {
                    required: k.required,
                    forbidden: k.forbidden.insert(self.recorded as int),
                    bound: bound_inc(k.bound),
                },
            ),
        }
    }

    /// Records that the answer holds no occurrences of letter `b` beyond
    /// those already counted this round.
    pub open spec fn record_incorrect(self, b: u8) -> FilterModel {
        let k = self.slot(b);
        FilterModel {
            recorded: self.recorded + 1,
            slots: self.slots.update(
                letter_index(b),
                LetterKnowledge {
                    required: k.required,
                    forbidden: k.forbidden.insert(self.recorded as int),
                    bound: bound_cap(k.bound),
                },
            ),
        }
    }
}

/// Every position of `w` is consistent with what is known about letter `b`.
pub open spec fn positions_ok(w: Seq<u8>, k: LetterKnowledge, b: u8) -> bool {
    forall|p: int|
        0 <= p < w.len() ==> {
            &&& (#[trigger] w[p] == b ==> !k.forbidden.contains(p))
            &&& (w[p] != b ==> !k.required.contains(p))
        }
}

/// The number of occurrences of `b` in `w` satisfies the recorded bound.
pub open spec fn count_ok(w: Seq<u8>, k: LetterKnowledge, b: u8) -> bool {
    bound_ok(k.bound, letter_count(w, b))
}

/// `w` satisfies everything known about letter `b`.
pub open spec fn letter_ok(w: Seq<u8>, k: LetterKnowledge, b: u8) -> bool {
    positions_ok(w, k, b) && count_ok(w, k, b)
}

/// `w` is consistent with every verdict the filter has recorded.
pub open spec fn word_matches(w: Seq<u8>, m: FilterModel) -> bool {
    forall|b: u8| is_letter(b) ==> letter_ok(w, #[trigger] m.slot(b), b)
}

/// The matching relation as a predicate on words, as filtering applies it.
pub open spec fn matches_filter(m: FilterModel) -> spec_fn(Seq<u8>) -> bool {
    |w: Seq<u8>| word_matches(w, m)
}

/// The words of `ws` consistent with every verdict of `m`, in their
/// original order.
pub open spec fn filtered_words(ws: Seq<Seq<u8>>, m: FilterModel) -> Seq<Seq<u8>> {
    ws.filter(matches_filter(m))
}

/// One line per word: its characters followed by a newline.
pub open spec fn render_words(ws: Seq<Seq<u8>>) -> Seq<char>
    decreases ws.len(),
{
    if ws.len() == 0 {
        Seq::empty()
    } else {
        render_words(ws.drop_last()) + chars_of_word(ws.last()) + seq!['\n']
    }
}

/// Occurrence counting, step by step: appending one letter raises the
/// count of that letter alone.
pub proof fn lemma_letter_count_push(w: Seq<u8>, x: u8, b: u8)
    ensures
        letter_count(w.push(x), b) == letter_count(w, b) + if x == b {
            1nat
        } else {
            0nat
        },
{
    assert(w.push(x).drop_last() =~= w);
}

/// Appending one letter extends presence by exactly that letter.
pub proof fn lemma_has_letter_push(w: Seq<u8>, x: u8, b: u8)
    ensures
        has_letter(w.push(x), b) <==> (has_letter(w, b) || x == b),
{
    if has_letter(w, b) {
        let i = choose|i: int| 0 <= i < w.len() && w[i] == b;
        assert(w.push(x)[i] == b);
    }
    if x == b {
        assert(w.push(x)[w.len() as int] == b);
    }
    if has_letter(w.push(x), b) && x != b {
        let i = choose|i: int| 0 <= i < w.push(x).len() && w.push(x)[i] == b;
        assert(0 <= i < w.len() && w[i] == b);
    }
}

/// A letter occurs in a word exactly when its occurrence count is positive.
pub proof fn lemma_has_letter_count(w: Seq<u8>, b: u8)
    ensures
        has_letter(w, b) <==> letter_count(w, b) >= 1,
    decreases w.len(),
{
    if w.len() > 0 {
        lemma_has_letter_count(w.drop_last(), b);
        if w.last() == b {
            assert(has_letter(w, b));
        } else {
            assert(has_letter(w.drop_last(), b) <==> has_letter(w, b)) by {
                if has_letter(w, b) {
                    let i = choose|i: int| 0 <= i < w.len() && w[i] == b;
                    assert(w.drop_last()[i] == b);
                }
            }
        }
    }
}

} // verus!
