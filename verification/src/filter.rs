//! Verdict accumulation: one `Filter` gathers a guess round's five
//! per-position verdicts into per-letter position masks and occurrence
//! bounds, plus two 26-bit summary maps used by the coarse filtering pass.

use vstd::prelude::*;

use crate::bits::{
    lemma_letter_bit_or_mask, lemma_letter_bit_zero, lemma_one_bit8, lemma_one_shift_low8,
    lemma_or8_keeps_low, lemma_or_bit8, lemma_zero_bit8, letter_bit, letter_mask, letter_slot,
    mask_of, nth_bit8,
};
use crate::model::{
    bound_cap, bound_inc, bound_is_exact, bound_ok, bound_value, is_letter, is_lower_char,
    letter_index, Bound, FilterModel, LetterKnowledge,
};

verus! {

/// An occurrence bound under construction: the verdicts so far demand at
/// least `n` occurrences, or exactly `n` once the bound is frozen.
#[derive(Clone, Copy, Debug)]
pub(crate) enum Count {
    AtLeast(u8),
    Exactly(u8),
}

/// The bound a packed count stands for.
pub(crate) open spec fn bound_of(c: Count) -> Bound {
    match c {
        Count::AtLeast(n) => Bound::AtLeast(n as nat),
        Count::Exactly(n) => Bound::Exactly(n as nat),
    }
}

impl Count {
    pub(crate) fn get(&self) -> (n: u8)
        ensures
            n as nat == bound_value(bound_of(*self)),
    {
        match *self {
            Count::AtLeast(n) => n,
            Count::Exactly(n) => n,
        }
    }

    /// One more required occurrence; the mode is unchanged.
    pub(crate) fn inc(&mut self)
        requires
            bound_value(bound_of(*old(self))) < 255,
        ensures
            bound_of(*final(self)) == bound_inc(bound_of(*old(self))),
    {
        *self = match *self {
            Count::AtLeast(n) => Count::AtLeast(n + 1),
            Count::Exactly(n) => Count::Exactly(n + 1),
        };
    }

    /// Freeze the bound at its accumulated value.
    pub(crate) fn cap(&mut self)
        ensures
            bound_of(*final(self)) == bound_cap(bound_of(*old(self))),
    {
        *self = match *self {
            Count::AtLeast(n) => Count::Exactly(n),
            Count::Exactly(n) => Count::Exactly(n),
        };
    }

    pub(crate) fn is_zero(&self) -> (r: bool)
        ensures
            r == (bound_value(bound_of(*self)) == 0),
    {
        self.get() == 0
    }

    pub(crate) fn is_exact(&self) -> (r: bool)
        ensures
            r == bound_is_exact(bound_of(*self)),
    {
        match *self {
            Count::AtLeast(_) => false,
            Count::Exactly(_) => true,
        }
    }

    /// Whether the bound can reject a word that the coarse presence test
    /// accepts: an exact bound, or a demand for more than one occurrence.
    pub(crate) fn is_interesting(&self) -> (r: bool)
        ensures
            r == (bound_is_exact(bound_of(*self)) || bound_value(bound_of(*self)) > 1),
    {
        match *self {
            Count::AtLeast(n) => n > 1,
            Count::Exactly(_) => true,
        }
    }

    /// Whether `count` occurrences satisfy the bound.
    pub(crate) fn check(&self, count: u8) -> (r: bool)
        ensures
            r == bound_ok(bound_of(*self), count as nat),
    {
        match *self {
            Count::AtLeast(n) => count >= n,
            Count::Exactly(n) => count == n,
        }
    }
}

/// Packed per-letter state: 5-bit masks of the positions the letter must
/// and must not occupy, and its occurrence bound.
#[derive(Clone, Copy, Debug)]
pub(crate) struct Constraint {
    pub(crate) expect: Count,
    pub(crate) must_have: u8,
    pub(crate) must_exclude: u8,
}

/// The positions a 5-bit mask marks.
pub(crate) open spec fn mask_positions(m: u8) -> Set<int> {
    Set::new(|p: int| 0 <= p < 5 && nth_bit8(m, p as u8))
}

/// The knowledge a packed per-letter state stands for.
pub(crate) open spec fn constraint_view(k: Constraint) -> LetterKnowledge {
    LetterKnowledge {
        required: mask_positions(k.must_have),
        forbidden: mask_positions(k.must_exclude),
        bound: bound_of(k.expect),
    }
}

impl View for Constraint {
    type V = LetterKnowledge;

    closed spec fn view(&self) -> LetterKnowledge {
        constraint_view(*self)
    }
}

/// The empty mask marks no position.
pub(crate) proof fn lemma_mask_positions_zero()
    ensures
        mask_positions(0) == Set::<int>::empty(),
{
    assert forall|p: int| !mask_positions(0).contains(p) by {
        if 0 <= p < 5 {
            lemma_zero_bit8(p as u8);
        }
    }
    assert(mask_positions(0) =~= Set::<int>::empty());
}

/// Setting one position bit inserts exactly that position.
pub(crate) proof fn lemma_mask_positions_insert(m: u8, k: u8)
    requires
        k < 5,
    ensures
        mask_positions(m | (1u8 << k)) == mask_positions(m).insert(k as int),
{
    assert forall|p: int|
        mask_positions(m | (1u8 << k)).contains(p) == mask_positions(m).insert(
            k as int,
        ).contains(p) by {
        if 0 <= p < 5 {
            lemma_or_bit8(m, 1u8 << k, p as u8);
            lemma_one_bit8(k, p as u8);
        }
    }
    assert(mask_positions(m | (1u8 << k)) =~= mask_positions(m).insert(k as int));
}

/// One guess round's verdict accumulator: the position cursor, the 26
/// per-letter constraints, and the summary maps of letters confirmed
/// present (`includes`) and letters whose bound was frozen (`excludes`).
///
/// A filter covers a single guess round: each round starts from a blank
/// filter, and occurrence knowledge is not carried across rounds.
pub struct Filter {
    pub(crate) pos: usize,
    pub(crate) rules: [Constraint; 26],
    pub(crate) includes: u32,
    pub(crate) excludes: u32,
}

impl View for Filter {
    type V = FilterModel;

    closed spec fn view(&self) -> FilterModel {
        FilterModel {
            recorded: self.pos as nat,
            slots: Seq::new(26, |i: int| self.rules@[i]@),
        }
    }
}

impl Filter {
    /// The cursor stays within the five positions, every per-letter count
    /// stays below it, the masks use their low bits only, and the two
    /// summary maps mark exactly the letters whose bound is positive
    /// (`includes`) or frozen (`excludes`).
    pub closed spec fn wf(self) -> bool {
        &&& self.pos <= 5
        &&& forall|i: int|
            0 <= i < 26 ==> {
                &&& (#[trigger] self.rules@[i]).must_have < 32
                &&& self.rules@[i].must_exclude < 32
                &&& bound_value(bound_of(self.rules@[i].expect)) <= self.pos
            }
        &&& self.includes < 0x400_0000
        &&& self.excludes < 0x400_0000
        &&& forall|b: u8|
            is_letter(b) ==> (#[trigger] letter_bit(self.includes, b) <==> bound_value(
                bound_of(self.rules@[letter_index(b)].expect),
            ) >= 1)
        &&& forall|b: u8|
            is_letter(b) ==> (#[trigger] letter_bit(self.excludes, b) <==> bound_is_exact(
                bound_of(self.rules@[letter_index(b)].expect),
            ))
    }

    /// A filter with no verdicts recorded yet.
    pub fn new() -> (f: Filter)
        ensures
            f.wf(),
            f@ == FilterModel::blank(),
    {
        let blank = Constraint { expect: Count::AtLeast(0), must_have: 0, must_exclude: 0 };
        let f = Filter { pos: 0, rules: [blank;26], includes: 0, excludes: 0 };
        proof {
            lemma_mask_positions_zero();
            assert forall|b: u8| is_letter(b) implies !letter_bit(0u32, b) by {
                lemma_letter_bit_zero(b);
            }
            assert(f@ =~~= FilterModel::blank());
        }
        f
    }

    /// Records that letter `c` occupies the current position.
    pub fn mark_correct(&mut self, c: char)
        requires
            old(self).wf(),
            old(self)@.recorded < 5,
            is_lower_char(c),
        ensures
            final(self).wf(),
            final(self)@ == old(self)@.record_correct(c as u8),
    {
        let b = c as u8;
        let i = letter_slot(b);
        let pos_bit: u8 = 1u8 << (self.pos as u8);
        let prev = self.rules[i];
        let mut expect = prev.expect;
        expect.inc();
        self.rules[i] = Constraint {
            expect,
            must_have: prev.must_have | pos_bit,
            must_exclude: prev.must_exclude,
        };
        self.includes = self.includes | letter_mask(b);
        self.pos = self.pos + 1;
        proof {
            lemma_mask_positions_insert(prev.must_have, old(self).pos as u8);
            lemma_one_shift_low8(old(self).pos as u8);
            lemma_or8_keeps_low(prev.must_have, pos_bit);
            lemma_letter_bit_or_mask(old(self).includes, b);
            assert(self@ =~~= old(self)@.record_correct(b));
            assert forall|c2: u8| is_letter(c2) implies (#[trigger] letter_bit(self.includes, c2)
                <==> bound_value(bound_of(self.rules@[letter_index(c2)].expect)) >= 1) by {
                if c2 != b {
                    assert(self.rules@[letter_index(c2)] == old(self).rules@[letter_index(c2)]);
                }
            }
            assert forall|c2: u8| is_letter(c2) implies (#[trigger] letter_bit(self.excludes, c2)
                <==> bound_is_exact(bound_of(self.rules@[letter_index(c2)].expect))) by {
                if c2 != b {
                    assert(self.rules@[letter_index(c2)] == old(self).rules@[letter_index(c2)]);
                }
            }
        }
    }

    /// Records that letter `c` occurs in the answer, but not at the
    /// current position.
    pub fn mark_misplaced(&mut self, c: char)
        requires
            old(self).wf(),
            old(self)@.recorded < 5,
            is_lower_char(c),
        ensures
            final(self).wf(),
            final(self)@ == old(self)@.record_misplaced(c as u8),
    {
        let b = c as u8;
        let i = letter_slot(b);
        let pos_bit: u8 = 1u8 << (self.pos as u8);
        let prev = self.rules[i];
        let mut expect = prev.expect;
        expect.inc();
        self.rules[i] = Constraint {
            expect,
            must_have: prev.must_have,
            must_exclude: prev.must_exclude | pos_bit,
        };
        self.includes = self.includes | letter_mask(b);
        self.pos = self.pos + 1;
        proof {
            lemma_mask_positions_insert(prev.must_exclude, old(self).pos as u8);
            lemma_one_shift_low8(old(self).pos as u8);
            lemma_or8_keeps_low(prev.must_exclude, pos_bit);
            lemma_letter_bit_or_mask(old(self).includes, b);
            assert(self@ =~~= old(self)@.record_misplaced(b));
            assert forall|c2: u8| is_letter(c2) implies (#[trigger] letter_bit(self.includes, c2)
                <==> bound_value(bound_of(self.rules@[letter_index(c2)].expect)) >= 1) by {
                if c2 != b {
                    assert(self.rules@[letter_index(c2)] == old(self).rules@[letter_index(c2)]);
                }
            }
            assert forall|c2: u8| is_letter(c2) implies (#[trigger] letter_bit(self.excludes, c2)
                <==> bound_is_exact(bound_of(self.rules@[letter_index(c2)].expect))) by {
                if c2 != b {
                    assert(self.rules@[letter_index(c2)] == old(self).rules@[letter_index(c2)]);
                }
            }
        }
    }

    /// Records that the answer holds no occurrences of letter `c` beyond
    /// those already counted this round.  The bound freezes at its
    /// accumulated value; a letter never seen before this round is thereby
    /// wholly absent.
    pub fn mark_incorrect(&mut self, c: char)
        requires
            old(self).wf(),
            old(self)@.recorded < 5,
            is_lower_char(c),
        ensures
            final(self).wf(),
            final(self)@ == old(self)@.record_incorrect(c as u8),
    {
        let b = c as u8;
        let i = letter_slot(b);
        let pos_bit: u8 = 1u8 << (self.pos as u8);
        let prev = self.rules[i];
        let mut expect = prev.expect;
        expect.cap();
        self.rules[i] = Constraint {
            expect,
            must_have: prev.must_have,
            must_exclude: prev.must_exclude | pos_bit,
        };
        self.excludes = self.excludes | letter_mask(b);
        self.pos = self.pos + 1;
        proof {
            lemma_mask_positions_insert(prev.must_exclude, old(self).pos as u8);
            lemma_one_shift_low8(old(self).pos as u8);
            lemma_or8_keeps_low(prev.must_exclude, pos_bit);
            lemma_letter_bit_or_mask(old(self).excludes, b);
            assert(self@ =~~= old(self)@.record_incorrect(b));
            assert forall|c2: u8| is_letter(c2) implies (#[trigger] letter_bit(self.includes, c2)
                <==> bound_value(bound_of(self.rules@[letter_index(c2)].expect)) >= 1) by {
                if c2 != b {
                    assert(self.rules@[letter_index(c2)] == old(self).rules@[letter_index(c2)]);
                }
            }
            assert forall|c2: u8| is_letter(c2) implies (#[trigger] letter_bit(self.excludes, c2)
                <==> bound_is_exact(bound_of(self.rules@[letter_index(c2)].expect))) by {
                if c2 != b {
                    assert(self.rules@[letter_index(c2)] == old(self).rules@[letter_index(c2)]);
                }
            }
        }
    }
}

impl Default for Filter {
    fn default() -> (f: Filter)
        ensures
            f.wf(),
            f@ == FilterModel::blank(),
    {
        Filter::new()
    }
}

/// How a filter is laid out, for the rest of the crate: the cursor is the
/// verdict count, each table entry's view is the model slot, and the two
/// summary maps agree with the per-letter bounds.
pub(crate) proof fn lemma_filter_repr(f: Filter)
    requires
        f.wf(),
    ensures
        f@.wf(),
        f@.recorded == f.pos as nat,
        forall|i: int| 0 <= i < 26 ==> f@.slots[i] == constraint_view(#[trigger] f.rules@[i]),
        forall|i: int|
            0 <= i < 26 ==> {
                &&& (#[trigger] f.rules@[i]).must_have < 32
                &&& f.rules@[i].must_exclude < 32
                &&& bound_value(bound_of(f.rules@[i].expect)) <= f.pos
            },
        f.includes < 0x400_0000,
        f.excludes < 0x400_0000,
        forall|b: u8|
            is_letter(b) ==> (#[trigger] letter_bit(f.includes, b) <==> bound_value(
                f@.slot(b).bound,
            ) >= 1),
        forall|b: u8|
            is_letter(b) ==> (#[trigger] letter_bit(f.excludes, b) <==> bound_is_exact(
                f@.slot(b).bound,
            )),
{
}

} // verus!
