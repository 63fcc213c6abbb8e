//! Dictionaries: ordered word lists, and the filtering pass that reduces
//! one to the candidates consistent with a completed filter's verdicts.

use vstd::prelude::*;
use vstd::string::StringExecFns;

use crate::bits::{
    lemma_and32_covers, lemma_and32_zero, lemma_andnot_bit32, lemma_high_bits_clear32,
    lemma_letter_bit_zero, lemma_test_bit8, letter_bit, nth_bit32,
};
use crate::filter::{constraint_view, lemma_filter_repr, Filter};
use crate::model::{
    bound_is_exact, bound_value, chars_of_word, count_ok, filtered_words, has_letter, is_letter,
    lemma_has_letter_count, lemma_letter_count_push, letter_count, letter_index, letter_ok,
    lower_chars, matches_filter, positions_ok, render_words, word_matches, word_of_chars,
    SolverError,
};
use crate::word::{lemma_word_repr, Word};

verus! {

broadcast use vstd::string::group_string_axioms, vstd::slice::group_slice_axioms;

/// An ordered list of words; insertion order is preserved and duplicates
/// are permitted.  Filtering builds a new dictionary and leaves the source
/// untouched.
pub struct Dictionary {
    words: Vec<Word>,
}

impl View for Dictionary {
    type V = Seq<Seq<u8>>;

    closed spec fn view(&self) -> Seq<Seq<u8>> {
        self.words.deep_view()
    }
}

impl Dictionary {
    /// Every held word is well formed.
    pub closed spec fn wf(self) -> bool {
        forall|i: int| 0 <= i < self.words@.len() ==> (#[trigger] self.words@[i]).wf()
    }

    /// An empty dictionary.
    pub fn new() -> (d: Dictionary)
        ensures
            d.wf(),
            d@ == Seq::<Seq<u8>>::empty(),
    {
        let d = Dictionary { words: Vec::new() };
        proof {
            assert(d@ =~= Seq::<Seq<u8>>::empty());
        }
        d
    }

    /// Validates and appends a word; a string of the wrong length is
    /// rejected and the dictionary is unchanged.  Callers pre-validate
    /// that every character is a lowercase letter.
    pub fn add(&mut self, word: &str) -> (r: Result<(), SolverError>)
        requires
            old(self).wf(),
            lower_chars(word@),
        ensures
            final(self).wf(),
            match r {
                Ok(_) => word@.len() == 5 && final(self)@ == old(self)@.push(word_of_chars(word@)),
                Err(e) => {
                    &&& word@.len() != 5
                    &&& e == SolverError::InvalidLength
                    &&& final(self)@ == old(self)@
                },
            },
    {
        match Word::new(word) {
            Ok(w) => {
                self.words.push(w);
                proof {
                    assert(self@ =~= old(self)@.push(w@));
                }
                Ok(())
            },
            Err(e) => Err(e),
        }
    }

    /// The word at `index`, rendered back as a string.
    pub fn get(&self, index: usize) -> (r: Option<String>)
        requires
            self.wf(),
        ensures
            match r {
                Some(s) => index < self@.len() && s@ == chars_of_word(self@[index as int]),
                None => index >= self@.len(),
            },
    {
        if index < self.words.len() {
            let w = &self.words[index];
            Some(w.to_string())
        } else {
            None
        }
    }

    pub fn len(&self) -> (n: usize)
        ensures
            n == self@.len(),
    {
        self.words.len()
    }

    pub fn is_empty(&self) -> (r: bool)
        ensures
            r == (self@.len() == 0),
    {
        self.words.len() == 0
    }

    /// Exact letter-sequence membership, unaffected by any filtering.
    /// Callers pre-validate that every character is a lowercase letter.
    pub fn contains(&self, word: &str) -> (r: bool)
        requires
            self.wf(),
            lower_chars(word@),
        ensures
            r == self@.contains(word_of_chars(word@)),
    {
        proof {
            assert(word.is_ascii());
        }
        let bs = word.as_bytes();
        let ghost target = word_of_chars(word@);
        proof {
            assert(bs@ =~= target);
        }
        if bs.len() != 5 {
            proof {
                assert forall|j: int| 0 <= j < self@.len() implies self@[j] != target by {
                    lemma_word_repr(self.words@[j]);
                }
                assert(!self@.contains(target));
            }
            return false;
        }
        let mut i: usize = 0;
        while i < self.words.len()
            invariant
                self.wf(),
                lower_chars(word@),
                target == word_of_chars(word@),
                bs@ == target,
                bs@.len() == 5,
                i <= self.words@.len(),
                forall|j: int| 0 <= j < i ==> self@[j] != target,
            decreases self.words@.len() - i,
        {
            let w = &self.words[i];
            if same_letters(w, bs) {
                proof {
                    assert(self@.len() == self.words@.len());
                    assert((i as int) < self@.len() && self@[i as int] == target);
                    assert(self@.contains(target));
                    assert(target == word_of_chars(word@));
                }
                return true;
            }
            i += 1;
        }
        proof {
            assert(!self@.contains(target));
        }
        false
    }

    /// Reduces the dictionary by a completed filter: the result holds, in
    /// their original order, exactly the words consistent with every
    /// recorded verdict.  A filter whose five verdicts are not all
    /// recorded is rejected.
    pub fn filter(&self, filter: &Filter) -> (r: Result<Dictionary, SolverError>)
        requires
            self.wf(),
            filter.wf(),
        ensures
            match r {
                Ok(d) => {
                    &&& filter@.complete()
                    &&& d.wf()
                    &&& d@ == filtered_words(self@, filter@)
                },
                Err(e) => !filter@.complete() && e == SolverError::IncompleteFilter,
            },
    {
        proof {
            lemma_filter_repr(*filter);
        }
        if filter.pos != 5 {
            return Err(SolverError::IncompleteFilter);
        }
        let mut kept: Vec<Word> = Vec::new();
        proof {
            assert(self@.take(0) =~= Seq::<Seq<u8>>::empty());
            reveal_with_fuel(Seq::<_>::filter, 2);
            assert(kept.deep_view() =~= filtered_words(self@.take(0), filter@));
        }
        let mut i: usize = 0;
        while i < self.words.len()
            invariant
                self.wf(),
                filter.wf(),
                i <= self.words@.len(),
                forall|j: int| 0 <= j < kept@.len() ==> (#[trigger] kept@[j]).wf(),
                kept.deep_view() == filtered_words(self@.take(i as int), filter@),
            decreases self.words@.len() - i,
        {
            let w = self.words[i];
            let ghost prev = kept.deep_view();
            let keep = word_satisfies(&w, filter);
            if keep {
                kept.push(w);
            }
            proof {
                assert(w@ == self@[i as int]);
                assert(self@.take(i + 1) =~= self@.take(i as int) + seq![w@]);
                Seq::filter_distributes_over_add(
                    self@.take(i as int),
                    seq![w@],
                    matches_filter(filter@),
                );
                reveal_with_fuel(Seq::<_>::filter, 3);
                assert(seq![w@].drop_last() =~= Seq::<Seq<u8>>::empty());
                if keep {
                    assert(seq![w@].filter(matches_filter(filter@)) =~= seq![w@]);
                    assert(kept.deep_view() =~= prev + seq![w@]);
                } else {
                    assert(seq![w@].filter(matches_filter(filter@)) =~= Seq::<Seq<u8>>::empty());
                    assert(kept.deep_view() =~= prev);
                }
                assert(kept.deep_view() =~= filtered_words(self@.take(i + 1), filter@));
            }
            i += 1;
        }
        proof {
            assert(self@.take(self.words@.len() as int) =~= self@);
        }
        let d = Dictionary { words: kept };
        Ok(d)
    }

    /// Renders the word list for inspection: one word per line.
    pub fn debug(&self) -> (r: String)
        requires
            self.wf(),
        ensures
            r@ == render_words(self@),
    {
        let mut out = String::new();
        proof {
            assert(self@.take(0) =~= Seq::<Seq<u8>>::empty());
            assert(out@ =~= render_words(self@.take(0)));
        }
        let mut i: usize = 0;
        while i < self.words.len()
            invariant
                self.wf(),
                i <= self.words@.len(),
                out@ == render_words(self@.take(i as int)),
            decreases self.words@.len() - i,
        {
            let line = self.words[i].to_string();
            out.append(line.as_str());
            out.append("\n");
            proof {
                reveal_strlit("\n");
                assert("\n"@ =~= seq!['\n']);
                assert(self@.take(i + 1).drop_last() =~= self@.take(i as int));
                assert(self@.take(i + 1).last() == self@[i as int]);
                assert(out@ =~= render_words(self@.take(i + 1)));
            }
            i += 1;
        }
        proof {
            assert(self@.take(self.words@.len() as int) =~= self@);
        }
        out
    }
}

impl Default for Dictionary {
    fn default() -> (d: Dictionary)
        ensures
            d.wf(),
            d@ == Seq::<Seq<u8>>::empty(),
    {
        Dictionary::new()
    }
}

/// Whether a word's letters are exactly the given five bytes.
fn same_letters(w: &Word, bs: &[u8]) -> (r: bool)
    requires
        w.wf(),
        bs@.len() == 5,
    ensures
        r == (w@ == bs@),
{
    proof {
        lemma_word_repr(*w);
    }
    let mut p: usize = 0;
    while p < 5
        invariant
            p <= 5,
            w.wf(),
            w@ == w.letters@,
            w@.len() == 5,
            bs@.len() == 5,
            forall|q: int| 0 <= q < p ==> w@[q] == bs@[q],
        decreases 5 - p,
    {
        if w.letters[p] != bs[p] {
            return false;
        }
        p += 1;
    }
    proof {
        assert(w@ =~= bs@);
    }
    true
}

/// How many positions of the word hold the letter `b`.
fn occurrences(w: &Word, b: u8) -> (n: u8)
    requires
        w.wf(),
    ensures
        n as nat == letter_count(w@, b),
{
    proof {
        lemma_word_repr(*w);
        assert(w@.take(0) =~= Seq::<u8>::empty());
    }
    let mut n: u8 = 0;
    let mut p: usize = 0;
    while p < 5
        invariant
            p <= 5,
            n <= p,
            w.wf(),
            w@ == w.letters@,
            w@.len() == 5,
            n as nat == letter_count(w@.take(p as int), b),
        decreases 5 - p,
    {
        proof {
            assert(w@.take(p + 1) =~= w@.take(p as int).push(w@[p as int]));
            lemma_letter_count_push(w@.take(p as int), w@[p as int], b);
        }
        if w.letters[p] == b {
            n += 1;
        }
        p += 1;
    }
    proof {
        assert(w@.take(5) =~= w@);
    }
    n
}

/// Decides whether one word is consistent with everything the filter
/// recorded, running the coarse bitmap pass first and then per-letter
/// positional and occurrence checks for each letter spoken of.
#[verifier::loop_isolation(false)]
fn word_satisfies(w: &Word, f: &Filter) -> (r: bool)
    requires
        w.wf(),
        f.wf(),
    ensures
        r == word_matches(w@, f@),
{
    proof {
        lemma_word_repr(*w);
        lemma_filter_repr(*f);
    }
    let excl: u32 = f.excludes & !f.includes;
    // Coarse pass: no wholly absent letter may occur, and every confirmed
    // letter must occur.
    if w.bitmap & excl != 0 {
        proof {
            lemma_and32_zero(w.bitmap, excl);
            let i = choose|i: u32| i < 32 && nth_bit32(w.bitmap, i) && nth_bit32(excl, i);
            let ghost ex = f.excludes;
            let ghost inc = f.includes;
            assert(ex & !inc < 0x400_0000) by (bit_vector)
                requires
                    ex < 0x400_0000u32,
            ;
            if i >= 26 {
                lemma_high_bits_clear32(excl, i);
            }
            let b = (97 + i) as u8;
            assert(is_letter(b) && (b - 97) as u32 == i);
            lemma_andnot_bit32(f.excludes, f.includes, i);
            assert(letter_bit(f.excludes, b) && !letter_bit(f.includes, b));
            lemma_has_letter_count(w@, b);
            assert(!count_ok(w@, f@.slot(b), b));
            assert(!word_matches(w@, f@));
        }
        return false;
    }
    if f.includes != 0 && (w.bitmap & f.includes) != f.includes {
        proof {
            lemma_and32_covers(w.bitmap, f.includes);
            let i = choose|i: u32| i < 32 && nth_bit32(f.includes, i) && !nth_bit32(w.bitmap, i);
            if i >= 26 {
                lemma_high_bits_clear32(f.includes, i);
            }
            let b = (97 + i) as u8;
            assert(is_letter(b) && (b - 97) as u32 == i);
            assert(letter_bit(f.includes, b) && !letter_bit(w.bitmap, b));
            lemma_has_letter_count(w@, b);
            assert(!count_ok(w@, f@.slot(b), b));
            assert(!word_matches(w@, f@));
        }
        return false;
    }
    proof {
        // Per-letter consequences of the coarse pass, used to justify the
        // skipped occurrence checks below.
        lemma_and32_zero(w.bitmap, excl);
        lemma_and32_covers(w.bitmap, f.includes);
        assert forall|b: u8|
            is_letter(b) && bound_value(f@.slot(b).bound) >= 1 implies has_letter(w@, b) by {
            if f.includes == 0 {
                lemma_letter_bit_zero(b);
                assert(!letter_bit(f.includes, b));
            } else {
                assert(letter_bit(f.includes, b));
                assert(nth_bit32(f.includes, (b - 97) as u32));
                assert(nth_bit32(w.bitmap, (b - 97) as u32));
                assert(letter_bit(w.bitmap, b));
            }
        }
        assert forall|b: u8|
            is_letter(b) && bound_is_exact(f@.slot(b).bound) && bound_value(f@.slot(b).bound)
                == 0 implies !has_letter(w@, b) by {
            assert(letter_bit(f.excludes, b));
            assert(!letter_bit(f.includes, b));
            lemma_andnot_bit32(f.excludes, f.includes, (b - 97) as u32);
            assert(nth_bit32(excl, (b - 97) as u32));
            assert(!nth_bit32(w.bitmap, (b - 97) as u32));
            assert(!letter_bit(w.bitmap, b));
        }
    }
    // Detailed pass, one letter at a time; letters no verdict has spoken
    // of are skipped.
    let mut ci: usize = 0;
    while ci < 26
        invariant
            ci <= 26,
            forall|b: u8|
                is_letter(b) && letter_index(b) < ci ==> letter_ok(w@, #[trigger] f@.slot(b), b),
        decreases 26 - ci,
    {
        let k = f.rules[ci];
        let cur: u8 = 97 + (ci as u8);
        proof {
            assert(is_letter(cur) && letter_index(cur) == ci);
            assert(f@.slot(cur) == constraint_view(k));
        }
        if k.must_have == 0 && k.must_exclude == 0 && !k.expect.is_exact() && k.expect.is_zero() {
            proof {
                crate::filter::lemma_mask_positions_zero();
                assert(letter_ok(w@, f@.slot(cur), cur));
            }
        } else {
            let mut p: usize = 0;
            while p < 5
                invariant
                    p <= 5,
                    forall|q: int|
                        0 <= q < p ==> {
                            &&& (w@[q] == cur ==> !f@.slot(cur).forbidden.contains(q))
                            &&& (w@[q] != cur ==> !f@.slot(cur).required.contains(q))
                        },
                decreases 5 - p,
            {
                let pb: u8 = 1u8 << (p as u8);
                proof {
                    lemma_test_bit8(k.must_exclude, p as u8);
                    lemma_test_bit8(k.must_have, p as u8);
                }
                if w.letters[p] == cur {
                    if k.must_exclude & pb != 0 {
                        proof {
                            assert(!positions_ok(w@, f@.slot(cur), cur));
                            assert(!word_matches(w@, f@));
                        }
                        return false;
                    }
                } else {
                    if k.must_have & pb != 0 {
                        proof {
                            assert(!positions_ok(w@, f@.slot(cur), cur));
                            assert(!word_matches(w@, f@));
                        }
                        return false;
                    }
                }
                p += 1;
            }
            proof {
                assert(positions_ok(w@, f@.slot(cur), cur));
            }
            if k.expect.is_interesting() {
                let n = occurrences(w, cur);
                if !k.expect.check(n) {
                    proof {
                        assert(!count_ok(w@, f@.slot(cur), cur));
                        assert(!word_matches(w@, f@));
                    }
                    return false;
                }
                proof {
                    assert(count_ok(w@, f@.slot(cur), cur));
                }
            } else {
                proof {
                    // The bound is `at least n` with `n <= 1`: either it
                    // demands nothing, or the coarse pass already
                    // confirmed one occurrence.
                    if bound_value(f@.slot(cur).bound) >= 1 {
                        lemma_has_letter_count(w@, cur);
                    }
                    assert(count_ok(w@, f@.slot(cur), cur));
                }
            }
            proof {
                assert(letter_ok(w@, f@.slot(cur), cur));
            }
        }
        proof {
            assert forall|b: u8|
                is_letter(b) && letter_index(b) < ci + 1 implies letter_ok(
                w@,
                #[trigger] f@.slot(b),
                b,
            ) by {
                if letter_index(b) == ci {
                    assert(b == cur);
                }
            }
        }
        ci += 1;
    }
    proof {
        assert forall|b: u8| is_letter(b) implies letter_ok(w@, #[trigger] f@.slot(b), b) by {
            assert(letter_index(b) < 26);
        }
        assert(word_matches(w@, f@));
    }
    true
}

} // verus!
