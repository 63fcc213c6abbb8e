//! Words: immutable five-letter sequences with a derived letter-presence
//! bitmap.

use vstd::prelude::*;

use crate::bits::{letter_bit, letter_mask, lemma_letter_bit_or_mask, lemma_letter_bit_zero};
use crate::model::{
    chars_of_word, has_letter, is_letter, lemma_has_letter_push, lower_chars, lower_word,
    word_of_chars, SolverError,
};

verus! {

broadcast use vstd::string::group_string_axioms, vstd::slice::group_slice_axioms;

/// An immutable five-letter lowercase word, together with a 26-bit map of
/// which letters occur in it at least once.
#[derive(Clone, Copy)]
pub struct Word {
    pub(crate) letters: [u8; 5],
    pub(crate) bitmap: u32,
}

impl View for Word {
    type V = Seq<u8>;

    closed spec fn view(&self) -> Seq<u8> {
        self.letters@
    }
}

impl DeepView for Word {
    type V = Seq<u8>;

    open spec fn deep_view(&self) -> Seq<u8> {
        self.view()
    }
}

impl Word {
    /// The letters are five lowercase bytes, and the bitmap marks exactly
    /// the letters that occur, using the low 26 bits only.
    pub closed spec fn wf(self) -> bool {
        &&& self@.len() == 5
        &&& lower_word(self@)
        &&& self.bitmap < 0x400_0000
        &&& forall|b: u8|
            #![trigger letter_bit(self.bitmap, b)]
            #![trigger has_letter(self@, b)]
            is_letter(b) ==> (letter_bit(self.bitmap, b) <==> has_letter(self@, b))
    }

    /// Builds a word from a five-character string; any other length is
    /// rejected.  Callers pre-validate that every character is a lowercase
    /// letter.
    pub fn new(word: &str) -> (r: Result<Word, SolverError>)
        requires
            lower_chars(word@),
        ensures
            match r {
                Ok(w) => w.wf() && word@.len() == 5 && w@ == word_of_chars(word@),
                Err(e) => word@.len() != 5 && e == SolverError::InvalidLength,
            },
    {
        proof {
            assert(word.is_ascii());
        }
        let bs = word.as_bytes();
        proof {
            assert(bs@.len() == word@.len());
        }
        if bs.len() != 5 {
            return Err(SolverError::InvalidLength);
        }
        let mut letters = [0u8; 5];
        let mut bitmap: u32 = 0;
        proof {
            assert forall|b: u8| is_letter(b) implies !letter_bit(0u32, b) by {
                lemma_letter_bit_zero(b);
            }
            assert(bs@.take(0) =~= Seq::<u8>::empty());
        }
        let mut i: usize = 0;
        while i < 5
            invariant
                i <= 5,
                bs@.len() == 5,
                lower_word(bs@),
                forall|j: int| 0 <= j < i ==> letters@[j] == bs@[j],
                bitmap < 0x400_0000,
                forall|b: u8|
                    is_letter(b) ==> (#[trigger] letter_bit(bitmap, b) <==> has_letter(
                        bs@.take(i as int),
                        b,
                    )),
            decreases 5 - i,
        {
            let l = bs[i];
            let ghost prev = bitmap;
            letters[i] = l;
            bitmap = bitmap | letter_mask(l);
            proof {
                lemma_letter_bit_or_mask(prev, l);
                assert(bs@.take(i + 1) =~= bs@.take(i as int).push(l));
                assert forall|b: u8| is_letter(b) implies (#[trigger] letter_bit(bitmap, b)
                    <==> has_letter(bs@.take(i + 1), b)) by {
                    lemma_has_letter_push(bs@.take(i as int), l, b);
                }
            }
            i += 1;
        }
        let w = Word { letters, bitmap };
        proof {
            assert(bs@.take(5) =~= bs@);
            assert(w@ =~= bs@);
            assert(w@ =~= word_of_chars(word@));
        }
        Ok(w)
    }

    /// Renders the letters back as the five-character string the word was
    /// built from.
    pub fn to_string(&self) -> (r: String)
        requires
            self.wf(),
        ensures
            r@ == chars_of_word(self@),
            r@.len() == 5,
    {
        let mut bytes: Vec<u8> = Vec::new();
        bytes.push(self.letters[0]);
        bytes.push(self.letters[1]);
        bytes.push(self.letters[2]);
        bytes.push(self.letters[3]);
        bytes.push(self.letters[4]);
        proof {
            assert(bytes@ =~= self@);
        }
        ascii_string(bytes)
    }
}

/// How a word is laid out, for the rest of the crate: the view is the
/// letter array, and the bitmap marks letter presence.
pub(crate) proof fn lemma_word_repr(w: Word)
    requires
        w.wf(),
    ensures
        w@ == w.letters@,
        w@.len() == 5,
        lower_word(w@),
        w.bitmap < 0x400_0000,
        forall|b: u8|
            #![trigger letter_bit(w.bitmap, b)]
            #![trigger has_letter(w@, b)]
            is_letter(b) ==> (letter_bit(w.bitmap, b) <==> has_letter(w@, b)),
{
}

/// Relies on `String::from_utf8`: ASCII bytes are valid UTF-8 and decode
/// to the characters with the same code points.
#[verifier::external_body]
fn ascii_string(bytes: Vec<u8>) -> (r: String)
    requires
        forall|i: int| 0 <= i < bytes@.len() ==> bytes@[i] < 128,
    ensures
        r@ == chars_of_word(bytes@),
{
    String::from_utf8(bytes).unwrap()
}

} // verus!
