//! Bit-level facts behind the engine's packed representations: 26-bit
//! letter-presence maps and 5-bit position masks.

use vstd::prelude::*;

use crate::model::{is_letter, letter_index};

verus! {

/// Bit `i` of the 32-bit map `x`.
pub(crate) open spec fn nth_bit32(x: u32, i: u32) -> bool {
    (x >> i) & 1u32 == 1u32
}

/// Bit `i` of the 8-bit mask `x`.
pub(crate) open spec fn nth_bit8(x: u8, i: u8) -> bool {
    (x >> i) & 1u8 == 1u8
}

/// The presence bit of letter `b` in the 32-bit map `x`.
pub(crate) open spec fn letter_bit(x: u32, b: u8) -> bool {
    nth_bit32(x, (b - 97) as u32)
}

/// The 32-bit map holding only letter `b`.
pub(crate) open spec fn mask_of(b: u8) -> u32
    recommends
        is_letter(b),
{
    1u32 << ((b - 97) as u32)
}

/// Table slot of letter `b`.
pub(crate) fn letter_slot(b: u8) -> (i: usize)
    requires
        is_letter(b),
    ensures
        i == letter_index(b),
{
    (b - 97) as usize
}

/// The executable map holding only letter `b`.
pub(crate) fn letter_mask(b: u8) -> (m: u32)
    requires
        is_letter(b),
    ensures
        m == mask_of(b),
{
    1u32 << ((b - 97) as u32)
}

pub(crate) proof fn lemma_and_bit32(a: u32, b: u32, i: u32)
    by (bit_vector)
    requires
        i < 32,
    ensures
        nth_bit32(a & b, i) == (nth_bit32(a, i) && nth_bit32(b, i)),
{
}

pub(crate) proof fn lemma_andnot_bit32(a: u32, b: u32, i: u32)
    by (bit_vector)
    requires
        i < 32,
    ensures
        nth_bit32(a & !b, i) == (nth_bit32(a, i) && !nth_bit32(b, i)),
{
}

pub(crate) proof fn lemma_or_bit32(a: u32, b: u32, i: u32)
    by (bit_vector)
    requires
        i < 32,
    ensures
        nth_bit32(a | b, i) == (nth_bit32(a, i) || nth_bit32(b, i)),
{
}

pub(crate) proof fn lemma_one_bit32(k: u32, i: u32)
    by (bit_vector)
    requires
        k < 32,
        i < 32,
    ensures
        nth_bit32(1u32 << k, i) == (i == k),
{
}

pub(crate) proof fn lemma_zero_bit32(i: u32)
    by (bit_vector)
    requires
        i < 32,
    ensures
        !nth_bit32(0u32, i),
{
}

/// A nonzero 32-bit map has a set bit.
pub(crate) proof fn lemma_nonzero_bit32(x: u32)
    requires
        x != 0,
    ensures
        exists|i: u32| i < 32 && nth_bit32(x, i),
{
    assert(nth_bit32(x, 0) || nth_bit32(x, 1) || nth_bit32(x, 2) || nth_bit32(x, 3) || nth_bit32(
        x,
        4,
    ) || nth_bit32(x, 5) || nth_bit32(x, 6) || nth_bit32(x, 7) || nth_bit32(x, 8) || nth_bit32(
        x,
        9,
    ) || nth_bit32(x, 10) || nth_bit32(x, 11) || nth_bit32(x, 12) || nth_bit32(x, 13) || nth_bit32(
        x,
        14,
    ) || nth_bit32(x, 15) || nth_bit32(x, 16) || nth_bit32(x, 17) || nth_bit32(x, 18) || nth_bit32(
        x,
        19,
    ) || nth_bit32(x, 20) || nth_bit32(x, 21) || nth_bit32(x, 22) || nth_bit32(x, 23) || nth_bit32(
        x,
        24,
    ) || nth_bit32(x, 25) || nth_bit32(x, 26) || nth_bit32(x, 27) || nth_bit32(x, 28) || nth_bit32(
        x,
        29,
    ) || nth_bit32(x, 30) || nth_bit32(x, 31)) by (bit_vector)
        requires
            x != 0u32,
    ;
}

/// A 32-bit map is disjoint from another exactly when no bit is set in both.
pub(crate) proof fn lemma_and32_zero(a: u32, b: u32)
    ensures
        (a & b == 0) <==> (forall|i: u32| i < 32 ==> !(nth_bit32(a, i) && nth_bit32(b, i))),
{
    if a & b == 0 {
        assert forall|i: u32| i < 32 implies !(nth_bit32(a, i) && nth_bit32(b, i)) by {
            lemma_and_bit32(a, b, i);
            lemma_zero_bit32(i);
        }
    } else {
        lemma_nonzero_bit32(a & b);
        let i = choose|i: u32| i < 32 && nth_bit32(a & b, i);
        lemma_and_bit32(a, b, i);
    }
}

/// A 32-bit map covers another exactly when every set bit of the second is
/// set in the first.
pub(crate) proof fn lemma_and32_covers(a: u32, b: u32)
    ensures
        (a & b == b) <==> (forall|i: u32| i < 32 && nth_bit32(b, i) ==> nth_bit32(a, i)),
{
    if a & b == b {
        assert forall|i: u32| i < 32 && nth_bit32(b, i) implies nth_bit32(a, i) by {
            lemma_and_bit32(a, b, i);
        }
    } else {
        assert((a & b) ^ b != 0) by (bit_vector)
            requires
                a & b != b,
        ;
        lemma_nonzero_bit32((a & b) ^ b);
        let i = choose|i: u32| i < 32 && nth_bit32((a & b) ^ b, i);
        assert(nth_bit32(b, i) && !nth_bit32(a, i)) by (bit_vector)
            requires
                i < 32 && nth_bit32((a & b) ^ b, i),
        ;
    }
}

/// Letter maps use the low 26 bits only.
pub(crate) proof fn lemma_high_bits_clear32(x: u32, i: u32)
    by (bit_vector)
    requires
        x < 0x400_0000,
        26 <= i < 32,
    ensures
        !nth_bit32(x, i),
{
}

pub(crate) proof fn lemma_or32_keeps_low(a: u32, b: u32)
    by (bit_vector)
    requires
        a < 0x400_0000,
        b < 0x400_0000,
    ensures
        (a | b) < 0x400_0000,
{
}

pub(crate) proof fn lemma_one_shift_low32(k: u32)
    by (bit_vector)
    requires
        k < 26,
    ensures
        1u32 << k < 0x400_0000,
{
}

/// Setting one letter's bit leaves every other letter's bit alone and
/// keeps the map within its 26 bits.
pub(crate) proof fn lemma_letter_bit_or_mask(x: u32, b: u8)
    requires
        x < 0x400_0000,
        is_letter(b),
    ensures
        (x | mask_of(b)) < 0x400_0000,
        forall|c: u8|
            is_letter(c) ==> (#[trigger] letter_bit(x | mask_of(b), c) <==> (letter_bit(x, c) || c
                == b)),
{
    lemma_one_shift_low32((b - 97) as u32);
    lemma_or32_keeps_low(x, mask_of(b));
    assert forall|c: u8| is_letter(c) implies (#[trigger] letter_bit(x | mask_of(b), c) <==> (
    letter_bit(x, c) || c == b)) by {
        lemma_or_bit32(x, mask_of(b), (c - 97) as u32);
        lemma_one_bit32((b - 97) as u32, (c - 97) as u32);
    }
}

/// The empty map has no letter's bit set.
pub(crate) proof fn lemma_letter_bit_zero(b: u8)
    requires
        is_letter(b),
    ensures
        !letter_bit(0u32, b),
{
    lemma_zero_bit32((b - 97) as u32);
}

pub(crate) proof fn lemma_or_bit8(a: u8, b: u8, i: u8)
    by (bit_vector)
    requires
        i < 8,
    ensures
        nth_bit8(a | b, i) == (nth_bit8(a, i) || nth_bit8(b, i)),
{
}

pub(crate) proof fn lemma_one_bit8(k: u8, i: u8)
    by (bit_vector)
    requires
        k < 8,
        i < 8,
    ensures
        nth_bit8(1u8 << k, i) == (i == k),
{
}

pub(crate) proof fn lemma_zero_bit8(i: u8)
    by (bit_vector)
    requires
        i < 8,
    ensures
        !nth_bit8(0u8, i),
{
}

/// The executable single-bit test reads bit `p`.
pub(crate) proof fn lemma_test_bit8(x: u8, p: u8)
    by (bit_vector)
    requires
        p < 8,
    ensures
        (x & (1u8 << p) != 0) == nth_bit8(x, p),
{
}

pub(crate) proof fn lemma_or8_keeps_low(a: u8, b: u8)
    by (bit_vector)
    requires
        a < 32,
        b < 32,
    ensures
        (a | b) < 32,
{
}

pub(crate) proof fn lemma_one_shift_low8(k: u8)
    by (bit_vector)
    requires
        k < 5,
    ensures
        1u8 << k < 32,
{
}

} // verus!
