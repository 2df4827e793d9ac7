//! Arithmetic of the 128-bit working word: masks, shifts and the value of a
//! binary digit pattern.

use vstd::arithmetic::div_mod::{lemma_add_mod_noop, lemma_mul_mod_noop_right};
use vstd::prelude::*;
use vstd::string::*;

verus! {

/// The number of bits of the working word, in which every mask and shift is
/// computed. It is the width of the widest target type.
pub const WORD_BITS: usize = 128;

/// The word in which only the highest bit is set: `2^127`.
pub const TOP_BIT: u128 = 0x8000_0000_0000_0000_0000_0000_0000_0000;

/// `2^128`, the modulus of the working word.
pub open spec fn word_modulus() -> nat {
    (u128::MAX as nat) + 1
}

/// The word whose low `width` bits are set: `2^width - 1`, cut to the word.
pub open spec fn low_mask(width: nat) -> u128 {
    if width >= WORD_BITS {
        u128::MAX
    } else {
        ((1u128 << (width as u128)) - 1) as u128
    }
}

/// `value << shift` in the working word; every bit leaves once `shift` reaches
/// the word's size.
pub open spec fn shift_left(value: u128, shift: nat) -> u128 {
    if shift >= WORD_BITS {
        0
    } else {
        value << (shift as u128)
    }
}

/// `n` as a `usize`, or the largest `usize` where `n` does not fit.
pub open spec fn saturated(n: nat) -> usize {
    if n > usize::MAX {
        usize::MAX
    } else {
        n as usize
    }
}

/// The word whose low `width` bits are set.
pub fn mask_of(width: usize) -> (r: u128)
    ensures
        r == low_mask(width as nat),
{
    if width >= WORD_BITS {
        u128::MAX
    } else {
        let one: u128 = 1;
        let w: u128 = width as u128;
        assert((1u128 << w) >= 1) by (bit_vector)
            requires
                w < 128,
        ;
        (one << w) - 1
    }
}

/// `value << shift` in the working word, and 0 where `shift` reaches the
/// word's size.
pub fn shifted(value: u128, shift: usize) -> (r: u128)
    ensures
        r == shift_left(value, shift as nat),
{
    if shift >= WORD_BITS {
        0
    } else {
        value << (shift as u128)
    }
}

/// Whether `c` is a binary digit.
pub open spec fn is_bit(c: char) -> bool {
    c == '0' || c == '1'
}

/// The digit that a character of a bit pattern stands for.
pub open spec fn bit_of(c: char) -> nat {
    if c == '1' {
        1
    } else {
        0
    }
}

/// The unsigned number that `pattern` spells in base 2, most significant
/// digit first.
pub open spec fn pattern_value(pattern: Seq<char>) -> nat
    decreases pattern.len(),
{
    if pattern.len() == 0 {
        0
    } else {
        2 * pattern_value(pattern.drop_last()) + bit_of(pattern.last())
    }
}

/// Reads a bit pattern into the working word. Digits that no longer fit
/// leave at the top, as in a shift.
pub fn pattern_word(pattern: &str) -> (r: u128)
    ensures
        r == pattern_value(pattern@) % word_modulus(),
{
    let n: usize = pattern.unicode_len();
    let mut value: u128 = 0;
    let mut i: usize = 0;
    assert(pattern@.take(0) =~= Seq::<char>::empty());
    assert(pattern_value(Seq::<char>::empty()) == 0);
    assert(0nat % word_modulus() == 0);
    while i < n
        invariant
            n == pattern@.len(),
            i <= n,
            value == pattern_value(pattern@.take(i as int)) % word_modulus(),
        decreases n - i,
    {
        let c = pattern.get_char(i);
        let bit: u128 = if c == '1' { 1 } else { 0 };
        // The top bit leaves the word when the value is doubled.
        let low: u128 = if value >= TOP_BIT {
            value - TOP_BIT
        } else {
            value
        };
        proof {
            let before = pattern@.take(i as int);
            let after = pattern@.take(i + 1);
            assert(after.drop_last() =~= before);
            assert(after.last() == c);
            let m = word_modulus() as int;
            let v = pattern_value(before) as int;
            assert((2 * v + bit) % m == (2 * (v % m) + bit) % m) by {
                lemma_mul_mod_noop_right(2, v, m);
                lemma_add_mod_noop(2 * v, bit as int, m);
                lemma_add_mod_noop(2 * (v % m), bit as int, m);
            }
        }
        value = 2 * low + bit;
        i += 1;
    }
    assert(pattern@.take(n as int) =~= pattern@);
    value
}

/// Shifting twice shifts by the sum.
pub proof fn lemma_shift_twice(value: u128, first: nat, second: nat)
    ensures
        shift_left(shift_left(value, first), second) == shift_left(value, first + second),
{
    if first < 128 && second < 128 {
        let a = first as u128;
        let b = second as u128;
        let c = (first + second) as u128;
        assert(c >= 128 ==> (value << a) << b == 0) by (bit_vector)
            requires
                a < 128,
                b < 128,
                c == a + b,
        ;
        assert(c < 128 ==> (value << a) << b == value << c) by (bit_vector)
            requires
                a < 128,
                b < 128,
                c == a + b,
        ;
    } else if second < 128 {
        let b = second as u128;
        assert(0u128 << b == 0) by (bit_vector);
    }
}

/// A shift of an OR is the OR of the shifts.
pub proof fn lemma_shift_or(left: u128, right: u128, shift: nat)
    ensures
        shift_left(left | right, shift) == shift_left(left, shift) | shift_left(right, shift),
{
    if shift < 128 {
        let s = shift as u128;
        assert((left | right) << s == (left << s) | (right << s)) by (bit_vector);
    } else {
        assert(0u128 | 0u128 == 0) by (bit_vector);
    }
}

/// Zero shifted is zero, and a shift by nothing changes nothing.
pub proof fn lemma_shift_zero(value: u128, shift: nat)
    ensures
        shift_left(0, shift) == 0,
        shift_left(value, 0) == value,
{
    if shift < 128 {
        let s = shift as u128;
        assert(0u128 << s == 0) by (bit_vector);
    }
    assert(value << 0u128 == value) by (bit_vector);
}

/// Bitwise OR has the unit zero, and its operands can be regrouped and
/// swapped.
pub proof fn lemma_or_laws(a: u128, b: u128, c: u128)
    ensures
        a | 0 == a,
        0 | a == a,
        a | b == b | a,
        (a | b) | c == a | (b | c),
{
    assert(a | 0 == a) by (bit_vector);
    assert(0 | a == a) by (bit_vector);
    assert(a | b == b | a) by (bit_vector);
    assert((a | b) | c == a | (b | c)) by (bit_vector);
}

/// A mask of an OR is the OR of the masked operands.
pub proof fn lemma_and_or(a: u128, b: u128, mask: u128)
    ensures
        (a | b) & mask == (a & mask) | (b & mask),
        0u128 & mask == 0,
{
    assert((a | b) & mask == (a & mask) | (b & mask)) by (bit_vector);
    assert(0u128 & mask == 0) by (bit_vector);
}

/// A mask of no bits leaves nothing, a mask of the whole word leaves all,
/// and a mask of `width` bits leaves a value below `2^width` unchanged.
pub proof fn lemma_low_mask(value: u128, width: nat)
    ensures
        value & low_mask(0) == 0,
        width >= 128 ==> value & low_mask(width) == value,
        width < 128 && value < (1u128 << (width as u128)) ==> value & low_mask(width) == value,
{
    assert(value & ((1u128 << 0u128) - 1) as u128 == 0) by (bit_vector);
    assert(value & u128::MAX == value) by (bit_vector);
    if width < 128 {
        let w = width as u128;
        assert(value < (1u128 << w) ==> value & ((1u128 << w) - 1) as u128 == value)
            by (bit_vector)
            requires
                w < 128,
        ;
    }
}

/// Below the bits of a mask, a shifted value does not depend on what the
/// mask removes from it before the shift.
pub proof fn lemma_mask_before_shift(value: u128, bits: nat, shift: nat)
    ensures
        shift_left(value & low_mask(bits), shift) & low_mask(bits) == shift_left(value, shift)
            & low_mask(bits),
{
    if bits < 128 && shift < 128 {
        let n = bits as u128;
        let s = shift as u128;
        assert(((value & ((1u128 << n) - 1) as u128) << s) & ((1u128 << n) - 1) as u128 == (value
            << s) & ((1u128 << n) - 1) as u128) by (bit_vector)
            requires
                n < 128,
                s < 128,
        ;
    } else if shift < 128 {
        assert(value & u128::MAX == value) by (bit_vector);
    }
}

} // verus!
