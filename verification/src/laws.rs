//! What holds of every specification: the value of a single segment, of two
//! sequences put together, of an empty sequence and of a cast.

use crate::bit_seq_input::{
    classify, has_hex_prefix, hex_digits, is_hex_digit, SegmentView, WidthView,
};
use crate::error::{BitSeqError, ErrorKind};
use crate::pack::{
    cast_to, lemma_lifted_terms, lemma_operand_count_concat, lemma_recast_terms,
    lemma_terms_value_concat, operand_count, terms_value, PackedView, Target, TermView,
};
use crate::word::{
    lemma_and_or, lemma_low_mask, lemma_mask_before_shift, lemma_or_laws, lemma_shift_zero,
    low_mask, pattern_value, saturated, shift_left, word_modulus,
};
use crate::grammar::segment_given;
use crate::syntax::LeadingExpr;
use crate::token::TokenView;
use crate::{compiled, compiled_terms, resolved, segment_width, term_of, total_width};
use vstd::arithmetic::div_mod::lemma_small_mod;
use vstd::arithmetic::power2::{
    lemma2_to64, lemma2_to64_rest, lemma_pow2_adds, lemma_pow2_strictly_increases,
    lemma_pow2_unfold, pow2,
};
use vstd::layout::unsigned_int_max_values;
use vstd::prelude::*;

verus! {

/// The value that `segments` pack to under `target`, where `operands` holds
/// the values of their expressions in the order in which they are written.
pub open spec fn packed_value(
    segments: Seq<SegmentView>,
    target: Option<Target>,
    operands: Seq<u128>,
) -> u128 {
    PackedView { terms: compiled_terms(segments, target), cast: target }.value(operands)
}

/// Whether the width of every segment resolves.
pub open spec fn widths_resolve(segments: Seq<SegmentView>) -> bool {
    forall|j: int| 0 <= j < segments.len() ==> segment_width(#[trigger] segments[j]) is Some
}

/// The number of value expressions among `segments`.
pub open spec fn value_count(segments: Seq<SegmentView>) -> nat
    decreases segments.len(),
{
    if segments.len() == 0 {
        0
    } else if segments.last() is Expr {
        value_count(segments.drop_last()) + 1
    } else {
        value_count(segments.drop_last())
    }
}

/// Segments compile exactly where every width resolves, and then to the
/// packed expression whose value is `packed_value`.
pub proof fn lemma_compiles_iff_widths_resolve(segments: Seq<SegmentView>, target: Option<Target>)
    ensures
        widths_resolve(segments) <==> compiled(segments, target) is Ok,
        widths_resolve(segments) ==> compiled(segments, target) == Ok::<PackedView, BitSeqError>(
            PackedView { terms: compiled_terms(segments, target), cast: target },
        ),
    decreases segments.len(),
{
    if segments.len() > 0 {
        let front = segments.drop_last();
        lemma_compiles_iff_widths_resolve(front, target);
        if widths_resolve(segments) {
            assert forall|j: int| 0 <= j < front.len() implies segment_width(
                #[trigger] front[j],
            ) is Some by {
                assert(front[j] == segments[j]);
            }
            assert(segment_width(segments[segments.len() - 1]) is Some);
        }
        if segment_width(segments.last()) is Some && widths_resolve(front) {
            assert forall|j: int| 0 <= j < segments.len() implies segment_width(
                #[trigger] segments[j],
            ) is Some by {
                if j < front.len() {
                    assert(front[j] == segments[j]);
                }
            }
        }
    }
}

/// The empty specification compiles, under every target, to an expression
/// whose value is 0.
pub proof fn lemma_empty_is_zero(target: Option<Target>)
    ensures
        compiled(Seq::empty(), target) is Ok,
        packed_value(Seq::empty(), target, Seq::empty()) == 0,
{
    assert(compiled_terms(Seq::empty(), target).len() == 0);
    if let Some(t) = target {
        lemma_and_or(0, 0, low_mask(t.bits()));
    }
}

/// A single bit pattern compiles to the number that it spells in base 2, cut
/// to the working word; a pattern of at most 128 digits to that number
/// itself.
pub proof fn lemma_pattern_packs_to_its_value(pattern: Seq<char>)
    ensures
        compiled(seq![SegmentView::Bits(pattern)], None) is Ok,
        packed_value(seq![SegmentView::Bits(pattern)], None, Seq::empty()) == pattern_value(pattern)
            % word_modulus(),
        pattern.len() <= 128 ==> packed_value(
            seq![SegmentView::Bits(pattern)],
            None,
            Seq::empty(),
        ) == pattern_value(pattern),
{
    let segments = seq![SegmentView::Bits(pattern)];
    lemma_compiles_iff_widths_resolve(segments, None);
    let terms = compiled_terms(segments, None);
    assert(segments.skip(1) =~= Seq::<SegmentView>::empty());
    assert(total_width(segments.skip(1)) == 0);
    let value = (pattern_value(pattern) % word_modulus()) as u128;
    assert(terms[0] == TermView::Raw { value, shift: 0 });
    assert(terms.drop_first() =~= Seq::<TermView>::empty());
    assert(terms_value(terms.drop_first(), Seq::empty()) == 0);
    lemma_shift_zero(value, 0);
    lemma_or_laws(value, 0, 0);
    lemma_pattern_value_bound(pattern);
    if pattern.len() <= 128 {
        lemma_power_of_two_128();
        if pattern.len() < 128 {
            lemma_pow2_strictly_increases(pattern.len(), 128);
        }
        lemma_small_mod(pattern_value(pattern), word_modulus());
    }
}

/// A pattern of `k` digits spells a number below `2^k`.
pub proof fn lemma_pattern_value_bound(pattern: Seq<char>)
    ensures
        pattern_value(pattern) < pow2(pattern.len()),
    decreases pattern.len(),
{
    if pattern.len() == 0 {
        lemma2_to64();
    } else {
        lemma_pattern_value_bound(pattern.drop_last());
        lemma_pow2_unfold(pattern.len());
    }
}

/// `2^128` is the modulus of the working word.
pub proof fn lemma_power_of_two_128()
    ensures
        pow2(128) == word_modulus(),
{
    lemma2_to64();
    lemma2_to64_rest();
    lemma_pow2_adds(64, 64);
    assert(0x10000000000000000nat * 0x10000000000000000nat == u128::MAX + 1) by (nonlinear_arith);
}

/// Zeros in front of a pattern do not change the number that it spells.
pub proof fn lemma_leading_zeros(zeros: Seq<char>, pattern: Seq<char>)
    requires
        forall|i: int| 0 <= i < zeros.len() ==> zeros[i] == '0',
    ensures
        pattern_value(zeros + pattern) == pattern_value(pattern),
    decreases pattern.len(),
{
    if pattern.len() == 0 {
        assert(zeros + pattern =~= zeros);
        lemma_zeros_spell_zero(zeros);
    } else {
        assert((zeros + pattern).drop_last() =~= zeros + pattern.drop_last());
        lemma_leading_zeros(zeros, pattern.drop_last());
    }
}

/// Zeros in front of a pattern do not change what the pattern packs to.
pub proof fn lemma_padding_keeps_value(zeros: Seq<char>, pattern: Seq<char>)
    requires
        forall|i: int| 0 <= i < zeros.len() ==> zeros[i] == '0',
    ensures
        packed_value(seq![SegmentView::Bits(zeros + pattern)], None, Seq::empty()) == packed_value(
            seq![SegmentView::Bits(pattern)],
            None,
            Seq::empty(),
        ),
{
    lemma_leading_zeros(zeros, pattern);
    lemma_pattern_packs_to_its_value(zeros + pattern);
    lemma_pattern_packs_to_its_value(pattern);
}

/// A pattern of zeros spells 0.
pub proof fn lemma_zeros_spell_zero(zeros: Seq<char>)
    requires
        forall|i: int| 0 <= i < zeros.len() ==> zeros[i] == '0',
    ensures
        pattern_value(zeros) == 0,
    decreases zeros.len(),
{
    if zeros.len() > 0 {
        lemma_zeros_spell_zero(zeros.drop_last());
    }
}

/// The widths of two sequences put together add up.
pub proof fn lemma_total_width_concat(high: Seq<SegmentView>, low: Seq<SegmentView>)
    ensures
        total_width(high + low) == total_width(high) + total_width(low),
    decreases high.len(),
{
    if high.len() == 0 {
        assert(high + low =~= low);
    } else {
        assert((high + low).drop_first() =~= high.drop_first() + low);
        lemma_total_width_concat(high.drop_first(), low);
    }
}

/// The terms of two sequences put together are the terms of the lower
/// sequence, then the terms of the higher one, lifted by the lower one's
/// width.
pub proof fn lemma_compiled_terms_concat(
    high: Seq<SegmentView>,
    low: Seq<SegmentView>,
    target: Option<Target>,
)
    ensures
        compiled_terms(high + low, target) == compiled_terms(low, target) + compiled_terms(
            high,
            target,
        ).map_values(|t: TermView| t.lifted(total_width(low))),
{
    let all = high + low;
    let by = total_width(low);
    let joined = compiled_terms(low, target) + compiled_terms(high, target).map_values(
        |t: TermView| t.lifted(by),
    );
    assert(compiled_terms(all, target).len() == joined.len());
    assert forall|k: int| 0 <= k < all.len() implies compiled_terms(all, target)[k]
        == joined[k] by {
        if k < low.len() {
            assert(all.skip(all.len() - k) =~= low.skip(low.len() - k));
        } else {
            let up = k - low.len();
            assert(all.skip(all.len() - k) =~= high.skip(high.len() - up) + low);
            lemma_total_width_concat(high.skip(high.len() - up), low);
        }
    }
    assert(compiled_terms(all, target) =~= joined);
}

/// The terms of a sequence hold one operand for each value expression.
pub proof fn lemma_operands_are_values(segments: Seq<SegmentView>, target: Option<Target>)
    ensures
        operand_count(compiled_terms(segments, target)) == value_count(segments),
    decreases segments.len(),
{
    if segments.len() > 0 {
        let front = segments.drop_last();
        let last = seq![segments.last()];
        assert(front + last =~= segments);
        lemma_compiled_terms_concat(front, last, target);
        lemma_operands_are_values(front, target);
        let low = compiled_terms(last, target);
        let up = compiled_terms(front, target).map_values(
            |t: TermView| t.lifted(total_width(last)),
        );
        lemma_operand_count_concat(low, up);
        lemma_lifted_terms(compiled_terms(front, target), total_width(last), Seq::empty());
        assert(low.drop_first() =~= Seq::<TermView>::empty());
        assert(operand_count(low.drop_first()) == 0);
    }
}

/// A single value segment of `bits` bits packs to the low `bits` bits of its
/// value: to 0 where `bits` is 0, and to the value itself where it is below
/// `2^bits` or `bits` covers the working word.
pub proof fn lemma_value_packs_to_low_bits(expr: Seq<char>, width: WidthView, value: u128)
    requires
        resolved(width) is Some,
    ensures
        compiled(seq![SegmentView::Expr(expr, width)], None) is Ok,
        packed_value(seq![SegmentView::Expr(expr, width)], None, seq![value]) == value & low_mask(
            resolved(width).unwrap() as nat,
        ),
        resolved(width).unwrap() == 0 ==> packed_value(
            seq![SegmentView::Expr(expr, width)],
            None,
            seq![value],
        ) == 0,
        resolved(width).unwrap() >= 128 || value < (1u128 << (resolved(width).unwrap() as u128))
            ==> packed_value(seq![SegmentView::Expr(expr, width)], None, seq![value]) == value,
{
    let bits = resolved(width).unwrap() as nat;
    let segments = seq![SegmentView::Expr(expr, width)];
    lemma_compiles_iff_widths_resolve(segments, None);
    let terms = compiled_terms(segments, None);
    assert(segments.skip(1) =~= Seq::<SegmentView>::empty());
    assert(total_width(segments.skip(1)) == 0);
    assert(terms[0] == TermView::Masked { expr, cast: None, mask: low_mask(bits), shift: 0 });
    assert(terms.drop_first() =~= Seq::<TermView>::empty());
    assert(terms_value(terms.drop_first(), seq![value].drop_last()) == 0);
    lemma_shift_zero(value & low_mask(bits), 0);
    lemma_or_laws(value & low_mask(bits), 0, 0);
    lemma_low_mask(value, bits);
}

/// Two sequences put together pack to the value of the first, shifted by
/// the width of the second, OR the value of the second; under a target the
/// whole is cast once more.
pub proof fn lemma_concatenation(
    high: Seq<SegmentView>,
    low: Seq<SegmentView>,
    target: Option<Target>,
    high_operands: Seq<u128>,
    low_operands: Seq<u128>,
)
    requires
        high_operands.len() == value_count(high),
        low_operands.len() == value_count(low),
    ensures
        packed_value(high + low, target, high_operands + low_operands) == cast_to(
            shift_left(packed_value(high, target, high_operands), total_width(low)) | packed_value(
                low,
                target,
                low_operands,
            ),
            target,
        ),
{
    let by = total_width(low);
    let operands = high_operands + low_operands;
    let low_terms = compiled_terms(low, target);
    let high_terms = compiled_terms(high, target);
    let up = high_terms.map_values(|t: TermView| t.lifted(by));
    lemma_compiled_terms_concat(high, low, target);
    lemma_operands_are_values(high, target);
    lemma_operands_are_values(low, target);
    lemma_lifted_terms(high_terms, by, high_operands);
    lemma_terms_value_concat(low_terms, up, operands);
    assert(operands.skip(high_operands.len() as int) =~= low_operands);
    assert(operands.take(high_operands.len() as int) =~= high_operands);
    let a = terms_value(high_terms, high_operands);
    let b = terms_value(low_terms, low_operands);
    assert(terms_value(low_terms + up, operands) == b | shift_left(a, by));
    lemma_or_laws(b, shift_left(a, by), 0);
    if let Some(t) = target {
        let m = low_mask(t.bits());
        lemma_mask_before_shift(a, t.bits(), by);
        lemma_and_or(shift_left(a & m, by), b & m, m);
        lemma_and_or(shift_left(a, by), b, m);
        assert((b & m) & m == b & m) by (bit_vector);
    }
}

/// A target type cuts the value: what a sequence packs to under a target is
/// what it packs to without one, cut to the target's bits.
pub proof fn lemma_target_truncates(
    segments: Seq<SegmentView>,
    target: Target,
    operands: Seq<u128>,
)
    ensures
        packed_value(segments, Some(target), operands) == packed_value(segments, None, operands)
            & low_mask(target.bits()),
{
    let base = compiled_terms(segments, None);
    assert(compiled_terms(segments, Some(target)) =~= base.map_values(
        |t: TermView| t.recast(Some(target)),
    ));
    assert(base =~= base.map_values(|t: TermView| t.recast(None)));
    lemma_recast_terms(base, target, operands);
}

/// The number that a digit of base 16 stands for.
pub open spec fn hex_digit_value(c: char) -> nat {
    if '0' <= c && c <= '9' {
        (c as int - '0' as int) as nat
    } else if 'a' <= c && c <= 'f' {
        (c as int - 'a' as int + 10) as nat
    } else {
        (c as int - 'A' as int + 10) as nat
    }
}

/// The number that `digits` spell in base 16, most significant digit first.
pub open spec fn hex_value(digits: Seq<char>) -> nat
    decreases digits.len(),
{
    if digits.len() == 0 {
        0
    } else {
        16 * hex_value(digits.drop_last()) + hex_digit_value(digits.last())
    }
}

/// The digits of a hexadecimal literal are digits of base 16.
pub proof fn lemma_hex_digits_are_digits(tail: Seq<char>)
    ensures
        forall|i: int|
            0 <= i < hex_digits(tail).len() ==> is_hex_digit(#[trigger] hex_digits(tail)[i]),
    decreases tail.len(),
{
    if tail.len() > 0 {
        let rest = hex_digits(tail.drop_first());
        lemma_hex_digits_are_digits(tail.drop_first());
        assert forall|i: int| 0 <= i < hex_digits(tail).len() implies is_hex_digit(
            #[trigger] hex_digits(tail)[i],
        ) by {
            if is_hex_digit(tail[0]) {
                if i > 0 {
                    assert(hex_digits(tail)[i] == rest[i - 1]);
                }
            }
        }
    }
}

/// Fewer than 32 digits of base 16 spell a number below `2^(4 * digits)`.
pub proof fn lemma_hex_value_bound(digits: Seq<char>)
    requires
        forall|i: int| 0 <= i < digits.len() ==> is_hex_digit(#[trigger] digits[i]),
        digits.len() < 32,
    ensures
        hex_value(digits) < (1u128 << ((4 * digits.len()) as u128)),
    decreases digits.len(),
{
    if digits.len() == 0 {
        assert(1u128 << 0u128 == 1) by (bit_vector);
    } else {
        let front = digits.drop_last();
        assert forall|i: int| 0 <= i < front.len() implies is_hex_digit(#[trigger] front[i]) by {
            assert(front[i] == digits[i]);
        }
        lemma_hex_value_bound(front);
        let v = hex_value(front) as u128;
        let d = hex_digit_value(digits.last()) as u128;
        assert(is_hex_digit(digits[digits.len() - 1]));
        let k = (4 * front.len()) as u128;
        let k4 = (4 * digits.len()) as u128;
        assert(16 * v + d < (1u128 << k4)) by (bit_vector)
            requires
                v < (1u128 << k),
                d < 16,
                k4 == k + 4,
                k4 < 128,
        ;
    }
}

/// A bare hexadecimal literal is a value of four bits for each of its
/// digits, and that width holds the number that the digits spell: masking
/// changes nothing.
pub proof fn lemma_hex_literal_fits(text: Seq<char>, value: u128)
    requires
        has_hex_prefix(text),
        value == hex_value(hex_digits(text.skip(2))),
    ensures
        classify(text) == Ok::<SegmentView, ErrorKind>(
            SegmentView::Expr(
                text,
                WidthView::Derived(saturated(4 * hex_digits(text.skip(2)).len())),
            ),
        ),
        packed_value(seq![classify(text).unwrap()], None, seq![value]) == value,
{
    let digits = hex_digits(text.skip(2));
    if digits.len() < 32 {
        lemma_hex_digits_are_digits(text.skip(2));
        lemma_hex_value_bound(digits);
    } else {
        unsigned_int_max_values();
    }
    let width = WidthView::Derived(saturated(4 * digits.len()));
    lemma_value_packs_to_low_bits(text, width, value);
}

/// A bare hexadecimal literal that no `:` follows is read as a value
/// segment: the literal unchanged, with four bits for each of its digits.
/// What stands at the front of the tokens does not matter.
pub proof fn lemma_bare_hex_literal(
    tokens: Seq<TokenView>,
    i: int,
    text: Seq<char>,
    found: Option<LeadingExpr>,
)
    requires
        0 <= i < tokens.len(),
        tokens[i] == TokenView::Int(text),
        has_hex_prefix(text),
        !(i + 1 < tokens.len() && tokens[i + 1].is_mark(':')),
    ensures
        segment_given(tokens, i, found) == Ok::<(SegmentView, int), BitSeqError>(
            (
                SegmentView::Expr(
                    text,
                    WidthView::Derived(saturated(4 * hex_digits(text.skip(2)).len())),
                ),
                i + 1,
            ),
        ),
{
}

/// The term of a value segment is the low bits of its value, cast first
/// where there is a target, shifted by the bits that lie below it; and the
/// offset behind it is the offset before it plus the width, where that sum
/// fits.
pub proof fn lemma_value_term(
    expr: Seq<char>,
    width: WidthView,
    shift: usize,
    target: Option<Target>,
    value: u128,
)
    requires
        resolved(width) is Some,
    ensures
        term_of(SegmentView::Expr(expr, width), shift, target).value(value) == shift_left(
            cast_to(value, target) & low_mask(resolved(width).unwrap() as nat),
            shift as nat,
        ),
        shift + resolved(width).unwrap() <= usize::MAX ==> saturated(
            (shift + resolved(width).unwrap()) as nat,
        ) == shift + resolved(width).unwrap(),
{
}

/// The term of a bare hexadecimal literal is the number that its digits
/// spell, shifted by the bits that lie below it: the mask changes nothing.
pub proof fn lemma_hex_term(text: Seq<char>, shift: usize, value: u128)
    requires
        has_hex_prefix(text),
        value == hex_value(hex_digits(text.skip(2))),
    ensures
        term_of(classify(text).unwrap(), shift, None).value(value) == shift_left(
            value,
            shift as nat,
        ),
{
    let digits = hex_digits(text.skip(2));
    let bits = saturated(4 * digits.len());
    if digits.len() < 32 {
        lemma_hex_digits_are_digits(text.skip(2));
        lemma_hex_value_bound(digits);
    } else {
        unsigned_int_max_values();
    }
    lemma_low_mask(value, bits as nat);
}

} // verus!
