//! Compiles a compact textual description of a bit sequence into one packed
//! integer expression.
//!
//! A specification is a row of segments, the most significant first: a bit
//! pattern such as `0110`, a hexadecimal literal such as `0x1f` with four
//! bits for each digit, or a value with a width such as `var:5`, `3:2` or
//! `-var:8`. [`bseq`] turns it into the bitwise OR of shifted terms;
//! [`bseq_8`] to [`bseq_128`] also cast every value and the result to an
//! unsigned type.

pub mod bit_seq_input;
pub mod error;
pub mod grammar;
pub mod laws;
pub mod pack;
pub mod source;
pub mod syntax;
pub mod token;
pub mod word;

use crate::bit_seq_input::{
    segment_views, BitSegment, BitSeqInput, SegmentView, Width, WidthView,
};
use crate::error::{BitSeqError, ErrorKind};
use crate::grammar::parsed;
use crate::pack::{term_views, PackedExpr, PackedView, Target, Term, TermView};
use crate::syntax::{literal_number, parse_literal_number};
use crate::token::{tokenize, tokenized};
use crate::word::{low_mask, mask_of, pattern_value, pattern_word, saturated, word_modulus};
use vstd::prelude::*;
use vstd::string::*;

verus! {

/// The number of bits that a width stands for, or `None` where it is written
/// as a literal that denotes no number that fits.
pub open spec fn resolved(width: WidthView) -> Option<usize> {
    match width {
        WidthView::Derived(bits) => Some(bits),
        WidthView::Written(text, _) => match literal_number(text) {
            Some(number) => if number <= usize::MAX {
                Some(number as usize)
            } else {
                None
            },
            None => None,
        },
    }
}

/// The number of bits that a segment takes, or `None` where its width does
/// not resolve.
pub open spec fn segment_width(segment: SegmentView) -> Option<usize> {
    match segment {
        SegmentView::Bits(pattern) => Some(saturated(pattern.len())),
        SegmentView::Expr(_, width) => resolved(width),
    }
}

/// The error that a segment whose written width does not resolve is refused
/// with: it points at the width's literal.
pub open spec fn width_error(segment: SegmentView) -> BitSeqError {
    BitSeqError {
        kind: ErrorKind::MalformedWidth,
        position: match segment {
            SegmentView::Expr(_, WidthView::Written(_, at)) => at,
            _ => 0,
        },
    }
}

/// The sum of the widths of `segments`.
pub open spec fn total_width(segments: Seq<SegmentView>) -> nat
    decreases segments.len(),
{
    if segments.len() == 0 {
        0
    } else {
        (match segment_width(segments[0]) {
            Some(bits) => bits as nat,
            None => 0,
        }) + total_width(segments.drop_first())
    }
}

/// The term that a segment with a resolved width compiles to when `shift`
/// bits lie below it.
pub open spec fn term_of(segment: SegmentView, shift: usize, target: Option<Target>) -> TermView {
    match segment {
        SegmentView::Bits(pattern) => TermView::Raw {
            value: (pattern_value(pattern) % word_modulus()) as u128,
            shift,
        },
        SegmentView::Expr(expr, width) => TermView::Masked {
            expr,
            cast: target,
            mask: low_mask(resolved(width).unwrap() as nat),
            shift,
        },
    }
}

/// The terms that `segments` compile to: term `k` belongs to the segment
/// that is `k` places from the end, shifted by the widths of all segments
/// behind it.
pub open spec fn compiled_terms(segments: Seq<SegmentView>, target: Option<Target>) -> Seq<
    TermView,
> {
    Seq::new(
        segments.len(),
        |k: int|
            term_of(
                segments[segments.len() - 1 - k],
                saturated(total_width(segments.skip(segments.len() - k))),
                target,
            ),
    )
}

/// The error of the last segment whose width does not resolve, if there is
/// one.
pub open spec fn last_width_error(segments: Seq<SegmentView>) -> Option<BitSeqError>
    decreases segments.len(),
{
    if segments.len() == 0 {
        None
    } else if segment_width(segments.last()) is None {
        Some(width_error(segments.last()))
    } else {
        last_width_error(segments.drop_last())
    }
}

/// What `segments` compile to: the packed expression of their terms, or the
/// error of the last segment whose width does not resolve.
pub open spec fn compiled(segments: Seq<SegmentView>, target: Option<Target>) -> Result<
    PackedView,
    BitSeqError,
> {
    match last_width_error(segments) {
        Some(e) => Err(e),
        None => Ok(PackedView { terms: compiled_terms(segments, target), cast: target }),
    }
}

/// What the specification `source` compiles to.
pub open spec fn processed(source: Seq<char>, target: Option<Target>) -> Result<
    PackedView,
    BitSeqError,
> {
    match tokenized(source) {
        None => Err(BitSeqError { kind: ErrorKind::InvalidToken, position: 0 }),
        Some(tokens) => match parsed(tokens) {
            Err(e) => Err(e),
            Ok(segments) => compiled(segments, target),
        },
    }
}

/// Resolves a width to its number of bits. A written width that denotes no
/// number that fits is refused at its literal.
pub fn resolve(width: &Width) -> (r: Result<usize, BitSeqError>)
    ensures
        match r {
            Ok(bits) => resolved(width@) == Some(bits),
            Err(e) => {
                &&& resolved(width@) is None
                &&& width@ matches WidthView::Written(_, at)
                &&& e == (BitSeqError { kind: ErrorKind::MalformedWidth, position: at })
            },
        },
{
    match width {
        Width::Derived(bits) => Ok(*bits),
        Width::Written(text, at) => {
            let refused = BitSeqError { kind: ErrorKind::MalformedWidth, position: *at };
            match parse_literal_number(text.as_str()) {
                Some(number) => if number <= usize::MAX as u64 {
                    Ok(number as usize)
                } else {
                    Err(refused)
                },
                None => Err(refused),
            }
        },
    }
}

/// Compiles one segment into the term that lies `curr_bit_len` bits above
/// the lowest bit, and adds the segment's width to `curr_bit_len`.
pub fn map_segment(
    seg: &BitSegment,
    curr_bit_len: &mut usize,
    expr_type: &Option<Target>,
) -> (r: Result<Term, BitSeqError>)
    ensures
        match r {
            Ok(term) => segment_width(seg@) matches Some(bits) && term@ == term_of(
                seg@,
                *old(curr_bit_len),
                *expr_type,
            ) && *final(curr_bit_len) == saturated((*old(curr_bit_len) + bits) as nat),
            Err(e) => segment_width(seg@) is None && e == width_error(seg@) && *final(curr_bit_len)
                == *old(curr_bit_len),
        },
{
    let shift: usize = *curr_bit_len;
    match seg {
        BitSegment::Bits(bits) => {
            let value = pattern_word(bits.as_str());
            let len: usize = bits.as_str().unicode_len();
            *curr_bit_len = shift.saturating_add(len);
            Ok(Term::Raw { value, shift })
        },
        BitSegment::Expr(expr, width) => match resolve(width) {
            Ok(len) => {
                let mask = mask_of(len);
                *curr_bit_len = shift.saturating_add(len);
                Ok(Term::Masked { expr: expr.clone(), cast: *expr_type, mask, shift })
            },
            Err(e) => Err(e),
        },
    }
}

/// Compiles the segments of a specification into one packed expression.
/// The segments are taken from the last to the first, so that each is
/// shifted by the widths of those behind it.
pub fn compile(input: &BitSeqInput, var_type: Option<Target>) -> (r: Result<
    PackedExpr,
    BitSeqError,
>)
    ensures
        match r {
            Ok(packed) => compiled(input@, var_type) == Ok::<PackedView, BitSeqError>(packed@),
            Err(e) => compiled(input@, var_type) == Err::<PackedView, BitSeqError>(e),
        },
{
    let segments = input.segments();
    let n: usize = segments.len();
    let ghost all = input@;
    let mut terms: Vec<Term> = Vec::new();
    let mut bit_len: usize = 0;
    let mut j: usize = n;
    assert(all.skip(n as int) =~= Seq::<SegmentView>::empty());
    assert(all.take(n as int) =~= all);
    while j > 0
        invariant
            j <= n,
            n == segments.len(),
            all == input@,
            all == segment_views(segments@),
            terms.len() == n - j,
            bit_len == saturated(total_width(all.skip(j as int))),
            forall|k: int|
                0 <= k < n - j ==> (#[trigger] terms@[k])@ == compiled_terms(all, var_type)[k],
            last_width_error(all) == last_width_error(all.take(j as int)),
        decreases j,
    {
        j -= 1;
        let ghost below = bit_len;
        assert(all.skip(j as int).drop_first() =~= all.skip(j + 1));
        assert(all.take(j + 1).drop_last() =~= all.take(j as int));
        assert(all.take(j + 1).last() == all[j as int]);
        match map_segment(&segments[j], &mut bit_len, &var_type) {
            Ok(term) => {
                assert(term@ == compiled_terms(all, var_type)[n - 1 - j]);
                terms.push(term);
            },
            Err(e) => {
                return Err(e);
            },
        }
    }
    assert(all.take(0) =~= Seq::<SegmentView>::empty());
    assert(term_views(terms@) =~= compiled_terms(all, var_type));
    Ok(PackedExpr { terms, cast: var_type })
}

/// Compiles the specification `input`: splits it into tokens, reads the
/// segments and packs them, with every value and the result cast to
/// `var_type` where there is one.
pub fn process(input: &str, var_type: Option<Target>) -> (r: Result<PackedExpr, BitSeqError>)
    ensures
        match r {
            Ok(packed) => processed(input@, var_type) == Ok::<PackedView, BitSeqError>(packed@),
            Err(e) => processed(input@, var_type) == Err::<PackedView, BitSeqError>(e),
        },
{
    match tokenize(input) {
        None => Err(BitSeqError { kind: ErrorKind::InvalidToken, position: 0 }),
        Some(tokens) => match BitSeqInput::parse(&tokens) {
            Err(e) => Err(e),
            Ok(segments) => compile(&segments, var_type),
        },
    }
}

/// Compiles a specification without a target type.
pub fn bseq(input: &str) -> (r: Result<PackedExpr, BitSeqError>)
    ensures
        match r {
            Ok(packed) => processed(input@, None) == Ok::<PackedView, BitSeqError>(packed@),
            Err(e) => processed(input@, None) == Err::<PackedView, BitSeqError>(e),
        },
{
    process(input, None)
}

/// Compiles a specification for an 8-bit result.
pub fn bseq_8(input: &str) -> (r: Result<PackedExpr, BitSeqError>)
    ensures
        match r {
            Ok(packed) => processed(input@, Some(Target::U8)) == Ok::<PackedView, BitSeqError>(
                packed@,
            ),
            Err(e) => processed(input@, Some(Target::U8)) == Err::<PackedView, BitSeqError>(e),
        },
{
    process(input, Some(Target::U8))
}

/// Compiles a specification for a 16-bit result.
pub fn bseq_16(input: &str) -> (r: Result<PackedExpr, BitSeqError>)
    ensures
        match r {
            Ok(packed) => processed(input@, Some(Target::U16)) == Ok::<PackedView, BitSeqError>(
                packed@,
            ),
            Err(e) => processed(input@, Some(Target::U16)) == Err::<PackedView, BitSeqError>(e),
        },
{
    process(input, Some(Target::U16))
}

/// Compiles a specification for a 32-bit result.
pub fn bseq_32(input: &str) -> (r: Result<PackedExpr, BitSeqError>)
    ensures
        match r {
            Ok(packed) => processed(input@, Some(Target::U32)) == Ok::<PackedView, BitSeqError>(
                packed@,
            ),
            Err(e) => processed(input@, Some(Target::U32)) == Err::<PackedView, BitSeqError>(e),
        },
{
    process(input, Some(Target::U32))
}

/// Compiles a specification for a 64-bit result.
pub fn bseq_64(input: &str) -> (r: Result<PackedExpr, BitSeqError>)
    ensures
        match r {
            Ok(packed) => processed(input@, Some(Target::U64)) == Ok::<PackedView, BitSeqError>(
                packed@,
            ),
            Err(e) => processed(input@, Some(Target::U64)) == Err::<PackedView, BitSeqError>(e),
        },
{
    process(input, Some(Target::U64))
}

/// Compiles a specification for a 128-bit result.
pub fn bseq_128(input: &str) -> (r: Result<PackedExpr, BitSeqError>)
    ensures
        match r {
            Ok(packed) => processed(input@, Some(Target::U128)) == Ok::<PackedView, BitSeqError>(
                packed@,
            ),
            Err(e) => processed(input@, Some(Target::U128)) == Err::<PackedView, BitSeqError>(e),
        },
{
    process(input, Some(Target::U128))
}

} // verus!
