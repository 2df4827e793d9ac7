//! The grammar of a bit-sequence specification, stated over its tokens.
//!
//! A specification is a row of segments. At each place the forms are tried in
//! this order: a bitwise not or a negation with a width, an identifier or an
//! integer literal with a width, a bare integer literal.

use crate::bit_seq_input::{classify, SegmentView, WidthView};
use crate::error::{BitSeqError, ErrorKind};
use crate::syntax::{leading_expr, LeadingExpr};
use crate::token::{source_text, TokenView};
use vstd::prelude::*;

verus! {

/// The error of kind `kind` at token `position`.
pub open spec fn error_at(kind: ErrorKind, position: int) -> BitSeqError {
    BitSeqError { kind, position: position as usize }
}

/// The integer literal that starts at token `i`, as its text and the number
/// of tokens it is made of: one literal, or a `-` and a literal.
pub open spec fn int_literal_at(tokens: Seq<TokenView>, i: int) -> Option<(Seq<char>, int)> {
    if 0 <= i < tokens.len() {
        match tokens[i] {
            TokenView::Int(text) => Some((text, 1)),
            TokenView::Punct(mark, _) => if mark == '-' && i + 1 < tokens.len() {
                match tokens[i + 1] {
                    TokenView::Int(text) => Some((seq!['-'] + text, 2)),
                    _ => None,
                }
            } else {
                None
            },
            _ => None,
        }
    } else {
        None
    }
}

/// The width that is written at token `i`, and the place behind it: a `:` and
/// an integer literal.
pub open spec fn width_at(tokens: Seq<TokenView>, i: int) -> Result<(WidthView, int), BitSeqError> {
    if !(0 <= i < tokens.len() && tokens[i].is_mark(':')) {
        Err(error_at(ErrorKind::MissingSeparator, i))
    } else {
        match int_literal_at(tokens, i + 1) {
            Some((text, taken)) => Ok((WidthView::Written(text, (i + 1) as usize), i + 1 + taken)),
            None => Err(error_at(ErrorKind::MissingWidth, i + 1)),
        }
    }
}

/// Whether token `i` is the operator of a bitwise not or of a negation.
pub open spec fn unary_operator_at(tokens: Seq<TokenView>, i: int) -> bool {
    0 <= i < tokens.len() && (tokens[i].is_mark('!') || tokens[i].is_mark('-'))
}

/// Where the unary expression that starts at token `i` ends, given what was
/// found at the front of the tokens from `i` on: the index of the `:` behind
/// it, if token `i` is `!` or `-` and what was found is a unary expression
/// that a `:` follows.
pub open spec fn unary_end(tokens: Seq<TokenView>, i: int, found: Option<LeadingExpr>) -> Option<
    int,
> {
    match found {
        Some(expr) => {
            let end = tokens.len() - expr.rest;
            if unary_operator_at(tokens, i) && expr.unary && i < end < tokens.len()
                && tokens[end].is_mark(':') {
                Some(end)
            } else {
                None
            }
        },
        None => None,
    }
}

/// The value segment whose expression is `expr` and whose width is written at
/// token `colon`.
pub open spec fn value_segment(tokens: Seq<TokenView>, expr: Seq<char>, colon: int) -> Result<
    (SegmentView, int),
    BitSeqError,
> {
    match width_at(tokens, colon) {
        Ok((width, next)) => Ok((SegmentView::Expr(expr, width), next)),
        Err(e) => Err(e),
    }
}

/// Whether token `i` is an identifier.
pub open spec fn ident_at(tokens: Seq<TokenView>, i: int) -> bool {
    0 <= i < tokens.len() && tokens[i] is Ident
}

/// Whether an integer literal starts at token `i` and the token after `i` is
/// a `:`.
pub open spec fn sized_literal_at(tokens: Seq<TokenView>, i: int) -> bool {
    int_literal_at(tokens, i) is Some && i + 1 < tokens.len() && tokens[i + 1].is_mark(':')
}

/// What the bare integer literal at token `i` stands for, and the place
/// behind it.
pub open spec fn bare_literal(tokens: Seq<TokenView>, i: int) -> Result<
    (SegmentView, int),
    BitSeqError,
> {
    match int_literal_at(tokens, i) {
        Some((text, taken)) => match classify(text) {
            Ok(segment) => Ok((segment, i + taken)),
            Err(kind) => Err(error_at(kind, i)),
        },
        None => Err(error_at(ErrorKind::UnrecognizedSegment, i)),
    }
}

/// The segment that starts at token `i`, and the place behind it, given
/// what was found at the front of the tokens from `i` on.
pub open spec fn segment_given(
    tokens: Seq<TokenView>,
    i: int,
    found: Option<LeadingExpr>,
) -> Result<(SegmentView, int), BitSeqError> {
    if let Some(end) = unary_end(tokens, i, found) {
        value_segment(tokens, source_text(tokens.subrange(i, end)), end)
    } else if ident_at(tokens, i) || sized_literal_at(tokens, i) {
        value_segment(tokens, tokens[i].text(), i + 1)
    } else {
        bare_literal(tokens, i)
    }
}

/// The segment that starts at token `i`, and the place behind it.
pub open spec fn segment_at(tokens: Seq<TokenView>, i: int) -> Result<
    (SegmentView, int),
    BitSeqError,
> {
    segment_given(tokens, i, leading_expr(source_text(tokens.skip(i))))
}

/// A segment takes at least one token, and none behind the last.
pub proof fn lemma_segment_advances(tokens: Seq<TokenView>, i: int, found: Option<LeadingExpr>)
    requires
        0 <= i < tokens.len(),
    ensures
        match segment_given(tokens, i, found) {
            Ok((_, next)) => i < next <= tokens.len(),
            Err(_) => true,
        },
{
}

/// `segments` in front of what `rest` holds.
pub open spec fn prepend(
    segments: Seq<SegmentView>,
    rest: Result<Seq<SegmentView>, BitSeqError>,
) -> Result<Seq<SegmentView>, BitSeqError> {
    match rest {
        Ok(more) => Ok(segments + more),
        Err(e) => Err(e),
    }
}

/// The segments that the tokens from `i` on spell, or the first error.
pub open spec fn segments_from(tokens: Seq<TokenView>, i: int) -> Result<
    Seq<SegmentView>,
    BitSeqError,
>
    decreases tokens.len() - i,
    via segments_from_decreases
{
    if !(0 <= i < tokens.len()) {
        Ok(Seq::empty())
    } else {
        match segment_at(tokens, i) {
            Ok((segment, next)) => prepend(seq![segment], segments_from(tokens, next)),
            Err(e) => Err(e),
        }
    }
}

#[via_fn]
proof fn segments_from_decreases(tokens: Seq<TokenView>, i: int) {
    if 0 <= i < tokens.len() {
        lemma_segment_advances(tokens, i, leading_expr(source_text(tokens.skip(i))));
    }
}

/// The segments that `tokens` spell, or the first error.
pub open spec fn parsed(tokens: Seq<TokenView>) -> Result<Seq<SegmentView>, BitSeqError> {
    segments_from(tokens, 0)
}

} // verus!
