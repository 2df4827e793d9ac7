//! The segments of a bit sequence and the parser that reads them from tokens.

use crate::error::{BitSeqError, ErrorKind};
use crate::grammar::{
    bare_literal, ident_at, int_literal_at, parsed, prepend, segment_given, segments_from,
    sized_literal_at, unary_end, value_segment, width_at,
};
use crate::syntax::{leading_expr, parse_leading_expr, LeadingExpr};
use crate::token::{render, source_text, views, Token};
use crate::word::{is_bit, saturated};
use vstd::prelude::*;
use vstd::string::*;

verus! {

/// The width of a value segment, before it is resolved to a number.
#[derive(Clone, Debug, PartialEq, Eq)]
pub enum Width {
    /// The literal written after `:`, with the index of its first token.
    Written(String, usize),
    /// A width that the parser worked out itself.
    Derived(usize),
}

/// The mathematical content of a [`Width`].
pub enum WidthView {
    Written(Seq<char>, usize),
    Derived(usize),
}

impl View for Width {
    type V = WidthView;

    open spec fn view(&self) -> WidthView {
        match self {
            Width::Written(text, at) => WidthView::Written(text@, *at),
            Width::Derived(bits) => WidthView::Derived(*bits),
        }
    }
}

/// One segment of a bit sequence.
#[derive(Clone, Debug, PartialEq, Eq)]
pub enum BitSegment {
    /// A pattern of the digits `0` and `1`; its width is the number of digits.
    Bits(String),
    /// The source text of a value expression, and the number of its low
    /// bits that the segment takes.
    Expr(String, Width),
}

/// The mathematical content of a [`BitSegment`].
pub enum SegmentView {
    Bits(Seq<char>),
    Expr(Seq<char>, WidthView),
}

impl View for BitSegment {
    type V = SegmentView;

    open spec fn view(&self) -> SegmentView {
        match self {
            BitSegment::Bits(pattern) => SegmentView::Bits(pattern@),
            BitSegment::Expr(expr, width) => SegmentView::Expr(expr@, width@),
        }
    }
}

/// The segments of a specification, the most significant first.
#[derive(Clone, Debug, PartialEq, Eq)]
pub struct BitSeqInput {
    bit_segments: Vec<BitSegment>,
}

impl View for BitSeqInput {
    type V = Seq<SegmentView>;

    closed spec fn view(&self) -> Seq<SegmentView> {
        self.bit_segments@.map_values(|s: BitSegment| s@)
    }
}

/// Whether `c` is a digit of base 16.
pub open spec fn is_hex_digit(c: char) -> bool {
    ('0' <= c && c <= '9') || ('a' <= c && c <= 'f') || ('A' <= c && c <= 'F')
}

/// The digits of a hexadecimal literal whose text after `0x` is `tail`: the
/// digits of the leading run of digits and `_`, which ends where a suffix
/// begins.
pub open spec fn hex_digits(tail: Seq<char>) -> Seq<char>
    decreases tail.len(),
{
    if tail.len() == 0 {
        Seq::empty()
    } else if is_hex_digit(tail[0]) {
        seq![tail[0]] + hex_digits(tail.drop_first())
    } else if tail[0] == '_' {
        hex_digits(tail.drop_first())
    } else {
        Seq::empty()
    }
}

/// Whether `text` starts with the prefix `0x`.
pub open spec fn has_hex_prefix(text: Seq<char>) -> bool {
    text.len() >= 2 && text[0] == '0' && text[1] == 'x'
}

/// Whether every character of `text` is `0` or `1`.
pub open spec fn is_bit_pattern(text: Seq<char>) -> bool {
    forall|i: int| 0 <= i < text.len() ==> is_bit(#[trigger] text[i])
}

/// What a bare integer literal with the text `text` stands for: a value of
/// four bits per digit where it is hexadecimal, else a bit pattern where it
/// has no digit but `0` and `1`. A minus sign is refused, and so is any other
/// number.
pub open spec fn classify(text: Seq<char>) -> Result<SegmentView, ErrorKind> {
    if text.len() > 0 && text[0] == '-' {
        Err(ErrorKind::NegativeLiteral)
    } else if has_hex_prefix(text) {
        Ok(
            SegmentView::Expr(
                text,
                WidthView::Derived(saturated(4 * hex_digits(text.skip(2)).len())),
            ),
        )
    } else if is_bit_pattern(text) {
        Ok(SegmentView::Bits(text))
    } else {
        Err(ErrorKind::NotBitSequence)
    }
}

/// Counts the digits of a hexadecimal literal.
fn count_hex_digits(text: &str) -> (r: usize)
    requires
        has_hex_prefix(text@),
    ensures
        r == hex_digits(text@.skip(2)).len(),
{
    let n: usize = text.unicode_len();
    let mut count: usize = 0;
    let mut i: usize = 2;
    while i < n
        invariant
            n == text@.len(),
            2 <= i <= n,
            count <= i - 2,
            hex_digits(text@.skip(2)).len() == count + hex_digits(text@.skip(i as int)).len(),
        decreases n - i,
    {
        let c = text.get_char(i);
        assert(text@.skip(i as int).drop_first() =~= text@.skip(i + 1));
        assert(text@.skip(i as int)[0] == c);
        if ('0' <= c && c <= '9') || ('a' <= c && c <= 'f') || ('A' <= c && c <= 'F') {
            count += 1;
        } else if c != '_' {
            return count;
        }
        i += 1;
    }
    count
}

/// Whether every character of `text` is `0` or `1`.
fn all_bits(text: &str) -> (r: bool)
    ensures
        r == is_bit_pattern(text@),
{
    let n: usize = text.unicode_len();
    let mut i: usize = 0;
    while i < n
        invariant
            n == text@.len(),
            i <= n,
            forall|j: int| 0 <= j < i ==> is_bit(#[trigger] text@[j]),
        decreases n - i,
    {
        let c = text.get_char(i);
        if !(c == '0' || c == '1') {
            return false;
        }
        i += 1;
    }
    true
}

/// Decides what the bare integer literal `text`, found at token `position`,
/// stands for.
pub fn classify_literal(text: String, position: usize) -> (r: Result<BitSegment, BitSeqError>)
    ensures
        match r {
            Ok(segment) => classify(text@) == Ok::<SegmentView, ErrorKind>(segment@),
            Err(e) => classify(text@) == Err::<SegmentView, ErrorKind>(e.kind) && e.position
                == position,
        },
{
    let n: usize = text.as_str().unicode_len();
    if n > 0 && text.as_str().get_char(0) == '-' {
        return Err(BitSeqError { kind: ErrorKind::NegativeLiteral, position });
    }
    if n >= 2 && text.as_str().get_char(0) == '0' && text.as_str().get_char(1) == 'x' {
        let digits = count_hex_digits(text.as_str());
        let bits: usize = if digits > usize::MAX / 4 {
            usize::MAX
        } else {
            4 * digits
        };
        return Ok(BitSegment::Expr(text, Width::Derived(bits)));
    }
    if !all_bits(text.as_str()) {
        return Err(BitSeqError { kind: ErrorKind::NotBitSequence, position });
    }
    Ok(BitSegment::Bits(text))
}

/// The views of a sequence of segments, one for one.
pub open spec fn segment_views(segments: Seq<BitSegment>) -> Seq<SegmentView> {
    segments.map_values(|s: BitSegment| s@)
}

impl BitSeqInput {
    /// The segments, the most significant first.
    pub fn segments(&self) -> (r: &Vec<BitSegment>)
        ensures
            segment_views(r@) == self@,
    {
        &self.bit_segments
    }

    /// Reads the integer literal that starts at token `at`.
    fn literal_at(tokens: &Vec<Token>, at: usize) -> (r: Option<(String, usize)>)
        ensures
            match r {
                Some((text, taken)) => int_literal_at(views(tokens@), at as int) == Some(
                    (text@, taken as int),
                ) && at + taken <= tokens.len(),
                None => int_literal_at(views(tokens@), at as int) is None,
            },
    {
        if at >= tokens.len() {
            return None;
        }
        match &tokens[at] {
            Token::Int(text) => Some((text.clone(), 1)),
            Token::Punct(mark, _) => {
                if *mark == '-' && at + 1 < tokens.len() {
                    match &tokens[at + 1] {
                        Token::Int(text) => {
                            let mut signed = String::new();
                            signed.push('-');
                            signed.append(text.as_str());
                            assert(signed@ =~= seq!['-'] + text@);
                            Some((signed, 2))
                        },
                        _ => None,
                    }
                } else {
                    None
                }
            },
            _ => None,
        }
    }

    /// Reads the width that is written at token `at`: a `:` and an integer
    /// literal.
    fn parse_length_definition(tokens: &Vec<Token>, at: usize) -> (r: Result<
        (Width, usize),
        BitSeqError,
    >)
        ensures
            match r {
                Ok((width, next)) => width_at(views(tokens@), at as int) == Ok::<
                    (WidthView, int),
                    BitSeqError,
                >((width@, next as int)) && at < next <= tokens.len(),
                Err(e) => width_at(views(tokens@), at as int) == Err::<(WidthView, int), BitSeqError>(
                    e,
                ),
            },
    {
        if at >= tokens.len() || !tokens[at].is_mark(':') {
            return Err(BitSeqError { kind: ErrorKind::MissingSeparator, position: at });
        }
        match Self::literal_at(tokens, at + 1) {
            Some((text, taken)) => Ok((Width::Written(text, at + 1), at + 1 + taken)),
            None => Err(BitSeqError { kind: ErrorKind::MissingWidth, position: at + 1 }),
        }
    }

    /// Looks ahead from token `at` for an expression: hands the source text
    /// of the tokens from `at` on to the expression parser.
    fn peek_expr_with_token(tokens: &Vec<Token>, at: usize) -> (r: Option<LeadingExpr>)
        requires
            at <= tokens.len(),
        ensures
            r == leading_expr(source_text(views(tokens@).skip(at as int))),
    {
        let n: usize = tokens.len();
        let tail = render(tokens, at, n);
        assert(views(tokens@).subrange(at as int, n as int) =~= views(tokens@).skip(at as int));
        parse_leading_expr(tail.as_str())
    }

    /// Decides from what was found at the front of the tokens from `at` on
    /// whether a bitwise not or a negation with a `:` behind it starts at
    /// `at`, and returns the index of that `:`. No other unary operator
    /// starts a segment.
    pub fn unary_end(tokens: &Vec<Token>, at: usize, found: Option<LeadingExpr>) -> (r: Option<
        usize,
    >)
        ensures
            match r {
                Some(end) => unary_end(views(tokens@), at as int, found) == Some(end as int) && at
                    < end < tokens.len(),
                None => unary_end(views(tokens@), at as int, found) is None,
            },
    {
        let n: usize = tokens.len();
        match found {
            Some(expr) => {
                if at < n && (tokens[at].is_mark('!') || tokens[at].is_mark('-')) && expr.unary
                    && 0 < expr.rest && expr.rest < n - at {
                    let end: usize = n - expr.rest;
                    if tokens[end].is_mark(':') {
                        Some(end)
                    } else {
                        None
                    }
                } else {
                    None
                }
            },
            None => None,
        }
    }

    /// Reads the width behind the expression `expr` and joins the two.
    fn sized(tokens: &Vec<Token>, expr: String, colon: usize) -> (r: Result<
        (BitSegment, usize),
        BitSeqError,
    >)
        ensures
            match r {
                Ok((segment, next)) => value_segment(views(tokens@), expr@, colon as int) == Ok::<
                    (SegmentView, int),
                    BitSeqError,
                >((segment@, next as int)) && colon < next <= tokens.len(),
                Err(e) => value_segment(views(tokens@), expr@, colon as int) == Err::<
                    (SegmentView, int),
                    BitSeqError,
                >(e),
            },
    {
        match Self::parse_length_definition(tokens, colon) {
            Ok((width, next)) => Ok((BitSegment::Expr(expr, width), next)),
            Err(e) => Err(e),
        }
    }

    /// Reads the unary expression in `tokens[at..end]` and the width behind
    /// it.
    fn parse_unary(tokens: &Vec<Token>, at: usize, end: usize) -> (r: Result<
        (BitSegment, usize),
        BitSeqError,
    >)
        requires
            at < end < tokens.len(),
        ensures
            match r {
                Ok((segment, next)) => value_segment(
                    views(tokens@),
                    source_text(views(tokens@).subrange(at as int, end as int)),
                    end as int,
                ) == Ok::<(SegmentView, int), BitSeqError>((segment@, next as int)) && end < next
                    <= tokens.len(),
                Err(e) => value_segment(
                    views(tokens@),
                    source_text(views(tokens@).subrange(at as int, end as int)),
                    end as int,
                ) == Err::<(SegmentView, int), BitSeqError>(e),
            },
    {
        let expr = render(tokens, at, end);
        Self::sized(tokens, expr, end)
    }

    /// Reads an identifier or an integer literal at token `at` and the width
    /// behind it.
    fn parse_expr(tokens: &Vec<Token>, at: usize) -> (r: Result<(BitSegment, usize), BitSeqError>)
        requires
            at < tokens.len(),
        ensures
            match r {
                Ok((segment, next)) => value_segment(
                    views(tokens@),
                    views(tokens@)[at as int].text(),
                    at + 1,
                ) == Ok::<(SegmentView, int), BitSeqError>((segment@, next as int)) && at < next
                    <= tokens.len(),
                Err(e) => value_segment(views(tokens@), views(tokens@)[at as int].text(), at + 1)
                    == Err::<(SegmentView, int), BitSeqError>(e),
            },
    {
        let mut expr = String::new();
        tokens[at].write_to(&mut expr);
        assert(expr@ =~= views(tokens@)[at as int].text());
        Self::sized(tokens, expr, at + 1)
    }

    /// Reads a bare integer literal at token `at`.
    fn parse_bits(tokens: &Vec<Token>, at: usize) -> (r: Result<(BitSegment, usize), BitSeqError>)
        ensures
            match r {
                Ok((segment, next)) => bare_literal(views(tokens@), at as int) == Ok::<
                    (SegmentView, int),
                    BitSeqError,
                >((segment@, next as int)) && at < next <= tokens.len(),
                Err(e) => bare_literal(views(tokens@), at as int) == Err::<
                    (SegmentView, int),
                    BitSeqError,
                >(e),
            },
    {
        match Self::literal_at(tokens, at) {
            Some((text, taken)) => match classify_literal(text, at) {
                Ok(segment) => Ok((segment, at + taken)),
                Err(e) => Err(e),
            },
            None => Err(BitSeqError { kind: ErrorKind::UnrecognizedSegment, position: at }),
        }
    }

    /// Whether token `at` is an identifier.
    fn peek_ident(tokens: &Vec<Token>, at: usize) -> (r: bool)
        ensures
            r == ident_at(views(tokens@), at as int),
    {
        at < tokens.len() && matches!(tokens[at], Token::Ident(_))
    }

    /// Whether an integer literal starts at token `at` and a `:` is the
    /// token after `at`.
    fn peek_sized_literal(tokens: &Vec<Token>, at: usize) -> (r: bool)
        ensures
            r == sized_literal_at(views(tokens@), at as int),
    {
        at < tokens.len() && at + 1 < tokens.len() && tokens[at + 1].is_mark(':')
            && Self::literal_at(tokens, at).is_some()
    }

    /// Reads the segment that starts at token `at`, given what was found at
    /// the front of the tokens from `at` on. The forms are tried in the
    /// grammar's order.
    pub fn segment_with(tokens: &Vec<Token>, at: usize, found: Option<LeadingExpr>) -> (r: Result<
        (BitSegment, usize),
        BitSeqError,
    >)
        ensures
            match r {
                Ok((segment, next)) => segment_given(views(tokens@), at as int, found) == Ok::<
                    (SegmentView, int),
                    BitSeqError,
                >((segment@, next as int)) && at < next <= tokens.len(),
                Err(e) => segment_given(views(tokens@), at as int, found) == Err::<
                    (SegmentView, int),
                    BitSeqError,
                >(e),
            },
    {
        if let Some(end) = Self::unary_end(tokens, at, found) {
            Self::parse_unary(tokens, at, end)
        } else if Self::peek_ident(tokens, at) || Self::peek_sized_literal(tokens, at) {
            Self::parse_expr(tokens, at)
        } else {
            Self::parse_bits(tokens, at)
        }
    }

    /// Reads a whole specification: segment after segment until the tokens
    /// end, stopping at the first error.
    pub fn parse(tokens: &Vec<Token>) -> (r: Result<BitSeqInput, BitSeqError>)
        ensures
            match r {
                Ok(input) => parsed(views(tokens@)) == Ok::<Seq<SegmentView>, BitSeqError>(input@),
                Err(e) => parsed(views(tokens@)) == Err::<Seq<SegmentView>, BitSeqError>(e),
            },
    {
        let mut bit_segments: Vec<BitSegment> = Vec::new();
        let mut at: usize = 0;
        let ghost all = views(tokens@);
        assert(segment_views(bit_segments@) =~= Seq::<SegmentView>::empty());
        assert(prepend(Seq::<SegmentView>::empty(), segments_from(all, 0)) == segments_from(all, 0))
            by {
            if let Ok(more) = segments_from(all, 0) {
                assert(Seq::<SegmentView>::empty() + more =~= more);
            }
        }
        while at < tokens.len()
            invariant
                at <= tokens.len(),
                all == views(tokens@),
                parsed(all) == prepend(segment_views(bit_segments@), segments_from(all, at as int)),
            decreases tokens.len() - at,
        {
            let ghost before = segment_views(bit_segments@);
            let found = Self::peek_expr_with_token(tokens, at);
            match Self::segment_with(tokens, at, found) {
                Ok((segment, next)) => {
                    proof {
                        let rest = segments_from(all, next as int);
                        assert(segments_from(all, at as int) == prepend(seq![segment@], rest));
                        if let Ok(more) = rest {
                            assert(before + (seq![segment@] + more) =~= before.push(segment@) + more);
                        }
                    }
                    bit_segments.push(segment);
                    assert(segment_views(bit_segments@) =~= before.push(segment@));
                    at = next;
                },
                Err(e) => {
                    return Err(e);
                },
            }
        }
        assert(prepend(segment_views(bit_segments@), segments_from(all, at as int)) == Ok::<
            Seq<SegmentView>,
            BitSeqError,
        >(segment_views(bit_segments@))) by {
            assert(segment_views(bit_segments@) + Seq::<SegmentView>::empty() =~= segment_views(
                bit_segments@,
            ));
        }
        Ok(BitSeqInput { bit_segments })
    }
}

} // verus!
