//! What this library takes from `proc_macro2` and `syn`: the token trees of
//! a text, the tests for an identifier and for an integer literal, the
//! expression at the front of a text and the number that a literal denotes.
//! None of it is proved here; each function says what it assumes.

use vstd::prelude::*;

verus! {

/// One token tree of a text, as `proc_macro2` hands it out.
#[derive(Clone, Debug, PartialEq, Eq)]
pub enum Lexeme {
    /// An identifier or a keyword, with its name.
    Ident(String),
    /// A literal, with its text as written.
    Literal(String),
    /// A punctuation mark, and whether the next mark follows it directly.
    Punct(char, bool),
    /// A delimited group, with its text including the delimiters.
    Group(String),
}

/// The mathematical content of a [`Lexeme`].
pub enum LexemeView {
    Ident(Seq<char>),
    Literal(Seq<char>),
    Punct(char, bool),
    Group(Seq<char>),
}

impl View for Lexeme {
    type V = LexemeView;

    open spec fn view(&self) -> LexemeView {
        match self {
            Lexeme::Ident(name) => LexemeView::Ident(name@),
            Lexeme::Literal(text) => LexemeView::Literal(text@),
            Lexeme::Punct(mark, joint) => LexemeView::Punct(*mark, *joint),
            Lexeme::Group(text) => LexemeView::Group(text@),
        }
    }
}

/// The views of a sequence of lexemes, one for one.
pub open spec fn lexeme_views(lexemes: Seq<Lexeme>) -> Seq<LexemeView> {
    lexemes.map_values(|l: Lexeme| l@)
}

/// What `syn` finds at the front of a text that starts with an expression.
#[derive(Clone, Copy, PartialEq, Eq, Structural, Debug)]
pub struct LeadingExpr {
    /// Whether the expression is a unary operator applied to an operand:
    /// `!`, `-` or `*`.
    pub unary: bool,
    /// The number of token trees that follow the expression.
    pub rest: usize,
}

/// The token trees into which `proc_macro2`'s own lexer splits `source`, each
/// with the text that `proc_macro2`'s own printers give it, or `None` where
/// the lexer refuses the text. The name stands for the lexer and for the
/// printers of identifiers, literals, marks and groups together.
pub uninterp spec fn lexed(source: Seq<char>) -> Option<Seq<LexemeView>>;

/// Whether `syn` reads the whole of `text`, split by `proc_macro2`'s own
/// lexer, as one identifier that is no keyword.
pub uninterp spec fn plain_ident(text: Seq<char>) -> bool;

/// Whether `syn` reads the whole of `text`, split by `proc_macro2`'s own
/// lexer, as one integer literal.
pub uninterp spec fn int_literal(text: Seq<char>) -> bool;

/// The expression that `syn` reads from the front of `source`, split by
/// `proc_macro2`'s own lexer, or `None` where the text does not start with
/// one.
pub uninterp spec fn leading_expr(source: Seq<char>) -> Option<LeadingExpr>;

/// The number that `syn` reads from the integer literal `text`, or `None`
/// where `text` is no integer literal or its number is negative or needs more
/// than 64 bits. The name stands for two calls together: the one that reads
/// the literal from the text and the one that reads the number from the
/// literal.
pub uninterp spec fn literal_number(text: Seq<char>) -> Option<u64>;

/// Splits `source` into token trees with `proc_macro2::TokenStream::from_str`
/// and copies each tree into a [`Lexeme`]: an identifier's name, a literal's
/// text, a mark with its spacing, a group's text, each as `to_string` gives
/// it. `proc_macro2::fallback::force` pins the crate's own lexer and printers
/// for the call, so that the compiler's are never used; `unforce` lifts the
/// pin. Assumed: with the pin the result is a function of the text alone.
#[verifier::external_body]
pub(crate) fn lex(source: &str) -> (r: Option<Vec<Lexeme>>)
    ensures
        match r {
            Some(lexemes) => lexed(source@) == Some(lexeme_views(lexemes@)),
            None => lexed(source@) is None,
        },
{
    proc_macro2::fallback::force();
    let stream = source.parse::<proc_macro2::TokenStream>().ok();
    let lexemes = stream.map(|trees| trees.into_iter().map(|tree| match tree {
        proc_macro2::TokenTree::Ident(ident) => Lexeme::Ident(ident.to_string()),
        proc_macro2::TokenTree::Literal(literal) => Lexeme::Literal(literal.to_string()),
        proc_macro2::TokenTree::Punct(mark) => Lexeme::Punct(
            mark.as_char(),
            mark.spacing() == proc_macro2::Spacing::Joint,
        ),
        proc_macro2::TokenTree::Group(group) => Lexeme::Group(group.to_string()),
    }).collect());
    proc_macro2::fallback::unforce();
    lexemes
}

/// Asks `syn::parse_str::<syn::Ident>` whether `text` is one identifier; it
/// refuses `_` and the keywords. The lexer is pinned as in [`lex`]. Assumed:
/// with the pin the answer is a function of the text alone.
#[verifier::external_body]
pub(crate) fn is_ident(text: &str) -> (r: bool)
    ensures
        r == plain_ident(text@),
{
    proc_macro2::fallback::force();
    let found = syn::parse_str::<syn::Ident>(text).is_ok();
    proc_macro2::fallback::unforce();
    found
}

/// Asks `syn::parse_str::<syn::LitInt>` whether `text` is one integer
/// literal. The lexer is pinned as in [`lex`]. Assumed: with the pin the
/// answer is a function of the text alone.
#[verifier::external_body]
pub(crate) fn is_int_literal(text: &str) -> (r: bool)
    ensures
        r == int_literal(text@),
{
    proc_macro2::fallback::force();
    let found = syn::parse_str::<syn::LitInt>(text).is_ok();
    proc_macro2::fallback::unforce();
    found
}

/// Runs `syn`'s parser for `syn::Expr` on the front of `source` and reports
/// whether the expression is `syn::Expr::Unary` and how many token trees are
/// left behind it. The lexer is pinned as in [`lex`]. Assumed: with the pin
/// the result is a function of the text alone.
#[verifier::external_body]
pub(crate) fn parse_leading_expr(source: &str) -> (r: Option<LeadingExpr>)
    ensures
        r == leading_expr(source@),
{
    let front = |input: syn::parse::ParseStream| -> syn::Result<LeadingExpr> {
        let expr = input.parse::<syn::Expr>()?;
        let rest = input.parse::<proc_macro2::TokenStream>()?;
        Ok(LeadingExpr {
            unary: matches!(expr, syn::Expr::Unary(_)),
            rest: rest.into_iter().count(),
        })
    };
    proc_macro2::fallback::force();
    let found = syn::parse::Parser::parse_str(front, source).ok();
    proc_macro2::fallback::unforce();
    found
}

/// Reads the integer literal `text` with `syn::parse_str::<syn::LitInt>` and
/// its number with `syn::LitInt::base10_parse::<u64>`. The lexer is pinned as
/// in [`lex`]. Assumed: with the pin the result is a function of the text
/// alone.
#[verifier::external_body]
pub(crate) fn parse_literal_number(text: &str) -> (r: Option<u64>)
    ensures
        r == literal_number(text@),
{
    proc_macro2::fallback::force();
    let literal = syn::parse_str::<syn::LitInt>(text).ok();
    proc_macro2::fallback::unforce();
    literal.and_then(|l| l.base10_parse::<u64>().ok())
}

} // verus!
