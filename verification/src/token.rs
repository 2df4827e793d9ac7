//! The tokens of a bit-sequence specification, held as plain values.

use crate::syntax::{
    int_literal, is_ident, is_int_literal, lex, lexed, lexeme_views, plain_ident, Lexeme,
    LexemeView,
};
use vstd::prelude::*;
use vstd::string::*;

verus! {

/// One token of a specification.
#[derive(Clone, Debug, PartialEq, Eq)]
pub enum Token {
    /// An identifier that is no keyword, with its name.
    Ident(String),
    /// An integer literal without a sign, with its text as written.
    Int(String),
    /// A punctuation mark, and whether the next mark follows it directly.
    Punct(char, bool),
    /// Any other token tree, with its text: a keyword, a literal that is no
    /// integer, a delimited group.
    Other(String),
}

/// The mathematical content of a [`Token`].
pub enum TokenView {
    Ident(Seq<char>),
    Int(Seq<char>),
    Punct(char, bool),
    Other(Seq<char>),
}

impl View for Token {
    type V = TokenView;

    open spec fn view(&self) -> TokenView {
        match self {
            Token::Ident(name) => TokenView::Ident(name@),
            Token::Int(text) => TokenView::Int(text@),
            Token::Punct(mark, joint) => TokenView::Punct(*mark, *joint),
            Token::Other(text) => TokenView::Other(text@),
        }
    }
}

impl TokenView {
    /// The characters that the token is written with.
    pub open spec fn text(self) -> Seq<char> {
        match self {
            TokenView::Ident(name) => name,
            TokenView::Int(text) => text,
            TokenView::Punct(mark, _) => seq![mark],
            TokenView::Other(text) => text,
        }
    }

    /// Whether the token is a mark that the next mark follows directly, so
    /// that no blank may be written after it.
    pub open spec fn joint(self) -> bool {
        self matches TokenView::Punct(_, true)
    }

    /// Whether the token is the mark `mark`.
    pub open spec fn is_mark(self, mark: char) -> bool {
        self matches TokenView::Punct(m, _) && m == mark
    }
}

/// The views of a sequence of tokens, one for one.
pub open spec fn views(tokens: Seq<Token>) -> Seq<TokenView> {
    tokens.map_values(|t: Token| t@)
}

/// The token that a lexeme is, given whether its text is a plain identifier
/// (`plain`) and whether it is an integer literal (`integer`).
pub open spec fn classified(lexeme: LexemeView, plain: bool, integer: bool) -> TokenView {
    match lexeme {
        LexemeView::Ident(name) => if plain {
            TokenView::Ident(name)
        } else {
            TokenView::Other(name)
        },
        LexemeView::Literal(text) => if integer {
            TokenView::Int(text)
        } else {
            TokenView::Other(text)
        },
        LexemeView::Punct(mark, joint) => TokenView::Punct(mark, joint),
        LexemeView::Group(text) => TokenView::Other(text),
    }
}

/// The token that a lexeme is.
pub open spec fn token_of(lexeme: LexemeView) -> TokenView {
    match lexeme {
        LexemeView::Ident(name) => classified(lexeme, plain_ident(name), false),
        LexemeView::Literal(text) => classified(lexeme, false, int_literal(text)),
        _ => classified(lexeme, false, false),
    }
}

/// The tokens of the text `source`, or `None` where it cannot be split into
/// tokens.
pub open spec fn tokenized(source: Seq<char>) -> Option<Seq<TokenView>> {
    match lexed(source) {
        Some(lexemes) => Some(lexemes.map_values(|l: LexemeView| token_of(l))),
        None => None,
    }
}

/// The source text of a run of tokens: their texts in order, with one blank
/// between two neighbours unless the first is a joint mark.
pub open spec fn source_text(tokens: Seq<TokenView>) -> Seq<char>
    decreases tokens.len(),
{
    if tokens.len() == 0 {
        Seq::empty()
    } else if tokens.len() == 1 {
        tokens[0].text()
    } else {
        let front = tokens.drop_last();
        let gap = if front.last().joint() {
            Seq::<char>::empty()
        } else {
            seq![' ']
        };
        source_text(front) + gap + tokens.last().text()
    }
}

/// `String::push` appends one character. Assumed from its documentation.
pub assume_specification[ String::push ](text: &mut String, c: char)
    ensures
        final(text)@ == old(text)@.push(c),
;

impl Token {
    /// The token that `lexeme` is, given whether its text is a plain
    /// identifier and whether it is an integer literal.
    pub fn classified(lexeme: &Lexeme, plain: bool, integer: bool) -> (r: Token)
        ensures
            r@ == classified(lexeme@, plain, integer),
    {
        match lexeme {
            Lexeme::Ident(name) => if plain {
                Token::Ident(name.clone())
            } else {
                Token::Other(name.clone())
            },
            Lexeme::Literal(text) => if integer {
                Token::Int(text.clone())
            } else {
                Token::Other(text.clone())
            },
            Lexeme::Punct(mark, joint) => Token::Punct(*mark, *joint),
            Lexeme::Group(text) => Token::Other(text.clone()),
        }
    }

    /// The token that `lexeme` is.
    pub fn of(lexeme: &Lexeme) -> (r: Token)
        ensures
            r@ == token_of(lexeme@),
    {
        match lexeme {
            Lexeme::Ident(name) => Token::classified(lexeme, is_ident(name.as_str()), false),
            Lexeme::Literal(text) => Token::classified(lexeme, false, is_int_literal(text.as_str())),
            _ => Token::classified(lexeme, false, false),
        }
    }

    /// Whether the token is the mark `mark`.
    pub fn is_mark(&self, mark: char) -> (r: bool)
        ensures
            r == self@.is_mark(mark),
    {
        match self {
            Token::Punct(m, _) => *m == mark,
            _ => false,
        }
    }

    /// Whether the token is a mark that the next mark follows directly.
    pub fn is_joint(&self) -> (r: bool)
        ensures
            r == self@.joint(),
    {
        match self {
            Token::Punct(_, joint) => *joint,
            _ => false,
        }
    }

    /// Appends the token's text to `out`.
    pub fn write_to(&self, out: &mut String)
        ensures
            final(out)@ == old(out)@ + self@.text(),
    {
        match self {
            Token::Ident(name) => out.append(name.as_str()),
            Token::Int(text) => out.append(text.as_str()),
            Token::Punct(mark, _) => {
                out.push(*mark);
                assert(old(out)@.push(*mark) =~= old(out)@ + seq![*mark]);
            },
            Token::Other(text) => out.append(text.as_str()),
        }
    }
}

/// Splits `source` into tokens.
pub fn tokenize(source: &str) -> (r: Option<Vec<Token>>)
    ensures
        match r {
            Some(tokens) => tokenized(source@) == Some(views(tokens@)),
            None => tokenized(source@) is None,
        },
{
    match lex(source) {
        None => None,
        Some(lexemes) => {
            let mut tokens: Vec<Token> = Vec::new();
            let mut k: usize = 0;
            let ghost all = lexeme_views(lexemes@);
            while k < lexemes.len()
                invariant
                    k <= lexemes.len(),
                    all == lexeme_views(lexemes@),
                    tokens.len() == k,
                    forall|j: int| 0 <= j < k ==> (#[trigger] tokens@[j])@ == token_of(all[j]),
                decreases lexemes.len() - k,
            {
                let token = Token::of(&lexemes[k]);
                tokens.push(token);
                k += 1;
            }
            assert(views(tokens@) =~= all.map_values(|l: LexemeView| token_of(l)));
            Some(tokens)
        },
    }
}

/// Writes out the source text of `tokens[from..to]`.
pub fn render(tokens: &Vec<Token>, from: usize, to: usize) -> (r: String)
    requires
        from <= to <= tokens.len(),
    ensures
        r@ == source_text(views(tokens@).subrange(from as int, to as int)),
{
    let mut out = String::new();
    let mut k: usize = from;
    let ghost all = views(tokens@);
    assert(all.subrange(from as int, from as int) =~= Seq::<TokenView>::empty());
    while k < to
        invariant
            from <= k <= to <= tokens.len(),
            all == views(tokens@),
            out@ == source_text(all.subrange(from as int, k as int)),
        decreases to - k,
    {
        let ghost before = all.subrange(from as int, k as int);
        let ghost after = all.subrange(from as int, k + 1);
        assert(after.drop_last() =~= before);
        assert(after.last() == tokens[k as int]@);
        if k > from {
            assert(before.last() == tokens[k - 1]@);
            if !tokens[k - 1].is_joint() {
                out.push(' ');
            }
            assert(out@ =~= source_text(before) + (if before.last().joint() {
                Seq::<char>::empty()
            } else {
                seq![' ']
            }));
        } else {
            assert(before.len() == 0);
            assert(out@ =~= Seq::<char>::empty());
        }
        tokens[k].write_to(&mut out);
        k += 1;
    }
    out
}

} // verus!
