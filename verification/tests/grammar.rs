use bit_seq::bit_seq_input::{classify_literal, BitSegment, BitSeqInput, Width};
use bit_seq::bseq;
use bit_seq::error::{BitSeqError, ErrorKind};
use bit_seq::syntax::{LeadingExpr, Lexeme};
use bit_seq::token::{render, tokenize, Token};

fn segments_of(spec: &str) -> Vec<BitSegment> {
    let tokens = tokenize(spec).unwrap();
    BitSeqInput::parse(&tokens).unwrap().segments().clone()
}

fn refusal(spec: &str) -> BitSeqError {
    bseq(spec).unwrap_err()
}

fn bits(pattern: &str) -> BitSegment {
    BitSegment::Bits(pattern.to_string())
}

fn written(expr: &str, width: &str, at: usize) -> BitSegment {
    BitSegment::Expr(expr.to_string(), Width::Written(width.to_string(), at))
}

fn derived(expr: &str, width: usize) -> BitSegment {
    BitSegment::Expr(expr.to_string(), Width::Derived(width))
}

#[test]
fn tokenize_classifies_each_token() {
    assert_eq!(
        tokenize("foo:5").unwrap(),
        vec![
            Token::Ident("foo".to_string()),
            Token::Punct(':', false),
            Token::Int("5".to_string()),
        ]
    );
    assert_eq!(
        tokenize("self 1.5 \"s\" (a) _").unwrap(),
        vec![
            Token::Other("self".to_string()),
            Token::Other("1.5".to_string()),
            Token::Other("\"s\"".to_string()),
            Token::Other("(a)".to_string()),
            Token::Other("_".to_string()),
        ]
    );
    assert_eq!(
        tokenize("a::b").unwrap(),
        vec![
            Token::Ident("a".to_string()),
            Token::Punct(':', true),
            Token::Punct(':', false),
            Token::Ident("b".to_string()),
        ]
    );
    assert_eq!(tokenize("0x1f 0b11 12u8").unwrap().len(), 3);
    assert_eq!(tokenize("").unwrap(), vec![]);
}

#[test]
fn tokenize_refuses_unbalanced_text() {
    assert_eq!(tokenize("(1"), None);
    assert_eq!(tokenize("\"open"), None);
}

#[test]
fn render_joins_tokens_as_written() {
    let tokens = tokenize("- a::b : 8").unwrap();
    assert_eq!(render(&tokens, 0, tokens.len()), "- a :: b : 8");
    assert_eq!(render(&tokens, 1, 5), "a :: b");
    assert_eq!(render(&tokens, 2, 2), "");
}

#[test]
fn parse_reads_every_form() {
    assert_eq!(
        segments_of("0110 0x1f var:5 3:2 -var:8 !0:6"),
        vec![
            bits("0110"),
            derived("0x1f", 8),
            written("var", "5", 4),
            written("3", "2", 7),
            written("- var", "8", 11),
            written("! 0", "6", 15),
        ]
    );
    assert_eq!(segments_of(""), vec![]);
}

#[test]
fn parse_takes_the_whole_unary_expression() {
    assert_eq!(segments_of("-a::b:8"), vec![written("- a :: b", "8", 6)]);
    assert_eq!(segments_of("-(a+b):8"), vec![written("- (a + b)", "8", 3)]);
    assert_eq!(segments_of("!x.y:3"), vec![written("! x . y", "3", 5)]);
    assert_eq!(segments_of("-1:8"), vec![written("- 1", "8", 3)]);
    assert_eq!(segments_of("0101 -a:8"), vec![bits("0101"), written("- a", "8", 4)]);
}

#[test]
fn unary_operand_may_be_any_expression() {
    assert_eq!(segments_of("-{ x }:8"), vec![written("- { x }", "8", 3)]);
    assert_eq!(
        segments_of("!if a { 1 } else { 2 }:3 01"),
        vec![written("! if a { 1 } else { 2 }", "3", 7), bits("01")]
    );
    assert_eq!(segments_of("-f(1, 2):4"), vec![written("- f (1 , 2)", "4", 4)]);
}

#[test]
fn hex_width_counts_digits_only() {
    assert_eq!(segments_of("0x0"), vec![derived("0x0", 4)]);
    assert_eq!(segments_of("0xffff"), vec![derived("0xffff", 16)]);
    assert_eq!(segments_of("0xAb"), vec![derived("0xAb", 8)]);
    assert_eq!(segments_of("0xfffffffffffu64"), vec![derived("0xfffffffffffu64", 44)]);
    assert_eq!(segments_of("0xff_ff"), vec![derived("0xff_ff", 16)]);
}

#[test]
fn hex_with_width_keeps_the_written_width() {
    assert_eq!(segments_of("0x1:4"), vec![written("0x1", "4", 2)]);
    assert_eq!(segments_of("0x0f:0x10"), vec![written("0x0f", "0x10", 2)]);
}

#[test]
fn missing_separator_is_refused() {
    assert_eq!(refusal("foo"), BitSeqError { kind: ErrorKind::MissingSeparator, position: 1 });
    assert_eq!(refusal("101 foo 11"), BitSeqError { kind: ErrorKind::MissingSeparator, position: 2 });
}

#[test]
fn missing_width_is_refused() {
    assert_eq!(refusal("foo:"), BitSeqError { kind: ErrorKind::MissingWidth, position: 2 });
    assert_eq!(refusal("foo:bar"), BitSeqError { kind: ErrorKind::MissingWidth, position: 2 });
    assert_eq!(refusal("-x:y"), BitSeqError { kind: ErrorKind::MissingWidth, position: 3 });
    assert_eq!(refusal("3:1.5"), BitSeqError { kind: ErrorKind::MissingWidth, position: 2 });
}

#[test]
fn malformed_width_is_refused() {
    assert_eq!(refusal("foo:-5"), BitSeqError { kind: ErrorKind::MalformedWidth, position: 2 });
    assert_eq!(
        refusal("foo:99999999999999999999999"),
        BitSeqError { kind: ErrorKind::MalformedWidth, position: 2 }
    );
}

#[test]
fn last_malformed_width_is_reported() {
    assert_eq!(refusal("a:-1 b:-2"), BitSeqError { kind: ErrorKind::MalformedWidth, position: 6 });
    assert_eq!(refusal("a:-1 b:2"), BitSeqError { kind: ErrorKind::MalformedWidth, position: 2 });
}

#[test]
fn syntax_errors_come_before_width_errors() {
    assert_eq!(refusal("a:-1 22"), BitSeqError { kind: ErrorKind::NotBitSequence, position: 4 });
}

#[test]
fn bare_negative_is_refused() {
    assert_eq!(refusal("-5"), BitSeqError { kind: ErrorKind::NegativeLiteral, position: 0 });
    assert_eq!(refusal("-1 0101:4"), BitSeqError { kind: ErrorKind::NegativeLiteral, position: 0 });
    assert_eq!(refusal("11 - 101"), BitSeqError { kind: ErrorKind::NegativeLiteral, position: 1 });
}

#[test]
fn decimal_literal_is_refused() {
    assert_eq!(refusal("22"), BitSeqError { kind: ErrorKind::NotBitSequence, position: 0 });
    assert_eq!(refusal("1 102"), BitSeqError { kind: ErrorKind::NotBitSequence, position: 1 });
    assert_eq!(refusal("0b11"), BitSeqError { kind: ErrorKind::NotBitSequence, position: 0 });
    assert_eq!(refusal("0X1f"), BitSeqError { kind: ErrorKind::NotBitSequence, position: 0 });
}

#[test]
fn unrecognized_segment_is_refused() {
    assert_eq!(refusal("+"), BitSeqError { kind: ErrorKind::UnrecognizedSegment, position: 0 });
    assert_eq!(refusal("1 \"s\""), BitSeqError { kind: ErrorKind::UnrecognizedSegment, position: 1 });
    assert_eq!(refusal("(1)"), BitSeqError { kind: ErrorKind::UnrecognizedSegment, position: 0 });
    assert_eq!(refusal("1.5"), BitSeqError { kind: ErrorKind::UnrecognizedSegment, position: 0 });
    assert_eq!(refusal("self:3"), BitSeqError { kind: ErrorKind::UnrecognizedSegment, position: 0 });
    assert_eq!(refusal("-a + b:8"), BitSeqError { kind: ErrorKind::UnrecognizedSegment, position: 0 });
}

#[test]
fn other_unary_operators_start_no_segment() {
    assert_eq!(refusal("*p:8"), BitSeqError { kind: ErrorKind::UnrecognizedSegment, position: 0 });
    assert_eq!(refusal("&p:8"), BitSeqError { kind: ErrorKind::UnrecognizedSegment, position: 0 });
    assert_eq!(
        refusal("101 *p:8"),
        BitSeqError { kind: ErrorKind::UnrecognizedSegment, position: 1 }
    );
    let tokens = vec![
        Token::Punct('*', false),
        Token::Ident("p".to_string()),
        Token::Punct(':', false),
        Token::Int("8".to_string()),
    ];
    let unary = Some(LeadingExpr { unary: true, rest: 2 });
    assert_eq!(BitSeqInput::unary_end(&tokens, 0, unary), None);
    assert_eq!(
        BitSeqInput::segment_with(&tokens, 0, unary),
        Err(BitSeqError { kind: ErrorKind::UnrecognizedSegment, position: 0 })
    );
    assert_eq!(segments_of("!*p:8"), vec![written("!* p", "8", 4)]);
    assert_eq!(segments_of("- -p:8"), vec![written("- - p", "8", 4)]);
}

#[test]
fn untokenizable_text_is_refused() {
    assert_eq!(refusal("(1"), BitSeqError { kind: ErrorKind::InvalidToken, position: 0 });
}

#[test]
fn messages_name_the_fault() {
    assert_eq!(ErrorKind::MissingSeparator.message(), "expected `:`");
    assert_eq!(
        refusal("foo:").message(),
        "expected integer that specifies size of bit sequence"
    );
    assert_eq!(refusal("-5").message(), "negative numbers are not allowed");
    assert_eq!(refusal("22").message(), "expected bit sequence but got integer instead.");
    assert_eq!(
        refusal("+").message(),
        "expected bit sequence, hex or length defined expression"
    );
    assert_eq!(refusal("a:-1").message(), "Couldn't be parsed!");
}

#[test]
fn classify_literal_decides_by_the_text() {
    assert_eq!(classify_literal("0101".to_string(), 3), Ok(bits("0101")));
    assert_eq!(classify_literal("0x1F".to_string(), 3), Ok(derived("0x1F", 8)));
    assert_eq!(classify_literal("0x".to_string(), 3), Ok(derived("0x", 0)));
    assert_eq!(
        classify_literal("-1".to_string(), 3),
        Err(BitSeqError { kind: ErrorKind::NegativeLiteral, position: 3 })
    );
    assert_eq!(
        classify_literal("12".to_string(), 3),
        Err(BitSeqError { kind: ErrorKind::NotBitSequence, position: 3 })
    );
}

#[test]
fn segment_with_follows_what_was_found() {
    let tokens = vec![
        Token::Punct('-', false),
        Token::Int("1".to_string()),
        Token::Punct(':', false),
        Token::Int("8".to_string()),
    ];
    let unary = Some(LeadingExpr { unary: true, rest: 2 });
    assert_eq!(BitSeqInput::unary_end(&tokens, 0, unary), Some(2));
    assert_eq!(BitSeqInput::segment_with(&tokens, 0, unary), Ok((written("- 1", "8", 3), 4)));
    let plain = Some(LeadingExpr { unary: false, rest: 2 });
    assert_eq!(BitSeqInput::unary_end(&tokens, 0, plain), None);
    assert_eq!(
        BitSeqInput::segment_with(&tokens, 0, plain),
        Err(BitSeqError { kind: ErrorKind::NegativeLiteral, position: 0 })
    );
    assert_eq!(BitSeqInput::unary_end(&tokens, 0, Some(LeadingExpr { unary: true, rest: 1 })), None);
    assert_eq!(BitSeqInput::unary_end(&tokens, 0, Some(LeadingExpr { unary: true, rest: 9 })), None);
    assert_eq!(
        BitSeqInput::segment_with(&tokens, 4, None),
        Err(BitSeqError { kind: ErrorKind::UnrecognizedSegment, position: 4 })
    );
}

#[test]
fn lexemes_become_tokens_by_their_kind() {
    let ident = Lexeme::Ident("foo".to_string());
    assert_eq!(Token::classified(&ident, true, false), Token::Ident("foo".to_string()));
    assert_eq!(Token::classified(&ident, false, true), Token::Other("foo".to_string()));
    let literal = Lexeme::Literal("12".to_string());
    assert_eq!(Token::classified(&literal, true, true), Token::Int("12".to_string()));
    assert_eq!(Token::classified(&literal, true, false), Token::Other("12".to_string()));
    let mark = Lexeme::Punct(':', true);
    assert_eq!(Token::classified(&mark, true, true), Token::Punct(':', true));
    let group = Lexeme::Group("(1)".to_string());
    assert_eq!(Token::classified(&group, true, true), Token::Other("(1)".to_string()));
    assert_eq!(Token::of(&ident), Token::Ident("foo".to_string()));
    assert_eq!(Token::of(&Lexeme::Ident("fn".to_string())), Token::Other("fn".to_string()));
    assert_eq!(Token::of(&literal), Token::Int("12".to_string()));
    assert_eq!(Token::of(&Lexeme::Literal("1e3".to_string())), Token::Other("1e3".to_string()));
    assert_eq!(Token::of(&mark), Token::Punct(':', true));
    assert_eq!(Token::of(&group), Token::Other("(1)".to_string()));
}

#[test]
fn marks_are_told_apart() {
    assert!(Token::Punct(':', false).is_mark(':'));
    assert!(!Token::Punct(':', false).is_mark('-'));
    assert!(!Token::Ident(":".to_string()).is_mark(':'));
    assert!(Token::Punct(':', true).is_joint());
    assert!(!Token::Punct(':', false).is_joint());
    assert!(!Token::Int("1".to_string()).is_joint());
    let mut out = String::from("a");
    Token::Punct('!', false).write_to(&mut out);
    Token::Int("01".to_string()).write_to(&mut out);
    assert_eq!(out, "a!01");
}
