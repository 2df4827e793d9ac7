use bit_seq::pack::{PackedExpr, Target, Term};
use bit_seq::source::{target_name, write_decimal};
use bit_seq::{bseq, bseq_128, bseq_16, bseq_8};

fn decimal(n: u128) -> String {
    let mut out = String::new();
    write_decimal(n, &mut out);
    out
}

#[test]
fn decimal_digits_are_written_without_leading_zeros() {
    assert_eq!(decimal(0), "0");
    assert_eq!(decimal(7), "7");
    assert_eq!(decimal(10), "10");
    assert_eq!(decimal(1234567890), "1234567890");
    assert_eq!(decimal(u128::MAX), "340282366920938463463374607431768211455");
    let mut out = String::from("x");
    write_decimal(42, &mut out);
    assert_eq!(out, "x42");
}

#[test]
fn target_names_are_the_type_names() {
    assert_eq!(target_name(&Target::U8), "u8");
    assert_eq!(target_name(&Target::U16), "u16");
    assert_eq!(target_name(&Target::U32), "u32");
    assert_eq!(target_name(&Target::U64), "u64");
    assert_eq!(target_name(&Target::U128), "u128");
}

#[test]
fn empty_expression_is_the_literal_zero() {
    assert_eq!(bseq("").unwrap().source(), "0");
    assert_eq!(bseq_8("").unwrap().source(), "(0) as u8");
    assert_eq!(bseq_128("").unwrap().source(), "(0) as u128");
}

#[test]
fn terms_are_joined_least_significant_first() {
    assert_eq!(bseq("101").unwrap().source(), "(5) << 0");
    assert_eq!(bseq("10 var:5").unwrap().source(), "(var & 31) << 0 | (2) << 5");
    assert_eq!(
        bseq("1 0x1f -x:3").unwrap().source(),
        "(- x & 7) << 0 | (0x1f & 255) << 3 | (1) << 11"
    );
}

#[test]
fn target_casts_each_value_and_the_whole() {
    assert_eq!(
        bseq_8("foo:5 bar:3").unwrap().source(),
        "(((bar as u8) & 7) << 0 | ((foo as u8) & 31) << 3) as u8"
    );
    assert_eq!(bseq_16("11").unwrap().source(), "((3) << 0) as u16");
    assert_eq!(
        bseq_128("v:128").unwrap().source(),
        "(((v as u128) & 340282366920938463463374607431768211455) << 0) as u128"
    );
}

#[test]
fn single_term_is_written_as_it_is_held() {
    let mut out = String::new();
    Term::Raw { value: 9, shift: 4 }.write_to(&mut out);
    assert_eq!(out, "(9) << 4");
    let packed = PackedExpr {
        terms: vec![Term::Masked { expr: "a".to_string(), cast: None, mask: 1, shift: 2 }],
        cast: Some(Target::U32),
    };
    assert_eq!(packed.source(), "((a & 1) << 2) as u32");
}
