use bit_seq::bit_seq_input::{BitSegment, BitSeqInput, Width};
use bit_seq::error::{BitSeqError, ErrorKind};
use bit_seq::pack::{cast_value, PackedExpr, Target, Term};
use bit_seq::token::tokenize;
use bit_seq::word::{mask_of, pattern_word, shifted};
use bit_seq::{
    bseq, bseq_128, bseq_16, bseq_32, bseq_64, bseq_8, compile, map_segment, process, resolve,
};

fn value(spec: &str, operands: &[u128]) -> u128 {
    bseq(spec).unwrap().evaluate(operands).unwrap()
}

#[test]
fn terms_stand_least_significant_first() {
    let packed = bseq("10 var:5 0x3").unwrap();
    assert_eq!(
        packed,
        PackedExpr {
            terms: vec![
                Term::Masked { expr: "0x3".to_string(), cast: None, mask: 15, shift: 0 },
                Term::Masked { expr: "var".to_string(), cast: None, mask: 31, shift: 4 },
                Term::Raw { value: 2, shift: 9 },
            ],
            cast: None,
        }
    );
    assert_eq!(packed.operand_count(), 2);
}

#[test]
fn target_is_set_on_every_value_and_on_the_whole() {
    let packed = bseq_16("1 foo:3").unwrap();
    assert_eq!(
        packed,
        PackedExpr {
            terms: vec![
                Term::Masked {
                    expr: "foo".to_string(),
                    cast: Some(Target::U16),
                    mask: 7,
                    shift: 0,
                },
                Term::Raw { value: 1, shift: 3 },
            ],
            cast: Some(Target::U16),
        }
    );
    assert_eq!(process("1 foo:3", Some(Target::U16)).unwrap(), packed);
}

#[test]
fn empty_specification_is_zero_under_every_target() {
    assert_eq!(bseq("").unwrap(), PackedExpr { terms: vec![], cast: None });
    assert_eq!(bseq("").unwrap().evaluate(&[]), Some(0));
    assert_eq!(bseq_8("").unwrap().evaluate(&[]), Some(0));
    assert_eq!(bseq_16("  ").unwrap().evaluate(&[]), Some(0));
    assert_eq!(bseq_32("").unwrap().evaluate(&[]), Some(0));
    assert_eq!(bseq_64("").unwrap().evaluate(&[]), Some(0));
    assert_eq!(bseq_128("").unwrap().evaluate(&[]), Some(0));
}

#[test]
fn evaluate_wants_one_operand_for_each_value() {
    let packed = bseq("a:1 0 b:2").unwrap();
    assert_eq!(packed.evaluate(&[1]), None);
    assert_eq!(packed.evaluate(&[1, 2, 3]), None);
    assert_eq!(packed.evaluate(&[1, 2]), Some(0b1010));
    assert_eq!(bseq("101").unwrap().evaluate(&[7]), None);
}

#[test]
fn operands_are_taken_in_written_order() {
    assert_eq!(value("a:4 b:4", &[0xa, 0xb]), 0xab);
    assert_eq!(value("a:4 1111 b:4 c:4", &[0xa, 0xb, 0xc]), 0xafbc);
}

#[test]
fn pattern_is_its_binary_value() {
    assert_eq!(value("1101", &[]), 13);
    assert_eq!(value("0001101", &[]), 13);
    assert_eq!(value("000000", &[]), 0);
    assert_eq!(pattern_word("1101"), 13);
    assert_eq!(pattern_word(""), 0);
    let ones = "1".repeat(128);
    assert_eq!(value(&ones, &[]), u128::MAX);
}

#[test]
fn pattern_beyond_the_word_loses_its_top() {
    let long = format!("1{}", "0".repeat(128));
    assert_eq!(pattern_word(&long), 0);
    let long = format!("11{}1", "0".repeat(126));
    assert_eq!(pattern_word(&long), (1u128 << 127) + 1);
}

#[test]
fn value_keeps_its_low_bits() {
    assert_eq!(value("v:0", &[0xffff]), 0);
    assert_eq!(value("v:3", &[0xffff]), 7);
    assert_eq!(value("v:16", &[0x1234]), 0x1234);
    assert_eq!(value("v:40", &[0x1234]), 0x1234);
    assert_eq!(value("v:127", &[u128::MAX]), u128::MAX >> 1);
    assert_eq!(value("v:128", &[u128::MAX]), u128::MAX);
    assert_eq!(value("v:200", &[u128::MAX]), u128::MAX);
}

#[test]
fn mask_and_shift_stay_in_the_word() {
    assert_eq!(mask_of(0), 0);
    assert_eq!(mask_of(1), 1);
    assert_eq!(mask_of(8), 255);
    assert_eq!(mask_of(127), u128::MAX >> 1);
    assert_eq!(mask_of(128), u128::MAX);
    assert_eq!(mask_of(usize::MAX), u128::MAX);
    assert_eq!(shifted(3, 0), 3);
    assert_eq!(shifted(3, 127), 1 << 127);
    assert_eq!(shifted(3, 128), 0);
    assert_eq!(shifted(3, usize::MAX), 0);
}

#[test]
fn segments_above_the_word_vanish() {
    assert_eq!(value("1 v:128", &[5]), 5);
    assert_eq!(value("11 v:127", &[0]), 1 << 127);
    assert_eq!(value("1 a:18446744073709551615 b:18446744073709551615", &[0, 3]), 3);
}

#[test]
fn hex_literal_fits_its_width() {
    assert_eq!(value("0xff", &[0xff]), 0xff);
    assert_eq!(value("1 0xff", &[0xff]), 0x1ff);
    assert_eq!(value("1 0x0f", &[0x0f]), 0x10f);
    assert_eq!(value("1 0x1u8", &[0x1]), 0x11);
}

#[test]
fn concatenation_shifts_by_the_later_width() {
    let whole = value("101 x:3 11 0x5", &[6, 5]);
    let high = value("101 x:3", &[6]);
    let low = value("11 0x5", &[5]);
    assert_eq!(whole, (high << 6) | low);
    assert_eq!(whole, 0b101_110_11_0101);
}

#[test]
fn target_cuts_the_value() {
    let operands = [0xffff_ffff_ffffu128, 0x1234];
    let spec = "1 a:40 b:16 101";
    let wide = value(spec, &operands);
    assert_eq!(bseq_8(spec).unwrap().evaluate(&operands).unwrap(), wide & 0xff);
    assert_eq!(bseq_16(spec).unwrap().evaluate(&operands).unwrap(), wide & 0xffff);
    assert_eq!(bseq_32(spec).unwrap().evaluate(&operands).unwrap(), wide & 0xffff_ffff);
    assert_eq!(bseq_64(spec).unwrap().evaluate(&operands).unwrap(), wide & 0xffff_ffff_ffff_ffff);
    assert_eq!(bseq_128(spec).unwrap().evaluate(&operands).unwrap(), wide);
    assert_eq!(bseq_8("111111111").unwrap().evaluate(&[]).unwrap(), 255);
    assert_eq!(bseq_8("110000000").unwrap().evaluate(&[]).unwrap() as u8 as i8, -128);
}

#[test]
fn unary_value_is_masked() {
    assert_eq!(value("!0:6", &[!0u128]), 0b111111);
    assert_eq!(value("-1:8", &[(-1i128) as u128]), 255);
}

#[test]
fn resolve_reads_the_written_number() {
    let refused = Err(BitSeqError { kind: ErrorKind::MalformedWidth, position: 4 });
    assert_eq!(resolve(&Width::Derived(12)), Ok(12));
    assert_eq!(resolve(&Width::Written("12".to_string(), 4)), Ok(12));
    assert_eq!(resolve(&Width::Written("0x10".to_string(), 4)), Ok(16));
    assert_eq!(resolve(&Width::Written("1_0u8".to_string(), 4)), Ok(10));
    assert_eq!(resolve(&Width::Written("-3".to_string(), 4)), refused);
    assert_eq!(resolve(&Width::Written("18446744073709551616".to_string(), 4)), refused);
    assert_eq!(resolve(&Width::Written("x".to_string(), 4)), refused);
}

#[test]
fn map_segment_moves_the_offset() {
    let mut offset = 3;
    let term = map_segment(&BitSegment::Bits("0110".to_string()), &mut offset, &None);
    assert_eq!(term, Ok(Term::Raw { value: 6, shift: 3 }));
    assert_eq!(offset, 7);
    let seg = BitSegment::Expr("v".to_string(), Width::Derived(5));
    let term = map_segment(&seg, &mut offset, &Some(Target::U32));
    assert_eq!(
        term,
        Ok(Term::Masked { expr: "v".to_string(), cast: Some(Target::U32), mask: 31, shift: 7 })
    );
    assert_eq!(offset, 12);
    let bad = BitSegment::Expr("v".to_string(), Width::Written("-1".to_string(), 9));
    let term = map_segment(&bad, &mut offset, &None);
    assert_eq!(term, Err(BitSeqError { kind: ErrorKind::MalformedWidth, position: 9 }));
    assert_eq!(offset, 12);
    let mut far = usize::MAX - 1;
    let _ = map_segment(&BitSegment::Bits("0110".to_string()), &mut far, &None);
    assert_eq!(far, usize::MAX);
}

#[test]
fn compile_packs_parsed_segments() {
    let tokens = tokenize("1 v:2").unwrap();
    let input = BitSeqInput::parse(&tokens).unwrap();
    let packed = compile(&input, Some(Target::U8)).unwrap();
    assert_eq!(packed, bseq_8("1 v:2").unwrap());
    assert_eq!(packed.evaluate(&[0xfe]), Some(0b110));
    assert_eq!(Target::U8.width(), 8);
    assert_eq!(Target::U128.width(), 128);
}

#[test]
fn term_value_is_masked_then_shifted() {
    let raw = Term::Raw { value: 5, shift: 2 };
    assert!(!raw.is_masked());
    assert_eq!(raw.value(99), 20);
    let plain = Term::Masked { expr: "v".to_string(), cast: None, mask: 0xfff, shift: 4 };
    assert!(plain.is_masked());
    assert_eq!(plain.value(0x1abc), 0xabc0);
    let typed = Term::Masked { expr: "v".to_string(), cast: Some(Target::U8), mask: 0xfff, shift: 4 };
    assert_eq!(typed.value(0x1abc), 0xbc0);
    assert_eq!(cast_value(0x1_0000_00ff, &Some(Target::U8)), 0xff);
    assert_eq!(cast_value(0x1_0000_00ff, &Some(Target::U32)), 0xff);
    assert_eq!(cast_value(0x1_0000_00ff, &Some(Target::U64)), 0x1_0000_00ff);
    assert_eq!(cast_value(u128::MAX, &Some(Target::U128)), u128::MAX);
    assert_eq!(cast_value(u128::MAX, &None), u128::MAX);
}
