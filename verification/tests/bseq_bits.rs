use bit_seq::bseq;

fn eval(spec: &str, operands: &[u128]) -> u128 {
    bseq(spec).unwrap().evaluate(operands).unwrap()
}

#[test]
fn test_bseq_bits_empty() {
    let t = eval("", &[]);
    assert_eq!(t, 0);
}

#[test]
fn test_bseq_bits_single_1() {
    let t = eval("1", &[]);
    assert_eq!(t, 1);
}

#[test]
fn test_bseq_bits_single_2() {
    let t = eval("0", &[]);
    assert_eq!(t, 0);
}

#[test]
fn test_bseq_bits_single_seq_1() {
    let t = eval("101", &[]);
    assert_eq!(t, 0b101);
}

#[test]
fn test_bseq_bits_single_seq_2() {
    let t = eval("00101", &[]);
    assert_eq!(t, 0b101);
}

#[test]
fn test_bseq_bits_multi_seq_1() {
    let t = eval("00 101", &[]);
    assert_eq!(t, 0b101);
}

#[test]
fn test_bseq_bits_multi_seq_2() {
    let t = eval("10 101", &[]);
    assert_eq!(t, 0b10101);
}

#[test]
fn test_bseq_bits_multi_seq_3() {
    let t = eval("1 0 11   0", &[]);
    assert_eq!(t, 0b10110);
}

#[test]
fn test_bseq_overflow_1() {
    let t: u8 = eval("111111111", &[]) as u8;
    assert_eq!(t, 255);
}

#[test]
fn test_bseq_overflow_2() {
    let t: i8 = eval("110000000", &[]) as i8;
    assert_eq!(t, -128);
}
