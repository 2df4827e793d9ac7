use bit_seq::bseq;

fn hex(spec: &str, operands: &[u128]) -> u128 {
    bseq(spec).unwrap().evaluate(operands).unwrap()
}

#[test]
fn test_bseq_with_hex_input() {
    assert_eq!(hex("0x0", &[0x0]), 0);
    assert_eq!(hex("0x1", &[0x1]), 1);
    assert_eq!(hex("0x2", &[0x2]), 2);
    assert_eq!(hex("0xf", &[0xf]), 15);
    assert_eq!(hex("0x10", &[0x10]), 16);
    assert_eq!(hex("0xff", &[0xff]), 255);
    assert_eq!(hex("0x100", &[0x100]), 256);
    assert_eq!(hex("0xffff", &[0xffff]), 65535);
}
