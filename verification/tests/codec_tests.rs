use blockchain_maker::block::{decode_block, encode_block};
use blockchain_maker::codec::{
    bytes_to_hex, hex_to_bytes, i64_to_dec, parse_i64_chars, parse_u64_chars, string_to_chars,
    u64_to_dec,
};
use blockchain_maker::Block;

fn chars(s: &str) -> Vec<char> {
    s.chars().collect()
}

fn to_string(v: &[char]) -> String {
    v.iter().collect()
}

fn sample_block() -> Block {
    Block {
        timestamp: -1234567890,
        data: chars("payload with : colons\nand lines"),
        previous_hash: chars("0"),
        reward: 50,
        block_number: 1,
        content_hash: chars("aa11bb22"),
        signature: vec![0x30, 0x00, 0xff, 0x7f],
        public_key: vec![0x2d, 0x2d, 0x42, 0x45],
        block_hash: chars("cc33dd44"),
    }
}

#[test]
fn decimal_rendering() {
    assert_eq!(to_string(&u64_to_dec(0)), "0");
    assert_eq!(to_string(&u64_to_dec(1234567890)), "1234567890");
    assert_eq!(to_string(&u64_to_dec(u64::MAX)), "18446744073709551615");
    assert_eq!(to_string(&i64_to_dec(-42)), "-42");
    assert_eq!(to_string(&i64_to_dec(0)), "0");
    assert_eq!(to_string(&i64_to_dec(i64::MIN)), "-9223372036854775808");
}

#[test]
fn decimal_parsing_roundtrip() {
    assert_eq!(parse_u64_chars(&chars("0")), Some(0));
    assert_eq!(parse_u64_chars(&chars("007")), Some(7));
    assert_eq!(parse_u64_chars(&chars("18446744073709551615")), Some(u64::MAX));
    assert_eq!(parse_u64_chars(&chars("18446744073709551616")), None);
    assert_eq!(parse_u64_chars(&chars("")), None);
    assert_eq!(parse_u64_chars(&chars("12x3")), None);
    assert_eq!(parse_i64_chars(&chars("-42")), Some(-42));
    assert_eq!(parse_i64_chars(&chars("-9223372036854775808")), Some(i64::MIN));
    assert_eq!(parse_i64_chars(&chars("9223372036854775808")), None);
    assert_eq!(parse_i64_chars(&chars("-")), None);
}

#[test]
fn hex_rendering_and_parsing() {
    assert_eq!(to_string(&bytes_to_hex(&vec![0x0f, 0xa0, 0x00, 0xff])), "0fa000ff");
    assert_eq!(to_string(&bytes_to_hex(&Vec::new())), "");
    assert_eq!(hex_to_bytes(&chars("0fa000ff")), Some(vec![0x0f, 0xa0, 0x00, 0xff]));
    assert_eq!(hex_to_bytes(&chars("abc")), None);
    assert_eq!(hex_to_bytes(&chars("zz")), None);
    assert_eq!(hex_to_bytes(&chars("")), Some(Vec::new()));
}

#[test]
fn string_to_chars_copies_exactly() {
    let v = string_to_chars("héllo ✓");
    let expected: Vec<char> = "héllo ✓".chars().collect();
    assert_eq!(v, expected);
}

#[test]
fn block_encoding_roundtrip() {
    let block = sample_block();
    let encoded = encode_block(&block);
    let decoded = decode_block(&encoded).expect("a fresh encoding must decode");
    assert_eq!(decoded, block);
}

#[test]
fn block_encoding_layout() {
    let mut block = sample_block();
    block.data = chars("tail");
    let encoded = to_string(&encode_block(&block));
    assert_eq!(
        encoded,
        "-1234567890:50:1:0:aa11bb22:cc33dd44:3000ff7f:2d2d4245:tail"
    );
}

#[test]
fn malformed_records_are_rejected() {
    assert!(decode_block(&chars("")).is_none());
    assert!(decode_block(&chars("no separators here")).is_none());
    assert!(decode_block(&chars("1:2:3:4:5:6:7:8")).is_none());
    assert!(decode_block(&chars("x:50:1:0:a:b:00:00:data")).is_none());
    assert!(decode_block(&chars("1:50:1:0:a:b:0g:00:data")).is_none());
    assert!(decode_block(&chars("1:50:1:0:a:b:000:00:data")).is_none());
}
