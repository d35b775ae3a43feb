use audiotag::bytes::{push_u32_le, read_u24_be, read_u32_be, read_u32_le};
use audiotag::id3v2::encoding::{
    encode_text, latin1_decode, latin1_encode, utf16_decode, utf16_encode_le, TextEncoding,
};
use audiotag::pairs::{format_number_pair, parse_num_pair, try_parse_year};
use audiotag::text::{eq_ignore_ascii_case, parse_u32, split_bytes, u32_to_string};

#[test]
fn little_endian_words() {
    let mut out = Vec::new();
    push_u32_le(&mut out, 0x0403_0201);
    assert_eq!(out, vec![1, 2, 3, 4]);
    assert_eq!(read_u32_le(&out, 0), Some(0x0403_0201));
    assert_eq!(read_u32_le(&out, 1), None);
}

#[test]
fn big_endian_words() {
    let data = [0x12u8, 0x34, 0x56, 0x78];
    assert_eq!(read_u32_be(&data, 0), Some(0x1234_5678));
    assert_eq!(read_u24_be(&data, 0), Some(0x0012_3456));
    assert_eq!(read_u24_be(&data, 2), None);
}

#[test]
fn case_insensitive_bytes() {
    assert!(eq_ignore_ascii_case(b"Track", b"TRACK"));
    assert!(eq_ignore_ascii_case(b"track", b"TrAcK"));
    assert!(!eq_ignore_ascii_case(b"Track", b"Disc"));
    assert!(!eq_ignore_ascii_case(b"Track", b"Trac"));
}

#[test]
fn decimal_parse_and_format() {
    assert_eq!(parse_u32(b"0"), Some(0));
    assert_eq!(parse_u32(b"1984"), Some(1984));
    assert_eq!(parse_u32(b"+7"), Some(7));
    assert_eq!(parse_u32(b""), None);
    assert_eq!(parse_u32(b"12a"), None);
    assert_eq!(parse_u32(b"4294967295"), Some(u32::MAX));
    assert_eq!(parse_u32(b"4294967296"), None);

    assert_eq!(u32_to_string(0), "0");
    assert_eq!(u32_to_string(1984), "1984");
    assert_eq!(u32_to_string(u32::MAX), "4294967295");
}

#[test]
fn splitting() {
    let segs = split_bytes(b"3/12", 0x2f);
    assert_eq!(segs, vec![b"3".to_vec(), b"12".to_vec()]);
    let segs = split_bytes(b"only", 0x2f);
    assert_eq!(segs, vec![b"only".to_vec()]);
    let segs = split_bytes(b"a//b", 0x2f);
    assert_eq!(segs, vec![b"a".to_vec(), b"".to_vec(), b"b".to_vec()]);
}

#[test]
fn number_pairs() {
    assert_eq!(
        format_number_pair(Some(3), Some(12)).as_deref(),
        Some("3/12")
    );
    assert_eq!(format_number_pair(Some(3), None).as_deref(), Some("3"));
    assert_eq!(format_number_pair(None, Some(12)).as_deref(), Some("0/12"));
    assert_eq!(format_number_pair(None, None), None);

    assert_eq!(parse_num_pair(b"3/12"), (Some(3), Some(12)));
    assert_eq!(parse_num_pair(b"3"), (Some(3), None));
    assert_eq!(parse_num_pair(b"x/12"), (Some(12), None));
    assert_eq!(parse_num_pair(b""), (None, None));
}

#[test]
fn year_parsing() {
    assert_eq!(try_parse_year("1984"), Some(1984));
    assert_eq!(try_parse_year("1984-05-01"), Some(1984));
    assert_eq!(try_parse_year("84"), None);
    assert_eq!(try_parse_year("abcd"), None);
}

#[test]
fn latin1_text() {
    let bytes: Vec<u8> = vec![0x48, 0x69, 0xe9, 0xff];
    let s = latin1_decode(&bytes);
    assert_eq!(s, "Hi\u{e9}\u{ff}");
    assert_eq!(latin1_encode(&s), bytes);
}

#[test]
fn utf16_text() {
    let s = "caf\u{e9} \u{1F3B5}";
    let mut bytes = vec![0xff, 0xfe];
    bytes.extend_from_slice(&utf16_encode_le(s));
    assert_eq!(utf16_decode(&bytes).as_deref(), Some(s));

    // big-endian byte order mark
    let be: Vec<u8> = vec![0xfe, 0xff, 0x00, 0x41];
    assert_eq!(utf16_decode(&be).as_deref(), Some("A"));

    // an unpaired surrogate is rejected
    let bad: Vec<u8> = vec![0xff, 0xfe, 0x00, 0xd8];
    assert_eq!(utf16_decode(&bad), None);
}

#[test]
fn terminated_text_encoding() {
    assert_eq!(encode_text("ab", TextEncoding::Latin1, true), b"ab\0".to_vec());
    assert_eq!(encode_text("ab", TextEncoding::UTF8, false), b"ab".to_vec());
    assert_eq!(
        encode_text("A", TextEncoding::UTF16, true),
        vec![0xff, 0xfe, 0x41, 0x00, 0x00, 0x00]
    );
}
