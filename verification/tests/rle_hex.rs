use ferreline::rle::DecodeHexError;
use ferreline::rle::Rle;

#[test]
fn new_accepts_even_rejects_odd() {
    let rle = Rle::new(vec![1, 2, 3, 4]).expect("even length is accepted");
    assert_eq!(&[1, 2, 3, 4], rle.as_bytes());
    assert!(Rle::new(vec![1, 2, 3]).is_none());
    assert!(Rle::new(vec![]).is_some());
}

#[test]
fn to_hex_string_documented_example() {
    let rle = Rle::new(vec![0x05, 48, 0x3e, 49]).unwrap();
    assert_eq!("0503E1", rle.to_hex_string());
}

#[test]
fn to_hex_string_empty() {
    let rle = Rle::new(vec![]).unwrap();
    assert_eq!("", rle.to_hex_string());
}

#[test]
fn decode_hex_documented_example() {
    let rle = Rle::decode_hex(b"0503E1").expect("valid hex text");
    assert_eq!(&[0x05, 48, 0x3e, 49], rle.as_bytes());
}

#[test]
fn decode_hex_accepts_lowercase() {
    let rle = Rle::decode_hex(b"fa0").expect("lowercase digits are accepted");
    assert_eq!(&[0xFA, 48], rle.as_bytes());
}

#[test]
fn decode_hex_rejects_wrong_length() {
    assert_eq!(
        Rle::decode_hex(b"0503E").unwrap_err(),
        DecodeHexError::NotMultipleOf3
    );
    // The length is checked before the digits.
    assert_eq!(Rle::decode_hex(b"ZZ").unwrap_err(), DecodeHexError::NotMultipleOf3);
}

#[test]
fn decode_hex_rejects_non_hex() {
    assert_eq!(Rle::decode_hex(b"0Z0").unwrap_err(), DecodeHexError::NotHex);
    assert_eq!(Rle::decode_hex(b"Z00").unwrap_err(), DecodeHexError::NotHex);
}

#[test]
fn hex_round_trip_over_ascii_codes() {
    let payload = vec![0x00, 48, 0xFF, 0x7F, 0x10, b'A'];
    let rle = Rle::new(payload.clone()).unwrap();
    let text = rle.to_hex_string();
    assert_eq!("000FF\u{7f}10A", text);
    let back = Rle::decode_hex(text.as_bytes()).expect("round trip must succeed");
    assert_eq!(payload.as_slice(), back.as_bytes());
}

#[test]
fn hex_round_trip_over_high_code_bytes() {
    // A code byte at or above 0x80 becomes a two-byte character in the
    // text; the decoder reads it back as one character all the same.
    let payload = vec![0x01, 0xFF, 0xAB, 0x80, 0x00, 0xC3];
    let rle = Rle::new(payload.clone()).unwrap();
    let text = rle.to_hex_string();
    assert_eq!("01\u{ff}AB\u{80}00\u{c3}", text);
    assert_eq!(6 + 3 * 2, text.as_bytes().len());
    let back = Rle::decode_hex(text.as_bytes()).expect("round trip must succeed");
    assert_eq!(payload.as_slice(), back.as_bytes());
}

#[test]
fn decode_hex_reads_two_byte_characters() {
    let rle = Rle::decode_hex(b"01\xC3\xBF").expect("a two-byte code character");
    assert_eq!(&[0x01, 0xFF], rle.as_bytes());
    let rle = Rle::decode_hex(b"00\xC2\x80").expect("the lowest two-byte character");
    assert_eq!(&[0x00, 0x80], rle.as_bytes());
}

#[test]
fn decode_hex_rejects_cut_off_character() {
    // The text ends in the middle of a two-byte character: its character
    // count is not a multiple of three.
    assert_eq!(
        Rle::decode_hex(b"01\xC3").unwrap_err(),
        DecodeHexError::NotMultipleOf3
    );
}

#[test]
fn decode_hex_rejects_malformed_characters() {
    // A lead byte without its continuation byte.
    assert_eq!(Rle::decode_hex(b"01\xC3\x20").unwrap_err(), DecodeHexError::NotHex);
    // A lone continuation byte at the code position.
    assert_eq!(Rle::decode_hex(b"01\x80").unwrap_err(), DecodeHexError::NotHex);
    // A character above 0xFF cannot be a code byte.
    assert_eq!(
        Rle::decode_hex("41€".as_bytes()).unwrap_err(),
        DecodeHexError::NotHex
    );
}
