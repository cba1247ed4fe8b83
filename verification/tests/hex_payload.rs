use divoom_ditoo_pro_controller::hex_payload::{parse_hex_byte, parse_hex_payload};

#[test]
fn hex_bytes_in_either_case() {
    assert_eq!(parse_hex_byte("06"), Some(0x06));
    assert_eq!(parse_hex_byte("ff"), Some(0xff));
    assert_eq!(parse_hex_byte("FF"), Some(0xff));
    assert_eq!(parse_hex_byte("aB"), Some(0xab));
    assert_eq!(parse_hex_byte("0"), Some(0));
    assert_eq!(parse_hex_byte("000000ff"), Some(0xff));
    assert_eq!(parse_hex_byte("+7f"), Some(0x7f));
}

#[test]
fn hex_bytes_refused() {
    assert_eq!(parse_hex_byte(""), None);
    assert_eq!(parse_hex_byte("+"), None);
    assert_eq!(parse_hex_byte("-1"), None);
    assert_eq!(parse_hex_byte("100"), None);
    assert_eq!(parse_hex_byte("fff"), None);
    assert_eq!(parse_hex_byte("0x10"), None);
    assert_eq!(parse_hex_byte("g"), None);
    assert_eq!(parse_hex_byte(" 1"), None);
    assert_eq!(parse_hex_byte("++1"), None);
    assert_eq!(parse_hex_byte("é"), None);
}

#[test]
fn hex_bytes_agree_with_the_standard_parser() {
    let words = [
        "", "+", "-", "-0", "0", "00", "+0", "9", "a", "A", "f", "F", "g", "G", "10", "7F", "80",
        "fe", "FF", "100", "0100", "+ff", "++f", "1 ", " 1", "1_0", "ffffffffffffffffff", "ß",
        "0000000000000000000000000000001",
    ];
    for w in words.iter() {
        assert_eq!(parse_hex_byte(w), u8::from_str_radix(w, 16).ok(), "word {:?}", w);
    }
}

#[test]
fn hex_payload_of_words() {
    let words: Vec<String> = vec!["06".to_string(), "00".to_string(), "0A".to_string()];
    assert_eq!(parse_hex_payload(&words), Ok(vec![6, 0, 10]));
    let empty: Vec<String> = Vec::new();
    assert_eq!(parse_hex_payload(&empty), Ok(vec![]));
}

#[test]
fn hex_payload_names_the_first_bad_word() {
    let words: Vec<String> = vec!["06".to_string(), "zz".to_string(), "100".to_string()];
    assert_eq!(parse_hex_payload(&words), Err(1));
    let words: Vec<String> = vec!["1ff".to_string()];
    assert_eq!(parse_hex_payload(&words), Err(0));
}
