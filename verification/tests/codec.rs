use hatena_oauth::oauth::util::decode;
use hatena_oauth::oauth::util::encode;
use hatena_oauth::oauth::util::encode_roundtrip;

#[test]
fn test_encode_strict_unreserved_set() {
    // `-`, `.`, `_`, `~` stay; `*` is escaped.
    assert_eq!(encode("a*b-c.d_e~f"), "a%2Ab-c.d_e~f");
}

#[test]
fn test_encode_escapes_reserved_ascii() {
    assert_eq!(encode(" "), "%20");
    assert_eq!(encode("/"), "%2F");
    assert_eq!(encode("="), "%3D");
    assert_eq!(encode("&"), "%26");
    assert_eq!(encode("+"), "%2B");
    assert_eq!(encode(","), "%2C");
}

#[test]
fn test_encode_empty() {
    assert_eq!(encode(""), "");
}

#[test]
fn test_encode_multibyte_utf8() {
    // Each UTF-8 byte is escaped on its own.
    assert_eq!(encode("あ"), "%E3%81%82");
}

#[test]
fn test_decode_multibyte_utf8() {
    assert_eq!(decode("%E3%81%82"), "あ");
}

#[test]
fn test_decode_lowercase_hex() {
    assert_eq!(decode("%2a"), "*");
}

#[test]
fn test_decode_malformed_escape_passes_through() {
    assert_eq!(decode("abc%2"), "abc%2");
    assert_eq!(decode("%zz"), "%zz");
    assert_eq!(decode("%"), "%");
}

#[test]
fn test_roundtrip_printable_ascii() {
    let mut s = String::new();
    let mut b = 0x20u8;
    while b <= 0x7e {
        s.push(b as char);
        b += 1;
    }
    assert_eq!(decode(&encode(&s)), s);
    assert_eq!(encode_roundtrip(&s), s);
}

#[test]
fn test_roundtrip_example() {
    let s = "a*b-c.d_e~f";
    assert_eq!(decode(&encode(s)), s);
}
