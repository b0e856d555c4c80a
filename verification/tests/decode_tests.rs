use prettyget::ansi::strip_ansi;
use prettyget::decode::{decode, decode_bytes, utf16le};

#[test]
fn strip_ansi_removes_sequences() {
    assert_eq!(strip_ansi("\u{1b}[1;31mred\u{1b}[0m"), "red");
    assert_eq!(strip_ansi("a\u{1b}]0;title\u{7}b"), "ab");
    assert_eq!(strip_ansi("a\u{1b}]0;title\u{1b}\\b"), "ab");
    assert_eq!(strip_ansi("a\u{1b}]0;title\u{1b}xb"), "axb");
    assert_eq!(strip_ansi("a\u{1b}(Bc"), "aBc");
    assert_eq!(strip_ansi("nul\u{0}here"), "nulhere");
    assert_eq!(strip_ansi("end\u{1b}"), "end");
    assert_eq!(strip_ansi("end\u{1b}[12"), "end");
    let once = strip_ansi("x\u{1b}[2Ky\u{0}z");
    assert_eq!(strip_ansi(&once), once);
}

#[test]
fn decodes_every_encoding() {
    assert_eq!(decode_bytes(b"plain"), "plain");
    assert_eq!(decode_bytes(&[0xEF, 0xBB, 0xBF, b'h', b'i']), "hi");
    assert_eq!(decode_bytes(&[0xFF, 0xFE, b'h', 0, b'i', 0]), "hi");
    assert_eq!(decode_bytes(&[0xFE, 0xFF, 0, b'h', 0, b'i']), "hi");
    assert_eq!(decode_bytes(&[b'o', 0, b'k', 0]), "ok");
    assert_eq!(decode_bytes(&[0xFF, 0xFE, b'a', 0, b'b']), "a");
    assert_eq!(decode_bytes(b""), "");
    assert_eq!(utf16le(&[b'x', 0, b'y', 0, b'z']), "xy");
}

#[test]
fn decode_normalizes_carriage_returns() {
    assert_eq!(decode(b"a\r\nb\rc"), "a\n\nb\nc");
    assert!(!decode(b"\x1b[31mx\r\x1b[0m").contains('\r'));
    assert_eq!(decode(b"\x1b[31mx\r\x1b[0m"), "x\n");
}

#[test]
fn utf16_and_utf8_round_trips() {
    let s = "héllo 😀 ok";
    let mut le = vec![0xFF, 0xFE];
    le.extend(s.encode_utf16().flat_map(u16::to_le_bytes));
    let mut be = vec![0xFE, 0xFF];
    be.extend(s.encode_utf16().flat_map(u16::to_be_bytes));
    assert_eq!(decode_bytes(&le), s);
    assert_eq!(decode_bytes(&be), s);
    assert_eq!(decode_bytes(s.as_bytes()), s);
    // An unpaired surrogate becomes U+FFFD.
    assert_eq!(decode_bytes(&[0xFF, 0xFE, 0x00, 0xD8, b'a', 0]), "\u{FFFD}a");
}

#[test]
fn stripping_only_removes_characters() {
    let input = "a\u{1b}[1mb\u{1b}]0;t\u{7}c\u{0}d";
    let out = strip_ansi(input);
    assert_eq!(out, "abcd");
    let mut it = input.chars();
    assert!(out.chars().all(|c| it.any(|d| d == c)));
}
