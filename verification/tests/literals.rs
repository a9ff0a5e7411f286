//! What literals stand for.

use coddl::literals::{
    decode_char, decode_char_literal, decode_string, decode_string_literal, parse_integer,
    parse_integer_literal,
};

#[test]
fn string_escapes_are_decoded() {
    assert_eq!(
        decode_string_literal(r#""a\n\r\t\"\\\u{e9}z""#),
        "a\n\r\t\"\\\u{e9}z".as_bytes()
    );
    assert_eq!(decode_string_literal("\"\u{1f600}\""), "\u{1f600}".as_bytes());
    assert_eq!(decode_string_literal("\"\""), b"");
}

#[test]
fn strings_without_escapes_read_back() {
    for text in ["", "plain", "it's", "caf\u{e9}", "a \"b\" c"] {
        assert_eq!(decode_string(&format!("\"{text}\"")).as_deref(), Some(text));
    }
}

#[test]
fn odd_strings_are_decoded_as_far_as_they_go() {
    // Quotes on one side only stay, a lone backslash ends the text, and so
    // does an escape that its brace does not follow.
    assert_eq!(decode_string("\"ab").as_deref(), Some("\"ab"));
    assert_eq!(decode_string("ab\\").as_deref(), Some("ab"));
    assert_eq!(decode_string("\"a\\u41z\"").as_deref(), Some("a"));
    // No character has the number of a surrogate, and none has no number.
    assert_eq!(decode_string("\"a\\u{d800}b\"").as_deref(), Some("ab"));
    assert_eq!(decode_string("\"a\\u{}b\"").as_deref(), Some("ab"));
    assert_eq!(decode_string("\"a\\u{110000}b\"").as_deref(), Some("ab"));
    assert_eq!(decode_string("\"a\\u{10ffff}b\"").as_deref(), Some("a\u{10ffff}b"));
    assert_eq!(decode_string("\"\\q\""), None);
}

#[test]
fn character_literals_are_decoded() {
    assert_eq!(decode_char_literal("'a'"), 97);
    assert_eq!(decode_char_literal("'\\n'"), 10);
    assert_eq!(decode_char_literal("'\\r'"), 13);
    assert_eq!(decode_char_literal("'\\t'"), 9);
    assert_eq!(decode_char_literal("'\\''"), 39);
    assert_eq!(decode_char_literal("'\\\"'"), 34);
    assert_eq!(decode_char_literal("'\\\\'"), 92);
    assert_eq!(decode_char_literal("'\\u{1F600}'"), 0x1f600);
    assert_eq!(decode_char_literal("'\u{e9}'"), 0xe9);
    assert_eq!(decode_char("''"), None);
    assert_eq!(decode_char("'\\q'"), None);
    assert_eq!(decode_char("'\\u{g}'"), None);
}

#[test]
fn integer_literals_have_radixes_and_separators() {
    assert_eq!(parse_integer_literal("0"), 0);
    assert_eq!(parse_integer_literal("0x7f_ff"), 0x7fff);
    assert_eq!(parse_integer_literal("0B11"), 3);
    assert_eq!(parse_integer_literal("0O17"), 15);
    assert_eq!(parse_integer_literal("0d19"), 19);
    assert_eq!(parse_integer_literal("9223372036854775807"), i64::MAX);
    assert_eq!(parse_integer("-9223372036854775808"), Some(i64::MIN));
    assert_eq!(parse_integer("9223372036854775808"), None);
    assert_eq!(parse_integer("0xg"), None);
    assert_eq!(parse_integer(""), None);
    assert_eq!(parse_integer("12a"), None);
}

#[test]
fn decimal_notation_reads_back() {
    for n in [0, 7, 10, 4096, i64::MAX] {
        assert_eq!(parse_integer(&n.to_string()), Some(n));
    }
}
