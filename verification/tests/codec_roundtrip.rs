use play_rinja::codec::{decode_pair, encode_pair, quote_text, unquote_text};

#[test]
fn quote_plain_text() {
    assert_eq!(quote_text("hello"), "\"hello\"");
}

#[test]
fn quote_escapes_specials() {
    assert_eq!(quote_text("a\"b"), "\"a\\\"b\"");
    assert_eq!(quote_text("a\\b"), "\"a\\\\b\"");
    assert_eq!(quote_text("a\nb"), "\"a\\nb\"");
    assert_eq!(quote_text("a\rb"), "\"a\\rb\"");
    assert_eq!(quote_text("a\tb"), "\"a\\tb\"");
    assert_eq!(quote_text("a\u{1}b"), "\"a\\u0001b\"");
    assert_eq!(quote_text("a\u{1f}b"), "\"a\\u001fb\"");
}

#[test]
fn unquote_inverts_quote() {
    let cases = [
        "",
        "plain",
        "with \"quotes\" and \\backslashes\\",
        "line one\nline two\r\n\ttabbed",
        "control \u{0}\u{1}\u{8}\u{c}\u{1f} chars",
        "unicode: caf\u{e9} \u{1f600} \u{2028}",
    ];
    for case in cases {
        let encoded = quote_text(case);
        assert_eq!(unquote_text(&encoded).as_deref(), Some(case));
    }
}

#[test]
fn unquote_accepts_short_escapes() {
    assert_eq!(unquote_text("\"a\\/b\"").as_deref(), Some("a/b"));
    assert_eq!(unquote_text("\"a\\bb\"").as_deref(), Some("a\u{8}b"));
    assert_eq!(unquote_text("\"a\\fb\"").as_deref(), Some("a\u{c}b"));
}

#[test]
fn unquote_accepts_four_digit_byte_escapes() {
    assert_eq!(unquote_text("\"\\u0041\"").as_deref(), Some("A"));
    assert_eq!(unquote_text("\"\\u00e9\"").as_deref(), Some("\u{e9}"));
    assert_eq!(unquote_text("\"\\u0000\"").as_deref(), Some("\u{0}"));
}

#[test]
fn unquote_rejects_corruption() {
    assert_eq!(unquote_text(""), None);
    assert_eq!(unquote_text("plain"), None);
    assert_eq!(unquote_text("\"unterminated"), None);
    assert_eq!(unquote_text("\"bad escape \\x\""), None);
    assert_eq!(unquote_text("\"bad unicode \\u12\""), None);
    assert_eq!(unquote_text("\"bad unicode \\u12ff\""), None);
    assert_eq!(unquote_text("\"trailing\" junk"), None);
}

#[test]
fn pair_round_trip() {
    let a = "#[derive(Template)]\nstruct S<'a> { user: &'a str }";
    let b = "Hello, <strong>{{user}}</strong>!\n\t\"quoted\"";
    let encoded = encode_pair(a, b);
    let decoded = decode_pair(&encoded).expect("pair must decode");
    assert_eq!(decoded.0, a);
    assert_eq!(decoded.1, b);
}

#[test]
fn pair_round_trip_empty() {
    let encoded = encode_pair("", "");
    assert_eq!(encoded, "\"\"\"\"");
    let decoded = decode_pair(&encoded).expect("pair must decode");
    assert_eq!(decoded.0, "");
    assert_eq!(decoded.1, "");
}

#[test]
fn pair_rejects_malformed() {
    assert_eq!(decode_pair(""), None);
    assert_eq!(decode_pair("\"only one\""), None);
    assert_eq!(decode_pair("\"a\"\"b\" extra"), None);
    assert_eq!(decode_pair("\"a\"x\"b\""), None);
}
