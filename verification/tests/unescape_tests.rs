use askama::unescape::{get_str, get_str_literal};

fn err(s: &str) -> String {
    get_str(s).unwrap_err().msg
}

#[test]
fn simple_escapes() {
    assert_eq!(get_str("a\\nb").unwrap(), "a\nb");
    assert_eq!(get_str("tab\\t\\\\ \\\" \\' \\0 \\r").unwrap(), "tab\t\\ \" ' \0 \r");
    assert_eq!(get_str("plain \u{e9}").unwrap(), "plain \u{e9}");
    assert_eq!(get_str("").unwrap(), "");
}

#[test]
fn hex_and_unicode_escapes() {
    assert_eq!(get_str("\\x41\\u{1F600}\\u{6_1}").unwrap(), "A\u{1F600}a");
    assert_eq!(get_str("\\xff").unwrap(), "\u{ff}");
    assert_eq!(get_str("\\u{10FFFF}").unwrap(), "\u{10FFFF}");
}

#[test]
fn line_continuation_skips_whitespace() {
    assert_eq!(get_str("a\\\n   \t b").unwrap(), "ab");
    assert_eq!(get_str("a\\\n").unwrap(), "a");
}

#[test]
fn escape_errors() {
    assert_eq!(err("\\"), "expected a character after `\\`");
    assert_eq!(err("\\q"), "unknown espace `\\q`");
    assert_eq!(err("\\x4"), "too short \\x escape");
    assert_eq!(err("\\x"), "too short \\x escape");
    assert_eq!(err("\\xg0"), "unexpected non-hex character after \\x");
    assert_eq!(err("\\x0g"), "unexpected non-hex character after \\x");
    assert_eq!(err("\\u12"), "expected { after \\u");
    assert_eq!(err("\\u{"), "unclosed `\\u`");
    assert_eq!(err("\\u{}"), "invalid empty unicode escape `\\u{}`");
    assert_eq!(err("\\u{g}"), "unexpected non hex character after \\u: `g`");
    assert_eq!(err("\\u{1g}"), "unexpected non hex character after `\\u`: `g`");
    assert_eq!(err("\\u{12"), "unclosed unicode escape");
    assert_eq!(err("\\u{1234567}"), "overlong unicode escape (must have at most 6 hex digits)");
    assert_eq!(err("\\u{D800}"), "character code d800 is not a valid unicode character");
    assert_eq!(err("\\u{110000}"), "character code 110000 is not a valid unicode character");
    assert_eq!(err("a\"b"), "unexpected `\"` character");
    assert_eq!(err("a\rb"), "unexpected `\r` character");
}

#[test]
fn literals() {
    assert_eq!(get_str_literal("\"a\\tb\"", "path").unwrap(), "a\tb");
    assert_eq!(get_str_literal("r\"plain\\n\"", "path").unwrap(), "plain\\n");
    assert_eq!(get_str_literal("r#\"x\"y\"#", "path").unwrap(), "x\"y");
    assert_eq!(get_str_literal("r##\"\"##", "path").unwrap(), "");
}

#[test]
fn literal_errors() {
    assert_eq!(
        get_str_literal("42", "path").unwrap_err().msg,
        "template `path` must be a string literal"
    );
    assert_eq!(
        get_str_literal("r#x", "source").unwrap_err().msg,
        "template `source` must be a string literal, found `x`"
    );
    assert_eq!(
        get_str_literal("r#\"x\"", "path").unwrap_err().msg,
        "template `path` must be a string literal, found `\"x\"`"
    );
    assert_eq!(
        get_str_literal("r#\"x\"#a", "path").unwrap_err().msg,
        "template `path` must be a string literal, found `\"x\"#a`"
    );
}
