use askama::lex::{char_lit_exec, num_lit_exec};

fn chars(s: &str) -> Vec<char> {
    s.chars().collect()
}

/// The literal and what follows it, as the parser's `(rest, literal)` pair.
fn num(s: &str) -> Result<(String, String), ()> {
    let v = chars(s);
    match num_lit_exec(&v, 0) {
        Some(e) => Ok((v[e..].iter().collect(), v[..e].iter().collect())),
        None => Err(()),
    }
}

/// The rest after a character literal and the literal's body.
fn chr(s: &str) -> Result<(String, String), ()> {
    let v = chars(s);
    match char_lit_exec(&v, 0) {
        Ok((i, e)) => Ok((v[i..].iter().collect(), v[1..e].iter().collect())),
        Err(_) => Err(()),
    }
}

fn pair(a: &str, b: &str) -> (String, String) {
    (a.to_string(), b.to_string())
}

#[test]
fn test_num_lit() {
    // Should fail.
    assert!(num(".").is_err());
    // Should succeed.
    assert_eq!(num("1.2E-02").unwrap(), pair("", "1.2E-02"));
    // Not supported (because rust want a number before the `.`).
    assert!(num(".1").is_err());
    assert!(num(".1E-02").is_err());
    // Not supported (voluntarily because of `1..` syntax).
    assert_eq!(num("1.").unwrap(), pair(".", "1"));
    assert_eq!(num("1_.").unwrap(), pair(".", "1_"));
    assert_eq!(num("1_2.").unwrap(), pair(".", "1_2"));
}

#[test]
fn test_char_lit() {
    assert_eq!(chr("'a'").unwrap(), pair("", "a"));
    assert_eq!(chr("'字'").unwrap(), pair("", "字"));

    // Escaped single characters.
    assert_eq!(chr("'\\\"'").unwrap(), pair("", "\\\""));
    assert_eq!(chr("'\\''").unwrap(), pair("", "\\'"));
    assert_eq!(chr("'\\t'").unwrap(), pair("", "\\t"));
    assert_eq!(chr("'\\n'").unwrap(), pair("", "\\n"));
    assert_eq!(chr("'\\r'").unwrap(), pair("", "\\r"));
    assert_eq!(chr("'\\0'").unwrap(), pair("", "\\0"));
    // Escaped ascii characters (up to `0x7F`).
    assert_eq!(chr("'\\x12'").unwrap(), pair("", "\\x12"));
    assert_eq!(chr("'\\x02'").unwrap(), pair("", "\\x02"));
    assert_eq!(chr("'\\x6a'").unwrap(), pair("", "\\x6a"));
    assert_eq!(chr("'\\x7F'").unwrap(), pair("", "\\x7F"));
    // Escaped unicode characters (up to `0x10FFFF`).
    assert_eq!(chr("'\\u{A}'").unwrap(), pair("", "\\u{A}"));
    assert_eq!(chr("'\\u{10}'").unwrap(), pair("", "\\u{10}"));
    assert_eq!(chr("'\\u{aa}'").unwrap(), pair("", "\\u{aa}"));
    assert_eq!(chr("'\\u{10FFFF}'").unwrap(), pair("", "\\u{10FFFF}"));

    // Should fail.
    assert!(chr("''").is_err());
    assert!(chr("'\\o'").is_err());
    assert!(chr("'\\x'").is_err());
    assert!(chr("'\\x1'").is_err());
    assert!(chr("'\\x80'").is_err());
    assert!(chr("'\\u'").is_err());
    assert!(chr("'\\u{}'").is_err());
    assert!(chr("'\\u{110000}'").is_err());
}
