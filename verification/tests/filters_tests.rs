use askama::filters::{
    capitalize, center, indent, join, linebreaks, linebreaksbr, lower, paragraphbreaks, title, trim,
    truncate, upper, urlencode, urlencode_strict, wordcount,
};

fn strings(v: &[&str]) -> Vec<String> {
    v.iter().map(|s| s.to_string()).collect()
}

#[test]
fn test_urlencoding() {
    // Unreserved (https://tools.ietf.org/html/rfc3986.html#section-2.3)
    // alpha / digit
    assert_eq!(urlencode("AZaz09").unwrap().to_string(), "AZaz09");
    assert_eq!(urlencode_strict("AZaz09").unwrap().to_string(), "AZaz09");
    // other
    assert_eq!(urlencode("_.-~").unwrap().to_string(), "_.-~");
    assert_eq!(urlencode_strict("_.-~").unwrap().to_string(), "_.-~");

    // Reserved (https://tools.ietf.org/html/rfc3986.html#section-2.2)
    // gen-delims
    assert_eq!(
        urlencode(":/?#[]@").unwrap().to_string(),
        "%3A/%3F%23%5B%5D%40"
    );
    assert_eq!(
        urlencode_strict(":/?#[]@").unwrap().to_string(),
        "%3A%2F%3F%23%5B%5D%40"
    );
    // sub-delims
    assert_eq!(
        urlencode("!$&'()*+,;=").unwrap().to_string(),
        "%21%24%26%27%28%29%2A%2B%2C%3B%3D"
    );
    assert_eq!(
        urlencode_strict("!$&'()*+,;=").unwrap().to_string(),
        "%21%24%26%27%28%29%2A%2B%2C%3B%3D"
    );

    // Other
    assert_eq!(
        urlencode("žŠďŤňĚáÉóŮ").unwrap().to_string(),
        "%C5%BE%C5%A0%C4%8F%C5%A4%C5%88%C4%9A%C3%A1%C3%89%C3%B3%C5%AE"
    );
    assert_eq!(
        urlencode_strict("žŠďŤňĚáÉóŮ").unwrap().to_string(),
        "%C5%BE%C5%A0%C4%8F%C5%A4%C5%88%C4%9A%C3%A1%C3%89%C3%B3%C5%AE"
    );

    // Ferris
    assert_eq!(urlencode("🦀").unwrap().to_string(), "%F0%9F%A6%80");
    assert_eq!(urlencode_strict("🦀").unwrap().to_string(), "%F0%9F%A6%80");
}

#[test]
fn test_linebreaks() {
    assert_eq!(
        linebreaks("Foo\nBar Baz").unwrap().to_string(),
        "<p>Foo<br/>Bar Baz</p>"
    );
    assert_eq!(
        linebreaks("Foo\nBar\n\nBaz").unwrap().to_string(),
        "<p>Foo<br/>Bar</p><p>Baz</p>"
    );
}

#[test]
fn test_linebreaksbr() {
    assert_eq!(linebreaksbr("Foo\nBar").unwrap().to_string(), "Foo<br/>Bar");
    assert_eq!(
        linebreaksbr("Foo\nBar\n\nBaz").unwrap().to_string(),
        "Foo<br/>Bar<br/><br/>Baz"
    );
}

#[test]
fn test_paragraphbreaks() {
    assert_eq!(
        paragraphbreaks("Foo\nBar Baz").unwrap().to_string(),
        "<p>Foo\nBar Baz</p>"
    );
    assert_eq!(
        paragraphbreaks("Foo\nBar\n\nBaz").unwrap().to_string(),
        "<p>Foo\nBar</p><p>Baz</p>"
    );
    assert_eq!(
        paragraphbreaks("Foo\n\n\n\n\nBar\n\nBaz")
            .unwrap()
            .to_string(),
        "<p>Foo</p><p>\nBar</p><p>Baz</p>"
    );
}

#[test]
fn mod_test_lower() {
    assert_eq!(lower("Foo").unwrap().to_string(), "foo");
    assert_eq!(lower("FOO").unwrap().to_string(), "foo");
    assert_eq!(lower("FooBar").unwrap().to_string(), "foobar");
    assert_eq!(lower("foo").unwrap().to_string(), "foo");
}

#[test]
fn mod_test_upper() {
    assert_eq!(upper("Foo").unwrap().to_string(), "FOO");
    assert_eq!(upper("FOO").unwrap().to_string(), "FOO");
    assert_eq!(upper("FooBar").unwrap().to_string(), "FOOBAR");
    assert_eq!(upper("foo").unwrap().to_string(), "FOO");
}

#[test]
fn mod_test_trim() {
    assert_eq!(trim(" Hello\tworld\t").unwrap().to_string(), "Hello\tworld");
}

#[test]
fn test_truncate() {
    assert_eq!(truncate("hello", 2).unwrap().to_string(), "he...");
    let a = String::from("您好");
    assert_eq!(a.len(), 6);
    assert_eq!(String::from("您").len(), 3);
    assert_eq!(truncate("您好", 1).unwrap().to_string(), "您...");
    assert_eq!(truncate("您好", 2).unwrap().to_string(), "您...");
    assert_eq!(truncate("您好", 3).unwrap().to_string(), "您...");
    assert_eq!(truncate("您好", 4).unwrap().to_string(), "您好");
    assert_eq!(truncate("您好", 5).unwrap().to_string(), "您好");
    assert_eq!(truncate("您好", 6).unwrap().to_string(), "您好");
    assert_eq!(truncate("您好", 7).unwrap().to_string(), "您好");
    let s = String::from("🤚a🤚");
    assert_eq!(s.len(), 9);
    assert_eq!(String::from("🤚").len(), 4);
    assert_eq!(truncate("🤚a🤚", 1).unwrap().to_string(), "🤚...");
    assert_eq!(truncate("🤚a🤚", 2).unwrap().to_string(), "🤚...");
    assert_eq!(truncate("🤚a🤚", 3).unwrap().to_string(), "🤚...");
    assert_eq!(truncate("🤚a🤚", 4).unwrap().to_string(), "🤚...");
    assert_eq!(truncate("🤚a🤚", 5).unwrap().to_string(), "🤚a...");
    assert_eq!(truncate("🤚a🤚", 6).unwrap().to_string(), "🤚a🤚");
    assert_eq!(truncate("🤚a🤚", 6).unwrap().to_string(), "🤚a🤚");
    assert_eq!(truncate("🤚a🤚", 7).unwrap().to_string(), "🤚a🤚");
    assert_eq!(truncate("🤚a🤚", 8).unwrap().to_string(), "🤚a🤚");
    assert_eq!(truncate("🤚a🤚", 9).unwrap().to_string(), "🤚a🤚");
    assert_eq!(truncate("🤚a🤚", 10).unwrap().to_string(), "🤚a🤚");
}

#[test]
fn test_indent() {
    assert_eq!(indent("hello", 2).unwrap().to_string(), "hello");
    assert_eq!(indent("hello\n", 2).unwrap().to_string(), "hello\n");
    assert_eq!(indent("hello\nfoo", 2).unwrap().to_string(), "hello\n  foo");
    assert_eq!(
        indent("hello\nfoo\n bar", 4).unwrap().to_string(),
        "hello\n    foo\n     bar"
    );
    assert_eq!(
        indent("hello", 267_332_238_858).unwrap().to_string(),
        "hello"
    );
}



#[test]
fn test_join() {
    assert_eq!(
        join(&strings(&["hello", "world"]), ", ")
            .unwrap()
            .to_string(),
        "hello, world"
    );
    assert_eq!(
        join(&strings(&["hello"]), ", ").unwrap().to_string(),
        "hello"
    );

    let empty: &[&str] = &[];
    assert_eq!(join(&strings(empty), ", ").unwrap().to_string(), "");

    let input: Vec<String> = vec!["foo".into(), "bar".into(), "bazz".into()];
    assert_eq!(join(&input, ":").unwrap().to_string(), "foo:bar:bazz");

    let input: &[String] = &["foo".into(), "bar".into()];
    assert_eq!(join(&input.to_vec(), ":").unwrap().to_string(), "foo:bar");

    let real: String = "blah".into();
    let input: Vec<&str> = vec![&real];
    assert_eq!(join(&strings(&input), ";").unwrap().to_string(), "blah");

    assert_eq!(
        join(&strings(&["foo", "bar"]), ", ")
            .unwrap()
            .to_string(),
        "foo, bar"
    );
}

#[test]
fn test_capitalize() {
    assert_eq!(capitalize("foo").unwrap().to_string(), "Foo".to_string());
    assert_eq!(capitalize("f").unwrap().to_string(), "F".to_string());
    assert_eq!(capitalize("fO").unwrap().to_string(), "Fo".to_string());
    assert_eq!(capitalize("").unwrap().to_string(), "".to_string());
    assert_eq!(capitalize("FoO").unwrap().to_string(), "Foo".to_string());
    assert_eq!(
        capitalize("foO BAR").unwrap().to_string(),
        "Foo bar".to_string()
    );
    assert_eq!(
        capitalize("äØÄÅÖ").unwrap().to_string(),
        "Äøäåö".to_string()
    );
    assert_eq!(capitalize("ß").unwrap().to_string(), "SS".to_string());
    assert_eq!(capitalize("ßß").unwrap().to_string(), "SSß".to_string());
}

#[test]
fn test_center() {
    assert_eq!(center("f", 3).unwrap().to_string(), " f ".to_string());
    assert_eq!(center("f", 4).unwrap().to_string(), " f  ".to_string());
    assert_eq!(center("foo", 1).unwrap().to_string(), "foo".to_string());
    assert_eq!(
        center("foo bar", 8).unwrap().to_string(),
        "foo bar ".to_string()
    );
    assert_eq!(
        center("foo", 111_669_149_696).unwrap().to_string(),
        "foo".to_string()
    );
}

#[test]
fn test_wordcount() {
    assert_eq!(wordcount("").unwrap(), 0);
    assert_eq!(wordcount(" \n\t").unwrap(), 0);
    assert_eq!(wordcount("foo").unwrap(), 1);
    assert_eq!(wordcount("foo bar").unwrap(), 2);
    assert_eq!(wordcount("foo  bar").unwrap(), 2);
}

#[test]
fn test_title() {
    assert_eq!(&title("").unwrap(), "");
    assert_eq!(&title(" \n\t").unwrap(), " \n\t");
    assert_eq!(&title("foo").unwrap(), "Foo");
    assert_eq!(&title(" foo").unwrap(), " Foo");
    assert_eq!(&title("foo bar").unwrap(), "Foo Bar");
    assert_eq!(&title("foo  bar ").unwrap(), "Foo  Bar ");
    assert_eq!(&title("fOO").unwrap(), "Foo");
    assert_eq!(&title("fOo BaR").unwrap(), "Foo Bar");
}
