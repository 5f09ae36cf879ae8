use askama::escape::{escape, Html, Latex, MarkupDisplay, Text};
use askama::filters::{trim, truncate, urlencode, urlencode_strict};
use askama::generator::{LocalMeta, MapChain};
use askama::helpers::TemplateLoop;
use askama::parse::Syntax;

#[test]
fn html_escaping_in_pieces_equals_whole() {
    let a = "<a href='x'>";
    let b = "&\"b\"</a>";
    let whole = escape(&format!("{}{}", a, b), Html).render();
    let parts = format!("{}{}", escape(a, Html).render(), escape(b, Html).render());
    assert_eq!(whole, parts);
}

#[test]
fn html_escaped_has_no_markup() {
    let out = escape("<script>alert('x' + \"y\")</script>", Html).render();
    assert!(!out.contains('<') && !out.contains('>') && !out.contains('"') && !out.contains('\''));
    assert_eq!(escape("plain text", Html).render(), "plain text");
}

#[test]
fn latex_and_text_escaping() {
    assert_eq!(escape("a_b", Text).render(), "a_b");
    assert_eq!(escape("50% & $", Latex).render(), "50{\\char37} {\\char38} {\\textdollar}");
}

#[test]
fn mark_safe_renders_unchanged() {
    let m = MarkupDisplay::new_unsafe("<b>".to_string(), Html);
    assert_eq!(m.render(), "&lt;b&gt;");
    assert_eq!(m.mark_safe().render(), "<b>");
}

#[test]
fn urlencode_in_pieces_equals_whole() {
    let a = "a b/";
    let b = "ü?";
    assert_eq!(
        urlencode(&format!("{}{}", a, b)).unwrap(),
        format!("{}{}", urlencode(a).unwrap(), urlencode(b).unwrap())
    );
}

#[test]
fn split_ws_gives_back_the_text() {
    let l = askama::ast::Lit::split_ws_parts(" \n a b\t");
    assert_eq!(format!("{}{}{}", l.lws, l.val, l.rws), " \n a b\t");
    assert_eq!(l.val, "a b");
}

#[test]
fn trim_and_truncate() {
    assert_eq!(trim("\u{a0} x \u{2003}").unwrap(), "x");
    assert_eq!(truncate("hello", 10).unwrap(), "hello");
    assert_eq!(truncate("hello", 0).unwrap(), "...");
}

#[test]
fn default_syntax_delimiters() {
    let s = Syntax::default();
    assert_eq!(
        (s.block_start, s.block_end, s.expr_start, s.expr_end, s.comment_start, s.comment_end),
        ("{%".into(), "%}".into(), "{{".into(), "}}".into(), "{#".into(), "#}".into())
    );
}

#[test]
fn urlencode_output_is_uri_safe() {
    let out = urlencode("a/b c?d=é&\u{1F980}").unwrap();
    assert!(out
        .chars()
        .all(|c| c.is_ascii_alphanumeric() || "_.-~/%".contains(c)));
}

#[test]
fn trim_truncate_center_shapes() {
    assert_eq!(trim(" \t a b \n").unwrap(), "a b");
    let t = truncate("abcdef", 3).unwrap();
    assert!(t.starts_with("abc") && t.ends_with("..."));
    assert_eq!(askama::filters::center("ab", 6).unwrap().chars().count(), 6);
    assert_eq!(askama::filters::center("abcdef", 3).unwrap(), "abcdef");
}

#[test]
fn json_buffer_escapes_markup() {
    let mut b = askama::escape::JsonEscapeBuffer::new();
    b.write(b"{\"a\":\"<&'>\"}");
    assert_eq!(b.finish(), "{\"a\":\"\\u003c\\u0026\\u0027\\u003e\"}");
}

#[test]
fn strict_urlencoding_only_adds_slash() {
    for s in [":/?#[]@", "a/b c", "plain", "//"] {
        let plain = urlencode(s).unwrap();
        let strict = urlencode_strict(s).unwrap();
        assert_eq!(strict, plain.replace("/", "%2F"));
    }
}

#[test]
fn loop_positions_after_each_call() {
    let mut l = TemplateLoop::new(vec!['a', 'b', 'c']);
    for k in 0..3 {
        let (x, item) = l.next().unwrap();
        assert_eq!(x, ['a', 'b', 'c'][k]);
        assert_eq!(item.index, k);
        assert_eq!(item.first, k == 0);
        assert_eq!(item.last, k == 2);
    }
    assert!(l.next().is_none());
}

#[test]
fn closing_a_scope_restores_variables() {
    let mut m = MapChain::new();
    m.insert("a".to_string(), LocalMeta::initialized());
    let before = m.get("a").cloned();
    m.push();
    m.insert("a".to_string(), LocalMeta::with_ref("b".to_string()));
    m.insert_with_default("c".to_string());
    assert!(m.get("c").is_some());
    m.pop();
    assert_eq!(m.get("a").cloned(), before);
    assert!(m.get("c").is_none());
}
