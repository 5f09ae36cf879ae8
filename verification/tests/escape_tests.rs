use askama::escape::{escape, Html};

#[test]
fn lib_test_escape() {
    assert_eq!(escape("", Html).render(), "");
    assert_eq!(escape("<&>", Html).render(), "&lt;&amp;&gt;");
    assert_eq!(escape("bla&", Html).render(), "bla&amp;");
    assert_eq!(escape("<foo", Html).render(), "&lt;foo");
    assert_eq!(escape("bla&h", Html).render(), "bla&amp;h");
}

#[test]
fn html_escapes_slash_and_backslash() {
    assert_eq!(escape("a/b\\c", Html).render(), "a&#x2f;b&#x5c;c");
    assert_eq!(escape("</script>", Html).render(), "&lt;&#x2f;script&gt;");
    assert_eq!(escape("'\"", Html).render(), "&#x27;&quot;");
}
