use askama::input::extension;

fn ext(p: &str) -> Option<String> {
    extension(p)
}

fn some(s: &str) -> Option<String> {
    Some(s.to_string())
}

#[test]
fn input_test_ext() {
    assert_eq!(ext("foo-bar.txt"), some("txt"));
    assert_eq!(ext("foo-bar.html"), some("html"));
    assert_eq!(ext("foo-bar.unknown"), some("unknown"));

    assert_eq!(ext("foo/bar/baz.txt"), some("txt"));
    assert_eq!(ext("foo/bar/baz.html"), some("html"));
    assert_eq!(ext("foo/bar/baz.unknown"), some("unknown"));
}

#[test]
fn input_test_double_ext() {
    assert_eq!(ext("foo-bar.html.txt"), some("txt"));
    assert_eq!(ext("foo-bar.txt.html"), some("html"));
    assert_eq!(ext("foo-bar.txt.unknown"), some("unknown"));

    assert_eq!(ext("foo/bar/baz.html.txt"), some("txt"));
    assert_eq!(ext("foo/bar/baz.txt.html"), some("html"));
    assert_eq!(ext("foo/bar/baz.txt.unknown"), some("unknown"));
}

#[test]
fn input_test_skip_jinja_ext() {
    assert_eq!(ext("foo-bar.html.j2"), some("html"));
    assert_eq!(ext("foo-bar.html.jinja"), some("html"));
    assert_eq!(ext("foo-bar.html.jinja2"), some("html"));

    assert_eq!(ext("foo/bar/baz.txt.j2"), some("txt"));
    assert_eq!(ext("foo/bar/baz.txt.jinja"), some("txt"));
    assert_eq!(ext("foo/bar/baz.txt.jinja2"), some("txt"));
}

#[test]
fn input_test_only_jinja_ext() {
    assert_eq!(ext("foo-bar.j2"), some("j2"));
    assert_eq!(ext("foo-bar.jinja"), some("jinja"));
    assert_eq!(ext("foo-bar.jinja2"), some("jinja2"));
}

#[test]
fn input_test_ext_svg() {
    assert_eq!(ext("foo-bar.svg"), some("svg"));
    assert_eq!(ext("foo/bar/baz.svg"), some("svg"));
}
