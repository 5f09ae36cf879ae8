use askama::simple_filters::{escape, lower, trim, upper};

#[test]
fn filters_test_escape() {
    assert_eq!(escape(&""), "");
    assert_eq!(escape(&"<&>"), "&lt;&amp;&gt;");
    assert_eq!(escape(&"bla&"), "bla&amp;");
    assert_eq!(escape(&"<foo"), "&lt;foo");
}

#[test]
fn filters_test_lower() {
    assert_eq!(lower(&"Foo"), "foo");
    assert_eq!(lower(&"FOO"), "foo");
    assert_eq!(lower(&"FooBar"), "foobar");
    assert_eq!(lower(&"foo"), "foo");
}

#[test]
fn filters_test_upper() {
    assert_eq!(upper(&"Foo"), "FOO");
    assert_eq!(upper(&"FOO"), "FOO");
    assert_eq!(upper(&"FooBar"), "FOOBAR");
    assert_eq!(upper(&"foo"), "FOO");
}

#[test]
fn filters_test_trim() {
    assert_eq!(trim(&" Hello\tworld\t"), "Hello\tworld");
}
