use askama::input::{ext_default_to_path, extension, extension_to_mime_type, Print};

#[test]
fn mime_types_of_text_get_a_charset() {
    assert_eq!(extension_to_mime_type("html"), "text/html; charset=utf-8");
    assert_eq!(extension_to_mime_type("txt"), "text/plain; charset=utf-8");
    assert_eq!(extension_to_mime_type("css"), "text/css; charset=utf-8");
    assert_eq!(extension_to_mime_type("png"), "image/png");
    assert_eq!(extension_to_mime_type(""), "application/octet-stream");
}

#[test]
fn print_modes() {
    assert_eq!(Print::from_str("all").unwrap(), Print::All);
    assert_eq!(Print::from_str("ast").unwrap(), Print::Ast);
    assert_eq!(Print::from_str("code").unwrap(), Print::Code);
    assert_eq!(Print::from_str("none").unwrap(), Print::Nothing);
    assert_eq!(
        Print::from_str("some").unwrap_err().msg,
        "invalid value for print option: some"
    );
    assert_eq!(Print::default(), Print::Nothing);
}

#[test]
fn extension_edge_cases() {
    assert_eq!(extension("foo"), None);
    assert_eq!(extension(".hidden"), None);
    assert_eq!(extension("dir.d/file"), None);
    assert_eq!(extension("a/b.txt/"), Some("txt".to_string()));
    assert_eq!(extension("a/b.txt/."), Some("txt".to_string()));
    assert_eq!(extension("a/.."), None);
    assert_eq!(extension("foo."), Some("".to_string()));
    assert_eq!(ext_default_to_path(Some("md"), "a.html"), Some("md".to_string()));
    assert_eq!(ext_default_to_path(None, "a.html"), Some("html".to_string()));
}
