use askama::args::TemplateArgs;
use askama::config::{Config, RawConfig};
use askama::derive_input::{Delimiter, DeriveInput, TokenTree};
use askama::input::{Print, Source};
use askama::template_input::TemplateInput;

fn item(name: &str) -> DeriveInput {
    DeriveInput::new(vec![
        TokenTree::Ident("struct".to_string()),
        TokenTree::Ident(name.to_string()),
        TokenTree::Group(Delimiter::Brace, vec![], "{}".to_string()),
    ])
}

fn existing() -> Vec<String> {
    vec![
        "/crate/templates/hello.html".to_string(),
        "/crate/templates/page.html.j2".to_string(),
        "/crate/templates/data.bin".to_string(),
    ]
}

fn config() -> Config {
    Config::new(RawConfig::default(), "/crate", None).unwrap()
}

fn args(source: Source, ext: Option<&str>) -> TemplateArgs {
    let mut a = TemplateArgs::default();
    a.source = Some(source);
    a.ext = ext.map(|e| e.to_string());
    a
}

#[test]
fn input_from_a_template_file() {
    let ast = item("Hello");
    let config = config();
    let a = args(Source::Path("hello.html".to_string()), None);
    let t = TemplateInput::new(&ast, &config, &a, &existing()).unwrap();
    assert_eq!(t.path, "/crate/templates/hello.html");
    assert_eq!(t.escaper, "::askama::Html");
    assert_eq!(t.mime_type, "text/html; charset=utf-8");
    assert_eq!(t.ext, None);
    assert_eq!(t.print, Print::Nothing);
    assert_eq!(t.extension().as_deref(), Some("html"));
}

#[test]
fn input_from_an_inline_source() {
    let ast = item("Inline");
    let config = config();
    let a = args(Source::Source("{{ x }}".to_string()), Some("txt"));
    let t = TemplateInput::new(&ast, &config, &a, &existing()).unwrap();
    assert_eq!(t.path, "Inline.txt");
    assert_eq!(t.escaper, "::askama::Text");
    assert_eq!(t.mime_type, "text/plain; charset=utf-8");
    assert_eq!(t.ext, Some("txt"));
}

#[test]
fn input_inline_source_without_ext() {
    let ast = item("Inline");
    let config = config();
    let a = args(Source::Source("x".to_string()), None);
    let e = TemplateInput::new(&ast, &config, &a, &existing()).err().unwrap();
    assert_eq!(e.msg, "must include 'ext' attribute when using 'source' attribute");
}

#[test]
fn input_jinja_file_is_escaped_as_html() {
    let ast = item("Page");
    let config = config();
    let a = args(Source::Path("page.html.j2".to_string()), None);
    let t = TemplateInput::new(&ast, &config, &a, &existing()).unwrap();
    assert_eq!(t.escaper, "::askama::Html");
    assert_eq!(t.mime_type, "text/html; charset=utf-8");
}

#[test]
fn input_unknown_syntax() {
    let ast = item("Hello");
    let config = config();
    let mut a = args(Source::Path("hello.html".to_string()), None);
    a.syntax = Some("mine".to_string());
    let e = TemplateInput::new(&ast, &config, &a, &existing()).err().unwrap();
    assert_eq!(e.msg, "attribute syntax mine not exist");
}

#[test]
fn input_no_escaper_for_extension() {
    let ast = item("Data");
    let config = config();
    let a = args(Source::Path("data.bin".to_string()), None);
    let e = TemplateInput::new(&ast, &config, &a, &existing()).err().unwrap();
    assert_eq!(e.msg, "no escaper defined for extension 'bin'");
}

#[test]
fn input_escape_attribute_overrides_extension() {
    let ast = item("Data");
    let config = config();
    let mut a = args(Source::Path("data.bin".to_string()), None);
    a.escaping = Some("txt".to_string());
    let t = TemplateInput::new(&ast, &config, &a, &existing()).unwrap();
    assert_eq!(t.escaper, "::askama::Text");
}

#[test]
fn input_missing_template_file() {
    let ast = item("Gone");
    let config = config();
    let a = args(Source::Path("gone.html".to_string()), None);
    let e = TemplateInput::new(&ast, &config, &a, &existing()).err().unwrap();
    assert!(e.msg.starts_with("template \"gone.html\" not found"));
}
