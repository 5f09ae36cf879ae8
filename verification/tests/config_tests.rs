use askama::config::{Config, General, RawConfig, RawEscaper, RawSyntax, WhitespaceHandling};
use askama::parse::Syntax;

const ROOT: &str = "/crate";

fn syntax(name: &str) -> RawSyntax {
    RawSyntax {
        name: name.to_string(),
        block_start: None,
        block_end: None,
        expr_start: None,
        expr_end: None,
        comment_start: None,
        comment_end: None,
    }
}

fn general(default_syntax: Option<&str>, whitespace: WhitespaceHandling) -> General {
    General {
        dirs: None,
        default_syntax: default_syntax.map(|s| s.to_string()),
        whitespace,
    }
}

fn s(x: &str) -> Option<String> {
    Some(x.to_string())
}

fn str_set(v: &[&str]) -> Vec<String> {
    v.iter().map(|x| x.to_string()).collect()
}

fn check_foo_bar(config: &Config) {
    let default_syntax = Syntax::default();
    assert_eq!(config.default_syntax, "foo");

    let foo = config.syntaxes.get("foo").unwrap();
    assert_eq!(foo.block_start, "{<");
    assert_eq!(foo.block_end, default_syntax.block_end);
    assert_eq!(foo.expr_start, default_syntax.expr_start);
    assert_eq!(foo.expr_end, default_syntax.expr_end);
    assert_eq!(foo.comment_start, default_syntax.comment_start);
    assert_eq!(foo.comment_end, default_syntax.comment_end);

    let bar = config.syntaxes.get("bar").unwrap();
    assert_eq!(bar.block_start, default_syntax.block_start);
    assert_eq!(bar.block_end, default_syntax.block_end);
    assert_eq!(bar.expr_start, "{!");
    assert_eq!(bar.expr_end, default_syntax.expr_end);
    assert_eq!(bar.comment_start, default_syntax.comment_start);
    assert_eq!(bar.comment_end, default_syntax.comment_end);
}

// [general] default_syntax = "foo"
// [[syntax]] name = "foo" block_start = "{<"
// [[syntax]] name = "bar" expr_start = "{!"
#[test]
fn add_syntax() {
    let mut foo = syntax("foo");
    foo.block_start = s("{<");
    let mut bar = syntax("bar");
    bar.expr_start = s("{!");
    let raw = RawConfig {
        general: Some(general(Some("foo"), WhitespaceHandling::Preserve)),
        syntax: Some(vec![foo, bar]),
        escaper: None,
    };
    let config = Config::new(raw, ROOT, None).unwrap();
    check_foo_bar(&config);
}

// syntax = [{ name = "foo", block_start = "{<" }, { name = "bar", expr_start = "{!" } ]
// [general] default_syntax = "foo"
#[test]
fn add_syntax_two() {
    let mut foo = syntax("foo");
    foo.block_start = s("{<");
    let mut bar = syntax("bar");
    bar.expr_start = s("{!");
    let raw = RawConfig {
        syntax: Some(vec![foo, bar]),
        general: Some(general(Some("foo"), WhitespaceHandling::Preserve)),
        escaper: None,
    };
    let config = Config::new(raw, ROOT, None).unwrap();
    check_foo_bar(&config);
}

#[test]
fn longer_delimiters() {
    let mut emoji = syntax("emoji");
    emoji.block_start = s("👉🙂👉");
    emoji.block_end = s("👈🙃👈");
    emoji.expr_start = s("🤜🤜");
    emoji.expr_end = s("🤛🤛");
    emoji.comment_start = s("👎_(ツ)_👎");
    emoji.comment_end = s("👍:D👍");
    let raw = RawConfig {
        syntax: Some(vec![emoji]),
        general: Some(general(Some("emoji"), WhitespaceHandling::Preserve)),
        escaper: None,
    };
    let config = Config::new(raw, ROOT, None).unwrap();
    assert_eq!(config.default_syntax, "emoji");

    let foo = config.syntaxes.get("emoji").unwrap();
    assert_eq!(foo.block_start, "👉🙂👉");
    assert_eq!(foo.block_end, "👈🙃👈");
    assert_eq!(foo.expr_start, "🤜🤜");
    assert_eq!(foo.expr_end, "🤛🤛");
    assert_eq!(foo.comment_start, "👎_(ツ)_👎");
    assert_eq!(foo.comment_end, "👍:D👍");
}

#[test]
fn illegal_delimiters() {
    let mut too_short = syntax("too_short");
    too_short.block_start = s("<");
    let raw = RawConfig { general: None, syntax: Some(vec![too_short]), escaper: None };
    let config = Config::new(raw, ROOT, None);
    assert_eq!(
        config.unwrap_err().msg,
        r#"delimiters must be at least two characters long: "<""#,
    );

    let mut contains_ws = syntax("contains_ws");
    contains_ws.block_start = s(" {{ ");
    let raw = RawConfig { general: None, syntax: Some(vec![contains_ws]), escaper: None };
    let config = Config::new(raw, ROOT, None);
    assert_eq!(
        config.unwrap_err().msg,
        r#"delimiters may not contain white spaces: " {{ ""#,
    );

    let mut is_prefix = syntax("is_prefix");
    is_prefix.block_start = s("{{");
    is_prefix.expr_start = s("{{$");
    is_prefix.comment_start = s("{{#");
    let raw = RawConfig { general: None, syntax: Some(vec![is_prefix]), escaper: None };
    let config = Config::new(raw, ROOT, None);
    assert_eq!(
        config.unwrap_err().msg,
        r#"a delimiter may not be the prefix of another delimiter: "{{" vs "{{$""#,
    );
}

#[test]
#[should_panic]
fn use_default_at_syntax_name() {
    let raw = RawConfig { general: None, syntax: Some(vec![syntax("default")]), escaper: None };
    let _config = Config::new(raw, ROOT, None).unwrap();
}

#[test]
#[should_panic]
fn duplicated_syntax_name_on_list() {
    let mut foo1 = syntax("foo");
    foo1.block_start = s("~<");
    let mut foo2 = syntax("foo");
    foo2.block_start = s("%%");
    let raw = RawConfig { general: None, syntax: Some(vec![foo1, foo2]), escaper: None };
    let _config = Config::new(raw, ROOT, None).unwrap();
}

#[test]
#[should_panic]
fn is_not_exist_default_syntax() {
    let raw = RawConfig {
        general: Some(general(Some("foo"), WhitespaceHandling::Preserve)),
        syntax: None,
        escaper: None,
    };
    let _config = Config::new(raw, ROOT, None).unwrap();
}

#[test]
fn escape_modes() {
    let raw = RawConfig {
        general: None,
        syntax: None,
        escaper: Some(vec![RawEscaper {
            path: "::askama::Js".to_string(),
            extensions: vec!["js".to_string()],
        }]),
    };
    let config = Config::new(raw, ROOT, None).unwrap();
    assert_eq!(
        config.escapers,
        vec![
            (str_set(&["js"]), "::askama::Js".into()),
            (str_set(&["html", "htm", "svg", "xml"]), "::askama::Html".into()),
            (str_set(&["md", "none", "txt", "yml", ""]), "::askama::Text".into()),
            (str_set(&["j2", "jinja", "jinja2"]), "::askama::Html".into()),
        ]
    );
}

#[test]
fn test_whitespace_parsing() {
    let raw = RawConfig {
        general: Some(general(None, WhitespaceHandling::Suppress)),
        syntax: None,
        escaper: None,
    };
    let config = Config::new(raw, ROOT, None).unwrap();
    assert_eq!(config.whitespace, WhitespaceHandling::Suppress);

    let config = Config::new(RawConfig::default(), ROOT, None).unwrap();
    assert_eq!(config.whitespace, WhitespaceHandling::Preserve);

    let raw = RawConfig {
        general: Some(general(None, WhitespaceHandling::Preserve)),
        syntax: None,
        escaper: None,
    };
    let config = Config::new(raw, ROOT, None).unwrap();
    assert_eq!(config.whitespace, WhitespaceHandling::Preserve);

    let raw = RawConfig {
        general: Some(general(None, WhitespaceHandling::Minimize)),
        syntax: None,
        escaper: None,
    };
    let config = Config::new(raw, ROOT, None).unwrap();
    assert_eq!(config.whitespace, WhitespaceHandling::Minimize);
}

#[test]
fn test_whitespace_in_template() {
    // The template's own setting has precedence over the configuration.
    let raw = RawConfig {
        general: Some(general(None, WhitespaceHandling::Suppress)),
        syntax: None,
        escaper: None,
    };
    let config = Config::new(raw, ROOT, Some(&"minimize".to_owned())).unwrap();
    assert_eq!(config.whitespace, WhitespaceHandling::Minimize);

    let config = Config::new(RawConfig::default(), ROOT, Some(&"minimize".to_owned())).unwrap();
    assert_eq!(config.whitespace, WhitespaceHandling::Minimize);
}

#[test]
fn test_config_whitespace_error() {
    let config = Config::new(RawConfig::default(), ROOT, Some("trim"));
    if let Err(err) = config {
        assert_eq!(err.msg, "invalid value for `whitespace`: \"trim\"");
    } else {
        panic!("Config::new should have return an error");
    }
}

#[test]
fn test_default_config() {
    let config = Config::new(RawConfig::default(), ROOT, None).unwrap();
    assert_eq!(config.dirs, vec!["/crate/templates".to_string()]);
}

#[test]
fn test_config_dirs() {
    let raw = RawConfig {
        general: Some(General {
            dirs: Some(vec!["tpl".to_string()]),
            default_syntax: None,
            whitespace: WhitespaceHandling::Preserve,
        }),
        syntax: None,
        escaper: None,
    };
    let config = Config::new(raw, ROOT, None).unwrap();
    assert_eq!(config.dirs, vec!["/crate/tpl".to_string()]);
}
