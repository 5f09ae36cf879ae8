use askama::args::{AttrItem, AttrLit, AttrMeta, Attribute, TemplateArgs};
use askama::input::{Print, Source};

fn template(items: Vec<AttrItem>) -> Attribute {
    Attribute { name: Some("template".into()), meta: AttrMeta::List(items) }
}

fn pair(key: &str, value: &str) -> AttrItem {
    AttrItem::NameValue {
        key: Some(key.into()),
        key_debug: format!("Ident({})", key),
        lit: AttrLit::Str(value.into()),
    }
}

fn err(attrs: Vec<Attribute>) -> String {
    TemplateArgs::new(&attrs).unwrap_err().msg
}

#[test]
fn args_all_keys() {
    let attrs = vec![
        Attribute { name: Some("derive".into()), meta: AttrMeta::Other },
        template(vec![
            pair("path", "hello.html"),
            pair("print", "code"),
            pair("escape", "none"),
            pair("ext", "txt"),
            pair("syntax", "foo"),
            pair("config", "askama.toml"),
        ]),
    ];
    let args = TemplateArgs::new(&attrs).unwrap();
    assert_eq!(args.source, Some(Source::Path("hello.html".into())));
    assert_eq!(args.print, Print::Code);
    assert_eq!(args.escaping, Some("none".into()));
    assert_eq!(args.ext, Some("txt".into()));
    assert_eq!(args.syntax, Some("foo".into()));
    assert_eq!(args.config_path, Some("askama.toml".into()));
}

#[test]
fn args_source() {
    let args = TemplateArgs::new(&vec![template(vec![pair("source", "{{ a }}"), pair("ext", "html")])])
        .unwrap();
    assert_eq!(args.source, Some(Source::Source("{{ a }}".into())));
    assert_eq!(args.print, Print::Nothing);
}

#[test]
fn args_errors() {
    assert_eq!(err(vec![]), "no attribute 'template' found");
    assert_eq!(
        err(vec![template(vec![]), template(vec![])]),
        "duplicated 'template' attribute"
    );
    assert_eq!(
        err(vec![Attribute { name: Some("template".into()), meta: AttrMeta::Other }]),
        "'template' attribute must be a list"
    );
    assert_eq!(
        err(vec![Attribute { name: Some("template".into()), meta: AttrMeta::Invalid("bad".into()) }]),
        "unable to parse attribute: bad"
    );
    assert_eq!(
        err(vec![template(vec![pair("path", "a.html"), pair("source", "x")])]),
        "must specify 'source' or 'path', not both"
    );
    assert_eq!(
        err(vec![template(vec![pair("print", "everything")])]),
        "invalid value for print option: everything"
    );
    assert_eq!(
        err(vec![template(vec![pair("color", "red")])]),
        "unsupported attribute key Ident(color) found"
    );
    assert_eq!(
        err(vec![template(vec![AttrItem::Other("foo".into())])]),
        "unsupported attribute argument foo"
    );
    assert_eq!(
        err(vec![template(vec![AttrItem::NameValue {
            key: Some("ext".into()),
            key_debug: "ext".into(),
            lit: AttrLit::Other,
        }])]),
        "ext value must be string literal"
    );
}

#[test]
fn args_whitespace_key() {
    let args = TemplateArgs::new(&vec![template(vec![pair("path", "a.html"), pair("whitespace", "suppress")])])
        .unwrap();
    assert_eq!(args.whitespace, Some("suppress".into()));
    let attrs = vec![template(vec![AttrItem::NameValue {
        key: Some("whitespace".into()),
        key_debug: "Ident(whitespace)".to_string(),
        lit: AttrLit::Other,
    }])];
    assert_eq!(err(attrs), "whitespace value must be string literal");
}
