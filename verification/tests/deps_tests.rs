use askama::deps::{record_extends, template_references, RefKind, Reference, UsedTemplates};
use askama::parse::{Ast, Syntax};

fn refs(src: &str) -> Vec<(RefKind, String)> {
    let ast = Ast::from_str(src, None, &Syntax::default()).unwrap();
    template_references(&ast.nodes)
        .into_iter()
        .map(|Reference { kind, path }| (kind, path))
        .collect()
}

#[test]
fn references_in_lookup_order() {
    let src = "{% extends \"base.html\" %}\
               {% import \"macros.html\" as m %}\
               {% block a %}{% include \"a1.html\" %}{% endblock %}\
               {% block b %}{% include \"b1.html\" %}{% if x %}{% include \"b2.html\" %}{% endif %}{% endblock %}\
               {% include \"top.html\" %}";
    assert_eq!(
        refs(src),
        vec![
            (RefKind::Extends, "base.html".to_string()),
            (RefKind::Import, "macros.html".to_string()),
            (RefKind::Include, "top.html".to_string()),
            (RefKind::Include, "b1.html".to_string()),
            (RefKind::Include, "b2.html".to_string()),
            (RefKind::Include, "a1.html".to_string()),
        ]
    );
}

#[test]
fn nested_extends_and_imports_do_not_count() {
    let src = "{% block a %}{% include \"x.html\" %}{% endblock %}";
    assert_eq!(refs(src), vec![(RefKind::Include, "x.html".to_string())]);
    let src = "{% macro m() %}{% include \"in_macro.html\" %}{% endmacro %}";
    assert_eq!(refs(src), vec![(RefKind::Include, "in_macro.html".to_string())]);
    let src = "{% for x in y %}{% include \"body.html\" %}{% else %}{% include \"else.html\" %}{% endfor %}";
    assert_eq!(
        refs(src),
        vec![
            (RefKind::Include, "else.html".to_string()),
            (RefKind::Include, "body.html".to_string()),
        ]
    );
}

#[test]
fn extends_cycle_is_reported() {
    let mut graph = Vec::new();
    assert!(record_extends(&mut graph, "a.html", "b.html").is_ok());
    assert!(record_extends(&mut graph, "b.html", "a.html").is_ok());
    let err = record_extends(&mut graph, "a.html", "b.html").unwrap_err();
    assert_eq!(
        err.msg,
        "cyclic dependency in graph [\n    \"\\\"a.html\\\" --> \\\"b.html\\\"\",\n    \"\\\"b.html\\\" --> \\\"a.html\\\"\",\n]"
    );
    assert_eq!(graph.len(), 2);
}

#[test]
fn used_templates_each_once() {
    let mut w = UsedTemplates::new("root.html".to_string(), "src".to_string());
    assert!(w.wants("a.html"));
    w.add("a.html".to_string(), "a".to_string());
    assert!(!w.wants("a.html"));
    let (p, s) = w.next().unwrap();
    assert_eq!((p.as_str(), s.as_str()), ("a.html", "a"));
    let (p, _) = w.next().unwrap();
    assert_eq!(p, "root.html");
    assert!(w.next().is_none());
}
