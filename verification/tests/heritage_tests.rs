use askama::config::{Config, RawConfig};
use askama::heritage::{Context, Heritage};
use askama::parse::{Ast, Syntax};

const ROOT: &str = "/crate";

fn existing() -> Vec<String> {
    vec![
        "/crate/templates/a.html".to_string(),
        "/crate/templates/sub/b.html".to_string(),
        "/crate/templates/sub/c.html".to_string(),
    ]
}

fn config() -> Config {
    Config::new(RawConfig::default(), ROOT, None).unwrap()
}

fn parse(src: &str) -> Ast {
    Ast::from_str(src, None, &Syntax::default()).unwrap()
}

#[test]
fn context_collects_declarations() {
    let ast = parse(
        "{% extends \"a.html\" %}\
         {% import \"b.html\" as m %}\
         {% macro hello() %}hi{% endmacro %}\
         {% block content %}x{% block inner %}y{% endblock %}{% endblock %}",
    );
    let config = config();
    let ctx = Context::new(&config, "/crate/templates/sub/c.html", &ast.nodes, &existing()).unwrap();
    assert_eq!(ctx.extends.as_deref(), Some("/crate/templates/a.html"));
    assert_eq!(ctx.imports, vec![("m".to_string(), "/crate/templates/sub/b.html".to_string())]);
    assert_eq!(ctx.macros.len(), 1);
    assert_eq!(ctx.macros[0].0, "hello");
    let names: Vec<&str> = ctx.blocks.iter().map(|(n, _)| n.as_str()).collect();
    assert_eq!(names, vec!["content", "inner"]);
    assert_eq!(ctx.path.as_deref(), Some("/crate/templates/sub/c.html"));
    assert_eq!(ctx.nodes.len(), ast.nodes.len());
}

#[test]
fn context_blocks_in_branches_and_loops() {
    let ast = parse(
        "{% if a %}{% block one %}{% endblock %}{% else %}{% block two %}{% endblock %}{% endif %}\
         {% for x in xs %}{% block three %}{% endblock %}{% else %}{% block four %}{% endblock %}{% endfor %}",
    );
    let config = config();
    let ctx = Context::new(&config, "/crate/templates/a.html", &ast.nodes, &existing()).unwrap();
    // The loop's lists come first (the last node's), its `else` part before
    // its body; then the branches of the `if`, the last one first.
    let names: Vec<&str> = ctx.blocks.iter().map(|(n, _)| n.as_str()).collect();
    assert_eq!(names, vec!["four", "three", "two", "one"]);
    assert_eq!(ctx.extends, None);
}

#[test]
fn context_rejects_nested_extends() {
    let ast = parse("{% block b %}{% extends \"a.html\" %}{% endblock %}");
    let config = config();
    let err = Context::new(&config, "/crate/templates/a.html", &ast.nodes, &existing())
        .err()
        .unwrap();
    assert_eq!(err.msg, "extends, macro or import blocks not allowed below top level");
}

#[test]
fn context_rejects_nested_import() {
    let ast = parse("{% if x %}{% import \"a.html\" as m %}{% endif %}");
    let config = config();
    let err = Context::new(&config, "/crate/templates/a.html", &ast.nodes, &existing())
        .err()
        .unwrap();
    assert_eq!(err.msg, "extends, macro or import blocks not allowed below top level");
}

#[test]
fn context_rejects_second_extends() {
    let ast = parse("{% extends \"a.html\" %}{% extends \"a.html\" %}");
    let config = config();
    let err = Context::new(&config, "/crate/templates/sub/c.html", &ast.nodes, &existing())
        .err()
        .unwrap();
    assert_eq!(err.msg, "multiple extend blocks found");
}

#[test]
fn context_missing_parent() {
    let ast = parse("{% extends \"zzz.html\" %}");
    let config = config();
    let err = Context::new(&config, "/crate/templates/a.html", &ast.nodes, &existing())
        .err()
        .unwrap();
    assert_eq!(err.msg, "template \"zzz.html\" not found in directories [\"/crate/templates\"]");
}

#[test]
fn context_empty() {
    let ctx = Context::empty();
    assert!(ctx.nodes.is_empty());
    assert!(ctx.blocks.is_empty() && ctx.macros.is_empty() && ctx.imports.is_empty());
    assert_eq!(ctx.extends, None);
    assert_eq!(ctx.path, None);
}

#[test]
fn heritage_chains_blocks_from_child_to_root() {
    let config = config();
    let base_ast = parse("{% block title %}B{% endblock %}{% block body %}{% endblock %}");
    let child_ast = parse("{% extends \"a.html\" %}{% block title %}C{% endblock %}");
    let base = Context::new(&config, "/crate/templates/a.html", &base_ast.nodes, &existing()).unwrap();
    let child =
        Context::new(&config, "/crate/templates/sub/c.html", &child_ast.nodes, &existing()).unwrap();
    let contexts = vec![
        ("/crate/templates/a.html".to_string(), base),
        ("/crate/templates/sub/c.html".to_string(), child),
    ];
    let h = Heritage::new(&contexts[1].1, &contexts);
    assert_eq!(h.root.path.as_deref(), Some("/crate/templates/a.html"));
    let names: Vec<&str> = h.blocks.iter().map(|(n, _)| n.as_str()).collect();
    assert_eq!(names, vec!["title", "body"]);
    let title = &h.blocks[0].1;
    assert_eq!(title.len(), 2);
    assert_eq!(title[0].0.path.as_deref(), Some("/crate/templates/sub/c.html"));
    assert_eq!(title[1].0.path.as_deref(), Some("/crate/templates/a.html"));
    assert_eq!(title[0].1.name, "title");
    let body = &h.blocks[1].1;
    assert_eq!(body.len(), 1);
    assert_eq!(body[0].0.path.as_deref(), Some("/crate/templates/a.html"));
}

#[test]
fn heritage_of_a_root_template() {
    let config = config();
    let ast = parse("{% block a %}{% endblock %}{% block a %}x{% endblock %}");
    let ctx = Context::new(&config, "/crate/templates/a.html", &ast.nodes, &existing()).unwrap();
    let contexts = vec![("/crate/templates/a.html".to_string(), ctx)];
    let h = Heritage::new(&contexts[0].1, &contexts);
    assert_eq!(h.root.path.as_deref(), Some("/crate/templates/a.html"));
    assert_eq!(h.blocks.len(), 1);
    assert_eq!(h.blocks[0].1.len(), 1);
    assert_eq!(h.blocks[0].1[0].1.nodes.len(), 1);
}
