use askama::ast::Expr;
use askama::config::{Config, RawConfig};
use askama::heritage::Context;
use askama::macro_call::{bind_macro_args, find_macro};
use askama::parse::{Ast, Syntax};

fn num(n: &str) -> Expr {
    Expr::NumLit(n.to_string())
}

fn named(name: &str, n: &str) -> Expr {
    Expr::NamedArgument(name.to_string(), Box::new(num(n)))
}

fn params(names: &[&str]) -> Vec<String> {
    names.iter().map(|s| s.to_string()).collect()
}

#[test]
fn macro_args_positional() {
    let r = bind_macro_args("f", &params(&["a", "b"]), &vec![num("1"), num("2")]).unwrap();
    assert_eq!(r, vec![0, 1]);
}

#[test]
fn macro_args_named_in_any_order() {
    let args = vec![num("1"), named("c", "3"), named("b", "2")];
    let r = bind_macro_args("f", &params(&["a", "b", "c"]), &args).unwrap();
    assert_eq!(r, vec![0, 2, 1]);
}

#[test]
fn macro_args_wrong_count() {
    let e = bind_macro_args("f", &params(&["a"]), &vec![num("1"), num("2")]).err().unwrap();
    assert_eq!(e.msg, "macro \"f\" expected 1 argument, found 2");
    let e = bind_macro_args("f", &params(&["a", "b"]), &vec![num("1")]).err().unwrap();
    assert_eq!(e.msg, "macro \"f\" expected 2 arguments, found 1");
}

#[test]
fn macro_args_unknown_name() {
    let e = bind_macro_args("f", &params(&["a", "b"]), &vec![num("1"), named("z", "2")])
        .err()
        .unwrap();
    assert_eq!(e.msg, "no argument named `z` in macro \"f\"");
}

#[test]
fn macro_args_positional_after_named() {
    let args = vec![num("1"), num("2"), named("a", "3")];
    let e = bind_macro_args("f", &params(&["a", "b", "c"]), &args).err().unwrap();
    assert_eq!(e.msg, "cannot have unnamed argument (`b`) after named argument in macro \"f\"");
}

const ROOT: &str = "/crate";

fn existing() -> Vec<String> {
    vec![
        "/crate/templates/a.html".to_string(),
        "/crate/templates/b.html".to_string(),
    ]
}

fn config() -> Config {
    Config::new(RawConfig::default(), ROOT, None).unwrap()
}

fn parse(src: &str) -> Ast {
    Ast::from_str(src, None, &Syntax::default()).unwrap()
}

#[test]
fn macro_found_in_own_template() {
    let ast = parse("{% macro hello(x) %}hi{% endmacro %}");
    let config = config();
    let ctx = Context::new(&config, "/crate/templates/a.html", &ast.nodes, &existing()).unwrap();
    let contexts: Vec<(String, Context)> = Vec::new();
    let (m, c) = find_macro(&ctx, &contexts, None, "hello").unwrap();
    assert_eq!(m.name, "hello");
    assert_eq!(m.args, vec!["x".to_string()]);
    assert_eq!(c.path.as_deref(), Some("/crate/templates/a.html"));
    let e = find_macro(&ctx, &contexts, None, "bye").err().unwrap();
    assert_eq!(e.msg, "macro \"bye\" not found");
}

#[test]
fn macro_found_through_import() {
    let lib = parse("{% macro hello() %}hi{% endmacro %}");
    let main = parse("{% import \"b.html\" as m %}");
    let config = config();
    let ctx = Context::new(&config, "/crate/templates/a.html", &main.nodes, &existing()).unwrap();
    let e = find_macro(&ctx, &Vec::new(), Some("m"), "hello").err().unwrap();
    assert_eq!(e.msg, "context for \"/crate/templates/b.html\" not found");
    let lib_ctx = Context::new(&config, "/crate/templates/b.html", &lib.nodes, &existing()).unwrap();
    let contexts = vec![("/crate/templates/b.html".to_string(), lib_ctx)];
    let (m, c) = find_macro(&ctx, &contexts, Some("m"), "hello").unwrap();
    assert_eq!(m.name, "hello");
    assert_eq!(c.path.as_deref(), Some("/crate/templates/b.html"));
    let e = find_macro(&ctx, &contexts, Some("m"), "bye").err().unwrap();
    assert_eq!(e.msg, "macro \"bye\" not found in scope \"m\"");
    let e = find_macro(&ctx, &contexts, Some("n"), "hello").err().unwrap();
    assert_eq!(e.msg, "no import found for scope \"n\"");
}
