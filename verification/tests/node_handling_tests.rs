use askama::ast::{Lit, Node, Ws};
use askama::config::{Config, RawConfig, WhitespaceHandling};
use askama::generator::Buffer;
use askama::heritage::Context;
use askama::node_handling::AstLevel;
use askama::parse::{Ast, Syntax};
use askama::writables::Generator;

fn parse(src: &str) -> Vec<Node> {
    Ast::from_str(src, None, &Syntax::default()).unwrap().nodes
}

fn config() -> Config {
    Config::new(RawConfig::default(), "/crate", None).unwrap()
}

fn files() -> Vec<String> {
    vec!["/crate/templates/a.html".to_string()]
}

fn context<'a>(config: &Config, nodes: &'a [Node]) -> Context<'a> {
    Context::new(config, "/crate/templates/a.html", nodes, &files()).unwrap()
}

#[test]
fn handle_literals_and_expressions() {
    let nodes = parse("Hello, {{ name }}!");
    let cfg = config();
    let ctx = context(&cfg, &nodes);
    let contexts: Vec<(String, Context)> = Vec::new();
    let mut g = Generator::new(WhitespaceHandling::Preserve);
    let mut buf = Buffer::new(0);
    let codes = vec![("self.name".to_string(), false)];
    let size = g
        .handle(&ctx, &contexts, &nodes, &mut buf, AstLevel::Top, &codes, "::askama::Html", 8)
        .unwrap();
    assert_eq!(size, 7 + 3 + 1);
    assert_eq!(
        buf.buf,
        "::std::write!(\n    writer,\n    \"Hello, {expr0}!\",\n    \
         expr0 = &::askama::MarkupDisplay::new_unsafe(&(self.name), ::askama::Html),\n)?;\n"
    );
}

#[test]
fn handle_break_writes_out_first() {
    let nodes = vec![
        Node::Lit(Lit { lws: String::new(), val: "a".to_string(), rws: String::new() }),
        Node::Break(Ws(None, None)),
    ];
    let cfg = config();
    let ctx = context(&cfg, &nodes);
    let contexts: Vec<(String, Context)> = Vec::new();
    let mut buf = Buffer::new(1);
    let mut g = Generator::new(WhitespaceHandling::Preserve);
    let size = g.handle(&ctx, &contexts, &nodes, &mut buf, AstLevel::Nested, &vec![], "E", 8).unwrap();
    assert_eq!(size, 0);
    assert_eq!(buf.buf, "    writer.write_str(\"a\")?;\n    break;\n");
}

#[test]
fn handle_top_level_only_tags() {
    let cfg = config();
    let contexts: Vec<(String, Context)> = Vec::new();
    let n1 = parse("{% import \"a.html\" as a %}");
    let c1 = context(&cfg, &n1);
    let mut g = Generator::new(WhitespaceHandling::Preserve);
    let mut buf = Buffer::new(0);
    let e = g.handle(&c1, &contexts, &n1, &mut buf, AstLevel::Nested, &vec![], "E", 8).err().unwrap();
    assert_eq!(e.msg, "import blocks only allowed at the top level");
    let n2 = parse("{% macro m() %}{% endmacro %}");
    let c2 = context(&cfg, &n2);
    let mut g = Generator::new(WhitespaceHandling::Preserve);
    let e = g.handle(&c2, &contexts, &n2, &mut buf, AstLevel::Block, &vec![], "E", 8).err().unwrap();
    assert_eq!(e.msg, "macro blocks only allowed at the top level");
    let n3 = parse("{% extends \"a.html\" %}");
    let c3 = context(&cfg, &n3);
    let mut g = Generator::new(WhitespaceHandling::Preserve);
    let e = g.handle(&c3, &contexts, &n3, &mut buf, AstLevel::Nested, &vec![], "E", 8).err().unwrap();
    assert_eq!(e.msg, "extend blocks only allowed at the top level");
}

#[test]
fn handle_trailing_whitespace_at_top() {
    let nodes = parse("a\n");
    let cfg = config();
    let ctx = context(&cfg, &nodes);
    let contexts: Vec<(String, Context)> = Vec::new();
    let mut g = Generator::new(WhitespaceHandling::Preserve);
    let mut buf = Buffer::new(0);
    let size = g.handle(&ctx, &contexts, &nodes, &mut buf, AstLevel::Top, &vec![], "E", 8).unwrap();
    assert_eq!(size, 2);
    assert_eq!(buf.buf, "writer.write_str(\"a\\n\")?;\n");
}

#[test]
fn handle_if_else() {
    let nodes = parse("{% if a %}x{% else %}yz{% endif %}");
    let cfg = config();
    let ctx = context(&cfg, &nodes);
    let contexts: Vec<(String, Context)> = Vec::new();
    let mut g = Generator::new(WhitespaceHandling::Preserve);
    let mut buf = Buffer::new(0);
    let codes = vec![("self.a".to_string(), true)];
    let size = g.handle(&ctx, &contexts, &nodes, &mut buf, AstLevel::Top, &codes, "E", 8).unwrap();
    assert_eq!(
        buf.buf,
        "if *(&(self.a) as &bool) {\n    writer.write_str(\"x\")?;\n} else {\n    writer.write_str(\"yz\")?;\n}\n"
    );
    assert_eq!(size, 3);
}

#[test]
fn handle_if_let_and_macro_call() {
    let nodes = parse(
        "{% macro m(v) %}<{{ v }}>{% endmacro %}{% if let Some(x) = y %}{% call m(1) %}{% endif %}",
    );
    let cfg = config();
    let ctx = context(&cfg, &nodes);
    let contexts: Vec<(String, Context)> = Vec::new();
    let mut g = Generator::new(WhitespaceHandling::Preserve);
    let mut buf = Buffer::new(0);
    let codes = vec![
        ("self.y".to_string(), false),
        ("1".to_string(), true),
        ("v".to_string(), true),
    ];
    let size = g.handle(&ctx, &contexts, &nodes, &mut buf, AstLevel::Top, &codes, "E", 8).unwrap();
    assert_eq!(size, 2);
    assert_eq!(
        buf.buf,
        "if let Some(x,) = &(self.y) {\n    {\n        let (v) = ((1));\n        ::std::write!(\n            writer,\n            \
         \"<{expr0}>\",\n            expr0 = &v,\n        )?;\n    }\n}\n"
    );
}

#[test]
fn handle_call_at_top() {
    let cfg = config();
    let contexts: Vec<(String, Context)> = Vec::new();
    let nodes = parse("{% macro m() %}a{% endmacro %}{% call m() %}");
    let ctx = context(&cfg, &nodes);
    let mut g = Generator::new(WhitespaceHandling::Preserve);
    let mut buf = Buffer::new(0);
    let size = g.handle(&ctx, &contexts, &nodes, &mut buf, AstLevel::Top, &vec![], "E", 1).unwrap();
    assert_eq!(size, 1);
    assert_eq!(buf.buf, "{\n    writer.write_str(\"a\")?;\n}\n");
}

fn call_of(nodes: &[Node]) -> &askama::ast::Call {
    for n in nodes {
        if let Node::Call(c) = n {
            return c;
        }
    }
    panic!("no call")
}

#[test]
fn write_call_binds_arguments_and_writes_body() {
    let nodes = parse("{% macro hello(name) %}Hi {{ name }}{% endmacro %}{% call hello(\"x\") %}");
    let cfg = config();
    let ctx = context(&cfg, &nodes);
    let contexts: Vec<(String, Context)> = Vec::new();
    let call = call_of(&nodes);
    let mut g = Generator::new(WhitespaceHandling::Preserve);
    let mut buf = Buffer::new(0);
    let codes = vec![("\"x\"".to_string(), true), ("name".to_string(), true)];
    let size = g.write_call(&ctx, &contexts, &mut buf, call, &codes, "E", 8).unwrap();
    assert_eq!(size, 6);
    assert_eq!(
        buf.buf,
        "{\n    let (name) = ((\"x\"));\n    ::std::write!(\n        writer,\n        \"Hi {expr0}\",\n        \
         expr0 = &name,\n    )?;\n}\n"
    );
}

#[test]
fn write_call_variables_are_used_in_place() {
    let nodes = parse("{% macro m(a, b) %}{% endmacro %}{% call m(x, y.z) %}");
    let cfg = config();
    let ctx = context(&cfg, &nodes);
    let contexts: Vec<(String, Context)> = Vec::new();
    let mut g = Generator::new(WhitespaceHandling::Preserve);
    let mut buf = Buffer::new(0);
    let size = g.write_call(&ctx, &contexts, &mut buf, call_of(&nodes), &vec![], "E", 8).unwrap();
    assert_eq!(size, 0);
    assert_eq!(buf.buf, "{\n}\n");
}

#[test]
fn write_call_errors() {
    let nodes = parse("{% macro m(a) %}{% endmacro %}{% call m() %}{% call n() %}{% call super() %}");
    let cfg = config();
    let ctx = context(&cfg, &nodes);
    let contexts: Vec<(String, Context)> = Vec::new();
    let calls: Vec<&askama::ast::Call> = nodes
        .iter()
        .filter_map(|n| if let Node::Call(c) = n { Some(c) } else { None })
        .collect();
    let mut g = Generator::new(WhitespaceHandling::Preserve);
    let mut buf = Buffer::new(0);
    let e = g.write_call(&ctx, &contexts, &mut buf, calls[0], &vec![], "E", 8).err().unwrap();
    assert_eq!(e.msg, "macro \"m\" expected 1 argument, found 0");
    let mut g = Generator::new(WhitespaceHandling::Preserve);
    let e = g.write_call(&ctx, &contexts, &mut buf, calls[1], &vec![], "E", 8).err().unwrap();
    assert_eq!(e.msg, "macro \"n\" not found");
    let mut g = Generator::new(WhitespaceHandling::Preserve);
    let e = g.write_call(&ctx, &contexts, &mut buf, calls[2], &vec![], "E", 8).err().unwrap();
    assert_eq!(e.msg, "cannot call 'super()' outside block");
}

#[test]
fn handle_match_arms() {
    let nodes = parse("{% match x %}{% when Some(v) %}a{% when None %}b{% endmatch %}");
    let cfg = config();
    let ctx = context(&cfg, &nodes);
    let contexts: Vec<(String, Context)> = Vec::new();
    let mut g = Generator::new(WhitespaceHandling::Preserve);
    let mut buf = Buffer::new(0);
    let codes = vec![("self.x".to_string(), true)];
    let size = g.handle(&ctx, &contexts, &nodes, &mut buf, AstLevel::Top, &codes, "E", 8).unwrap();
    assert_eq!(
        buf.buf,
        "match &self.x {\n    Some(v,) => {\n        writer.write_str(\"a\")?;\n    }\n    None => {\n        \
         writer.write_str(\"b\")?;\n    }\n}\n"
    );
    assert_eq!(size, 1);
}

#[test]
fn handle_for_loop() {
    let nodes = parse("{% for x in items %}a{% endfor %}");
    let cfg = config();
    let ctx = context(&cfg, &nodes);
    let contexts: Vec<(String, Context)> = Vec::new();
    let mut g = Generator::new(WhitespaceHandling::Preserve);
    let mut buf = Buffer::new(0);
    let codes = vec![("self.items".to_string(), true)];
    let size = g.handle(&ctx, &contexts, &nodes, &mut buf, AstLevel::Top, &codes, "E", 8).unwrap();
    assert_eq!(
        buf.buf,
        "{\n    let _iter = (&self.items).into_iter();\n    \
         for (x, _loop_item) in ::askama::helpers::TemplateLoop::new(_iter) {\n        \
         writer.write_str(\"a\")?;\n    }\n}\n"
    );
    assert_eq!(size, 1);
}

#[test]
fn handle_for_loop_with_else_and_condition() {
    let nodes = parse("{% for x in [1] if x %}a{% else %}b{% endfor %}");
    let cfg = config();
    let ctx = context(&cfg, &nodes);
    let contexts: Vec<(String, Context)> = Vec::new();
    let mut g = Generator::new(WhitespaceHandling::Preserve);
    let mut buf = Buffer::new(0);
    let codes = vec![("[1]".to_string(), true), ("x".to_string(), true)];
    g.handle(&ctx, &contexts, &nodes, &mut buf, AstLevel::Top, &codes, "E", 8).unwrap();
    assert_eq!(
        buf.buf,
        "{\n    let mut _did_loop = false;\n    let _iter = [1].iter();\n    \
         let _iter = _iter.filter(|x| -> bool {x});\n    \
         for (x, _loop_item) in ::askama::helpers::TemplateLoop::new(_iter) {\n        \
         _did_loop = true;\n        writer.write_str(\"a\")?;\n    }\n    if !_did_loop {\n        \
         writer.write_str(\"b\")?;\n    }\n}\n"
    );
}
