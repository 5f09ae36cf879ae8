use askama::block_codegen::{annotations, generate, path_as_identifier, Expr, Node, Target, WS};

fn lit(l: &str, v: &str, r: &str) -> Node {
    Node::Lit(l.to_string(), v.to_string(), r.to_string())
}

fn var(s: &str) -> Expr {
    Expr::Var(s.to_string())
}

const NO: WS = WS(false, false);

fn lines(v: &[&str]) -> String {
    let mut s = String::new();
    for l in v {
        s.push_str(l);
        s.push('\n');
    }
    s
}

#[test]
fn identifiers_from_paths() {
    assert_eq!(path_as_identifier("hello.html"), "hello2ehtml");
    assert_eq!(path_as_identifier("templates/a-b.html"), "templates2fa2db2ehtml");
    assert_eq!(path_as_identifier("caf\u{e9}"), "caf\u{e9}");
    assert_eq!(path_as_identifier(""), "");
}

#[test]
fn lifetime_annotations() {
    assert_eq!(annotations(&vec![]), "");
    assert_eq!(annotations(&vec!["'a".to_string()]), "<'a>");
    assert_eq!(annotations(&vec!["'a".to_string(), "'b".to_string()]), "<'a'b>");
}

#[test]
fn simple_template() {
    let nodes = vec![lit("", "Hello, ", ""), Node::Expr(NO, var("name")), lit("", "!", "")];
    let code = generate("HelloTemplate", &vec![], "hello.html", nodes);
    assert_eq!(
        code,
        lines(&[
            "#[allow(dead_code, non_camel_case_types)]",
            "type TemplateFromhello2ehtml = HelloTemplate;",
            "impl askama::Template for HelloTemplate {",
            "    fn render_to(&self, writer: &mut std::fmt::Write) {",
            "        writer.write_str(\"Hello, \").unwrap();",
            "        writer.write_fmt(format_args!(\"{}\", self.name)).unwrap();",
            "        writer.write_str(\"!\").unwrap();",
            "    }",
            "}",
        ])
    );
}

#[test]
fn whitespace_suppression() {
    let nodes = vec![
        lit("", "a", "  "),
        Node::Expr(WS(true, false), var("x")),
        lit(" ", "b", "\n"),
    ];
    let code = generate("T", &vec![], "t", nodes);
    assert_eq!(
        code,
        lines(&[
            "#[allow(dead_code, non_camel_case_types)]",
            "type TemplateFromt = T;",
            "impl askama::Template for T {",
            "    fn render_to(&self, writer: &mut std::fmt::Write) {",
            "        writer.write_str(\"a\").unwrap();",
            "        writer.write_fmt(format_args!(\"{}\", self.x)).unwrap();",
            "        writer.write_str(\" \").unwrap();",
            "        writer.write_str(\"b\").unwrap();",
            "        writer.write_str(\"\\n\").unwrap();",
            "    }",
            "}",
        ])
    );
}

#[test]
fn whitespace_after_tag_dropped() {
    let nodes = vec![Node::Expr(WS(false, true), var("x")), lit("  ", "b", "")];
    let code = generate("T", &vec![], "t", nodes);
    assert!(code.contains("self.x)).unwrap();\n        writer.write_str(\"b\").unwrap();\n"));
    assert!(!code.contains("\"  \""));
}

#[test]
fn conditions_and_loops() {
    let nodes = vec![
        Node::Cond(
            vec![
                (
                    NO,
                    Some(Expr::BinOp(
                        "==".to_string(),
                        Box::new(var("a")),
                        Box::new(Expr::NumLit("1".to_string())),
                    )),
                    vec![lit("", "one", "")],
                ),
                (NO, None, vec![lit("", "other", "")]),
            ],
            NO,
        ),
        Node::Loop(
            NO,
            Target::Name("item".to_string()),
            var("items"),
            vec![Node::Expr(NO, Expr::Filter("upper".to_string(), Box::new(var("item"))))],
            NO,
        ),
        Node::Expr(NO, Expr::StrLit("done".to_string())),
    ];
    let code = generate("C", &vec![], "c", nodes);
    assert_eq!(
        code,
        lines(&[
            "#[allow(dead_code, non_camel_case_types)]",
            "type TemplateFromc = C;",
            "impl askama::Template for C {",
            "    fn render_to(&self, writer: &mut std::fmt::Write) {",
            "        if self.a == 1 {",
            "            writer.write_str(\"one\").unwrap();",
            "        } else",
            "         {",
            "            writer.write_str(\"other\").unwrap();",
            "        }",
            "        for item in &self.items {",
            "            writer.write_fmt(format_args!(\"{}\", askama::filters::upper(&item))).unwrap();",
            "        }",
            "        writer.write_fmt(format_args!(\"{}\", \"done\")).unwrap();",
            "    }",
            "}",
        ])
    );
}

#[test]
fn loop_variable_goes_out_of_scope() {
    let nodes = vec![
        Node::Loop(NO, Target::Name("x".to_string()), var("xs"), vec![Node::Expr(NO, var("x"))], NO),
        Node::Expr(NO, var("x")),
    ];
    let code = generate("L", &vec![], "l", nodes);
    assert!(code.contains("format_args!(\"{}\", x)"));
    assert!(code.contains("format_args!(\"{}\", self.x)"));
}

#[test]
fn base_template_with_blocks() {
    let nodes = vec![
        lit("", "<h1>", ""),
        Node::BlockDef(NO, "title".to_string(), vec![lit("", "T", "")], NO),
        lit("", "</h1>", ""),
    ];
    let code = generate("Base", &vec![], "base.html", nodes);
    assert_eq!(
        code,
        lines(&[
            "#[allow(dead_code, non_camel_case_types)]",
            "type TemplateFrombase2ehtml = Base;",
            "impl Base {",
            "    #[allow(unused_variables)]",
            "    fn impl_block_title_to(&self, writer: &mut std::fmt::Write) {",
            "        writer.write_str(\"T\").unwrap();",
            "    }",
            "}",
            "trait TraitFrombase2ehtml {",
            "    fn render_block_title_to(&self, writer: &mut std::fmt::Write);",
            "    fn render_trait_to(&self, writer: &mut std::fmt::Write) {",
            "        writer.write_str(\"<h1>\").unwrap();",
            "        self.render_block_title_to(writer);",
            "        writer.write_str(\"</h1>\").unwrap();",
            "    }",
            "}",
            "impl TraitFrombase2ehtml for Base {",
            "    fn render_block_title_to(&self, writer: &mut std::fmt::Write) {",
            "        self.impl_block_title_to(writer);",
            "    }",
            "}",
            "impl askama::Template for Base {",
            "    fn render_to(&self, writer: &mut std::fmt::Write) {",
            "        self.render_trait_to(writer);",
            "    }",
            "}",
        ])
    );
}

#[test]
fn child_template_extends_base() {
    let nodes = vec![
        Node::Extends(Expr::StrLit("base.html".to_string())),
        Node::BlockDef(NO, "content".to_string(), vec![lit("", "Hi", "")], NO),
    ];
    let code = generate("Child", &vec!["'a".to_string()], "child.html", nodes);
    assert_eq!(
        code,
        lines(&[
            "#[allow(dead_code, non_camel_case_types)]",
            "type TemplateFromchild2ehtml<'a> = Child<'a>;",
            "impl<'a> Child<'a> {",
            "    #[allow(unused_variables)]",
            "    fn impl_block_content_to(&self, writer: &mut std::fmt::Write) {",
            "        writer.write_str(\"Hi\").unwrap();",
            "    }",
            "}",
            "impl<'a> TraitFrombase2ehtml for Child<'a> {",
            "    fn render_block_content_to(&self, writer: &mut std::fmt::Write) {",
            "        self.impl_block_content_to(writer);",
            "    }",
            "}",
            "impl<'a> askama::Template for Child<'a> {",
            "    fn render_to(&self, writer: &mut std::fmt::Write) {",
            "        self.render_trait_to(writer);",
            "    }",
            "}",
        ])
    );
}

#[test]
fn extends_without_blocks_renders_content() {
    let nodes = vec![Node::Extends(Expr::StrLit("base.html".to_string())), lit("", "x", "")];
    let code = generate("E", &vec![], "e", nodes);
    assert!(code.contains("impl askama::Template for E {"));
    assert!(code.contains("        writer.write_str(\"x\").unwrap();\n"));
}

#[test]
fn match_parameters_default_is_empty_positional() {
    let p = askama::block_codegen::MatchParameters::default();
    assert_eq!(p, askama::block_codegen::MatchParameters::Simple(vec![]));
}
