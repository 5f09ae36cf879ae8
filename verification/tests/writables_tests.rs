use askama::ast::{Comment, Expr, Lit, Whitespace, Ws};
use askama::config::WhitespaceHandling;
use askama::generator::Buffer;
use askama::writables::{Generator, Writable};

fn lit(l: &str, v: &str, r: &str) -> Lit {
    Lit { lws: l.to_string(), val: v.to_string(), rws: r.to_string() }
}

fn lits(g: &Generator) -> Vec<String> {
    g.buf_writable
        .iter()
        .map(|w| match w {
            Writable::Lit(s) => s.clone(),
            Writable::Expr(_) => "<expr>".to_string(),
        })
        .collect()
}

#[test]
fn literal_whitespace_kept_by_default() {
    let mut g = Generator::new(WhitespaceHandling::Preserve);
    g.visit_lit(&lit("  ", "a", "\n "));
    assert_eq!(lits(&g), vec!["  ", "a"]);
    assert_eq!(g.next_ws.as_deref(), Some("\n "));
    g.handle_ws(Ws(None, None));
    assert_eq!(lits(&g), vec!["  ", "a", "\n "]);
    assert_eq!(g.next_ws, None);
}

#[test]
fn markers_reduce_and_drop_whitespace() {
    let mut g = Generator::new(WhitespaceHandling::Preserve);
    g.visit_lit(&lit("", "a", "\n  "));
    g.handle_ws(Ws(Some(Whitespace::Minimize), Some(Whitespace::Suppress)));
    assert_eq!(lits(&g), vec!["a", "\n"]);
    assert_eq!(g.skip_ws, WhitespaceHandling::Suppress);
    g.visit_lit(&lit(" ", "b", "\t"));
    assert_eq!(lits(&g), vec!["a", "\n", "b"]);
    assert_eq!(g.skip_ws, WhitespaceHandling::Preserve);
    g.handle_ws(Ws(Some(Whitespace::Suppress), Some(Whitespace::Minimize)));
    assert_eq!(lits(&g), vec!["a", "\n", "b"]);
    g.visit_lit(&lit("   ", "c", ""));
    assert_eq!(lits(&g), vec!["a", "\n", "b", " ", "c"]);
}

#[test]
fn configured_default_applies_without_marker() {
    let mut g = Generator::new(WhitespaceHandling::Suppress);
    assert_eq!(g.should_trim_ws(None), WhitespaceHandling::Suppress);
    assert_eq!(g.should_trim_ws(Some(Whitespace::Preserve)), WhitespaceHandling::Preserve);
    g.visit_lit(&lit("", "a", " \n"));
    g.write_comment(&Comment { ws: Ws(None, Some(Whitespace::Preserve)), content: String::new() });
    assert_eq!(lits(&g), vec!["a"]);
    assert_eq!(g.skip_ws, WhitespaceHandling::Preserve);
}

#[test]
fn whitespace_only_literal_stays_pending() {
    let mut g = Generator::new(WhitespaceHandling::Preserve);
    g.visit_lit(&lit(" \n ", "", ""));
    assert!(g.buf_writable.is_empty());
    assert_eq!(g.next_ws.as_deref(), Some(" \n "));
    g.flush_ws(Ws(Some(Whitespace::Minimize), None));
    assert_eq!(lits(&g), vec!["\n"]);
}

#[test]
fn writing_nothing() {
    let mut g = Generator::new(WhitespaceHandling::Preserve);
    let mut buf = Buffer::new(0);
    assert_eq!(g.write_buf_writable(&mut buf, &vec![], "::askama::Html").unwrap(), 0);
    assert_eq!(buf.buf, "");
}

#[test]
fn writing_literals_only() {
    let mut g = Generator::new(WhitespaceHandling::Preserve);
    g.visit_lit(&lit("", "a{b}", ""));
    g.write_comment(&Comment { ws: Ws(None, None), content: String::new() });
    g.visit_lit(&lit("", "\u{e9}", ""));
    let mut buf = Buffer::new(1);
    let size = g.write_buf_writable(&mut buf, &vec![], "::askama::Html").unwrap();
    assert_eq!(size, 6);
    assert_eq!(buf.buf, "    writer.write_str(\"a{b}\u{e9}\")?;\n");
    assert!(g.buf_writable.is_empty());
    assert_eq!(g.named, 0);
}

#[test]
fn writing_literals_and_expressions() {
    let x = Expr::Var("x".to_string());
    let mut g = Generator::new(WhitespaceHandling::Preserve);
    g.visit_lit(&lit("  ", "a", "\n"));
    g.write_expr(Ws(None, None), &x);
    g.visit_lit(&lit("", "{b}", ""));
    let mut buf = Buffer::new(0);
    let codes = vec![("self.x".to_string(), false)];
    let size = g.write_buf_writable(&mut buf, &codes, "::askama::Html").unwrap();
    assert_eq!(size, 2 + 1 + 1 + 3 + 3);
    assert_eq!(
        buf.buf,
        "::std::write!(\n    writer,\n    \"  a\\n{expr0}{{b}}\",\n    \
         expr0 = &::askama::MarkupDisplay::new_unsafe(&(self.x), ::askama::Html),\n)?;\n"
    );
    assert_eq!(g.named, 1);
    assert!(g.buf_writable.is_empty());
}

#[test]
fn repeated_expressions_share_a_name() {
    let x1 = Expr::Var("x".to_string());
    let x2 = Expr::Var("x".to_string());
    let f1 = Expr::Call(Box::new(Expr::Var("f".to_string())), vec![]);
    let f2 = Expr::Call(Box::new(Expr::Var("f".to_string())), vec![]);
    let mut g = Generator::new(WhitespaceHandling::Preserve);
    g.write_expr(Ws(None, None), &x1);
    g.write_expr(Ws(None, None), &x2);
    g.write_expr(Ws(None, None), &f1);
    g.write_expr(Ws(None, None), &f2);
    let mut buf = Buffer::new(0);
    let codes = vec![
        ("x".to_string(), true),
        ("x".to_string(), true),
        ("f()".to_string(), true),
        ("f()".to_string(), true),
    ];
    let size = g.write_buf_writable(&mut buf, &codes, "E").unwrap();
    assert_eq!(size, 12);
    assert_eq!(
        buf.buf,
        "::std::write!(\n    writer,\n    \"{expr0}{expr0}{expr1}{expr2}\",\n    \
         expr0 = &x,\n    expr1 = &f(),\n    expr2 = &f(),\n)?;\n"
    );
    assert_eq!(g.named, 3);
}
