use askama::ast::{Expr, Node, Target};
use askama::generator::{loop_iter_line, is_attr_self, is_cacheable, is_copyable, Buffer, LocalMeta, MapChain};
use askama::parse::{Ast, Syntax};

fn let_target(src: &str) -> Target {
    let mut nodes = Ast::from_str(src, None, &Syntax::default()).unwrap().nodes;
    match nodes.pop().unwrap() {
        Node::Let(l) => l.var,
        n => panic!("not a let: {:?}", n),
    }
}

fn expr(src: &str) -> Expr {
    let mut nodes = Ast::from_str(src, None, &Syntax::default()).unwrap().nodes;
    match nodes.pop().unwrap() {
        Node::Expr(_, e) => e,
        n => panic!("not an expression: {:?}", n),
    }
}

#[test]
fn buffer_indents_blocks() {
    let mut b = Buffer::new(0);
    b.writeln("fn f() {").unwrap();
    b.write("let x = ");
    b.write("1;");
    b.writeln("").unwrap();
    b.writeln("}").unwrap();
    assert_eq!(b.buf, "fn f() {\n    let x = 1;\n}\n");
    assert_eq!(b.indent, 0);
    assert_eq!(b.writeln("}").unwrap_err().msg, "dedent() called while indentation == 0");
}

#[test]
fn scopes_resolve_innermost_first() {
    let mut outer = MapChain::new();
    outer.insert("a".to_string(), LocalMeta::with_ref("self.a".to_string()));
    let mut inner = MapChain::with_parent(&outer);
    assert_eq!(inner.resolve("a"), Some("self.a".to_string()));
    inner.insert("a".to_string(), LocalMeta::initialized());
    assert_eq!(inner.resolve("a"), Some("a".to_string()));
    inner.push();
    assert!(inner.is_current_empty());
    inner.insert_with_default("r#type".to_string());
    assert_eq!(inner.resolve("type"), Some("r#type".to_string()));
    assert_eq!(inner.get("r#type").unwrap().initialized, false);
    inner.pop();
    assert_eq!(inner.resolve("type"), None);
    assert_eq!(inner.resolve_or_self("b"), "self.b");
    assert_eq!(inner.resolve_or_self("a"), "a");
}

#[test]
fn target_patterns() {
    let mut locals = MapChain::new();
    let mut buf = Buffer::new(1);
    let t = let_target("{% let (a, type, \"s\", 1) = x %}");
    locals.visit_target(&mut buf, true, true, &t);
    assert_eq!(buf.buf, "    (a,r#type,\"s\",1,)");
    assert_eq!(locals.resolve("a"), Some("a".to_string()));
    assert_eq!(locals.resolve("type"), Some("r#type".to_string()));

    let mut buf = Buffer::new(0);
    let t = let_target("{% let \"lit\" = x %}");
    locals.visit_target(&mut buf, true, true, &t);
    assert_eq!(buf.buf, "&\"lit\"");

    let mut buf = Buffer::new(0);
    let t = let_target("{% let Point { x, y: _ } = p %}");
    locals.visit_target(&mut buf, false, true, &t);
    assert_eq!(buf.buf, "Point { x: x,y: _, }");
    assert_eq!(locals.get("x").unwrap().initialized, false);
}

#[test]
fn expression_questions() {
    assert!(is_cacheable(&expr("{{ a + b.c[1] }}")));
    assert!(!is_cacheable(&expr("{{ f(a) }}")));
    assert!(!is_cacheable(&expr("{{ a? }}")));
    assert!(is_copyable(&expr("{{ 1 }}")));
    assert!(is_copyable(&expr("{{ -self.x }}")));
    assert!(!is_copyable(&expr("{{ self.x }}")));
    assert!(is_attr_self(&expr("{{ self.a.b }}")));
    assert!(!is_attr_self(&expr("{{ other.a }}")));
}

fn shadow_chain() -> MapChain<'static> {
    let mut c = MapChain::new();
    c.insert("x".to_string(), LocalMeta::initialized());
    c.insert_with_default("y".to_string());
    c.insert("r#type".to_string(), LocalMeta::initialized());
    c
}

#[test]
fn shadowing_names() {
    let c = shadow_chain();
    assert_eq!(c.is_shadowing_variable(&Target::Name("x".to_string())).unwrap(), true);
    assert_eq!(c.is_shadowing_variable(&Target::Name("y".to_string())).unwrap(), false);
    assert_eq!(c.is_shadowing_variable(&Target::Name("z".to_string())).unwrap(), false);
    assert_eq!(c.is_shadowing_variable(&Target::Name("type".to_string())).unwrap(), true);
}

#[test]
fn shadowing_patterns() {
    let c = shadow_chain();
    let t = Target::Tuple(
        vec![],
        vec![Target::Name("y".to_string()), Target::Name("x".to_string())],
    );
    assert_eq!(c.is_shadowing_variable(&t).unwrap(), true);
    let s = Target::Struct(
        vec!["P".to_string()],
        vec![("a".to_string(), Target::Name("z".to_string()))],
    );
    assert_eq!(c.is_shadowing_variable(&s).unwrap(), false);
    let first_decides = Target::Tuple(
        vec![],
        vec![Target::Name("x".to_string()), Target::NumLit("1".to_string())],
    );
    assert_eq!(c.is_shadowing_variable(&first_decides).unwrap(), true);
}

#[test]
fn shadowing_refuses_literals() {
    let c = shadow_chain();
    let msg = "literals are not allowed on the left-hand side of an assignment";
    assert_eq!(c.is_shadowing_variable(&Target::Placeholder).unwrap_err().msg, msg);
    let t = Target::Tuple(
        vec![],
        vec![Target::Name("z".to_string()), Target::StrLit("s".to_string())],
    );
    assert_eq!(c.is_shadowing_variable(&t).unwrap_err().msg, msg);
    let parsed = let_target("{% let (x, b) = c %}");
    assert_eq!(c.is_shadowing_variable(&parsed).unwrap(), true);
}

#[test]
fn median_of_sizes() {
    let mut odd = vec![5, 1, 3];
    assert_eq!(askama::generator::median(&mut odd), 3);
    assert_eq!(odd, vec![1, 3, 5]);
    let mut even = vec![10, 2, 4, 7];
    assert_eq!(askama::generator::median(&mut even), 5);
    assert_eq!(even, vec![2, 4, 7, 10]);
    let mut one = vec![9];
    assert_eq!(askama::generator::median(&mut one), 9);
    let mut dup = vec![3, 3, 1, 3];
    assert_eq!(askama::generator::median(&mut dup), 3);
    assert_eq!(dup, vec![1, 3, 3, 3]);
}

#[test]
fn loop_iter_lines_by_expression_kind() {
    let var = |s: &str| Box::new(Expr::Var(s.to_string()));
    let range = Expr::Range("..".to_string(), Some(var("a")), Some(var("b")));
    assert_eq!(loop_iter_line(&range, "a..b"), "let _iter = a..b;");
    let array = Expr::Array(vec![Expr::Var("a".to_string())]);
    assert_eq!(loop_iter_line(&array, "[a]"), "let _iter = [a].iter();");
    let call = Expr::Call(var("f"), vec![]);
    assert_eq!(loop_iter_line(&call, "f()"), "let _iter = (f()).into_iter();");
    let attr = Expr::Attr(var("x"), "items".to_string());
    assert_eq!(loop_iter_line(&attr, "x.items"), "let _iter = (&x.items).into_iter();");
    let field = Expr::Var("items".to_string());
    assert_eq!(loop_iter_line(&field, "self.items"), "let _iter = (&self.items).into_iter();");
    assert_eq!(loop_iter_line(&field, "items"), "let _iter = (items).into_iter();");
}
