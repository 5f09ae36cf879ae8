use askama::ast::{Expr, Filter, Lit, Node, Whitespace, Ws};
use askama::parse::{Ast, Syntax};

fn st(x: &str) -> String {
    x.to_string()
}

// Deeply nested inputs, beyond the parser's nesting limit.
fn target_recursion() -> String {
    let mut t = String::from("{% let ");
    for _ in 0..300 {
        t.push('(');
    }
    t.push('a');
    for _ in 0..300 {
        t.push(')');
    }
    t.push_str(" = 1 %}");
    t
}

fn unary_recursion() -> String {
    let mut t = String::from("{{ ");
    for _ in 0..300 {
        t.push('-');
    }
    t.push_str("a }}");
    t
}

fn filter_recursion() -> String {
    let mut t = String::from("{{ a");
    for _ in 0..300 {
        t.push_str("|f(b");
    }
    for _ in 0..300 {
        t.push(')');
    }
    t.push_str(" }}");
    t
}

fn check_ws_split(s: &str, res: &(&str, &str, &str)) {
    let Lit { lws, val, rws } = Lit::split_ws_parts(s);
    assert_eq!(lws, res.0);
    assert_eq!(val, res.1);
    assert_eq!(rws, res.2);
}

#[test]
fn tests_test_ws_splitter() {
    check_ws_split("", &("", "", ""));
    check_ws_split("a", &("", "a", ""));
    check_ws_split("\ta", &("\t", "a", ""));
    check_ws_split("b\n", &("", "b", "\n"));
    check_ws_split(" \t\r\n", &(" \t\r\n", "", ""));
}

#[test]
#[should_panic]
fn tests_test_invalid_block() {
    Ast::from_str("{% extend \"blah\" %}", None, &Syntax::default()).unwrap();
}

#[test]
fn tests_test_parse_filter() {
    let syntax = Syntax::default();
    assert_eq!(
        Ast::from_str("{{ strvar|e }}", None, &syntax)
            .unwrap()
            .nodes,
        vec![Node::Expr(
            Ws(None, None),
            Expr::Filter(Filter {
                name: st("e"),
                arguments: vec![Expr::Var(st("strvar"))]
            }),
        )],
    );
    assert_eq!(
        Ast::from_str("{{ 2|abs }}", None, &syntax).unwrap().nodes,
        vec![Node::Expr(
            Ws(None, None),
            Expr::Filter(Filter {
                name: st("abs"),
                arguments: vec![Expr::NumLit(st("2"))]
            }),
        )],
    );
    assert_eq!(
        Ast::from_str("{{ -2|abs }}", None, &syntax).unwrap().nodes,
        vec![Node::Expr(
            Ws(None, None),
            Expr::Filter(Filter {
                name: st("abs"),
                arguments: vec![Expr::Unary(st("-"), Expr::NumLit(st("2")).into())]
            }),
        )],
    );
    assert_eq!(
        Ast::from_str("{{ (1 - 2)|abs }}", None, &syntax)
            .unwrap()
            .nodes,
        vec![Node::Expr(
            Ws(None, None),
            Expr::Filter(Filter {
                name: st("abs"),
                arguments: vec![Expr::Group(
                    Expr::BinOp(st("-"), Expr::NumLit(st("1")).into(), Expr::NumLit(st("2")).into()).into()
                )],
            },),
        )],
    );
}

#[test]
fn tests_test_parse_numbers() {
    let syntax = Syntax::default();
    assert_eq!(
        Ast::from_str("{{ 2 }}", None, &syntax).unwrap().nodes,
        vec![Node::Expr(Ws(None, None), Expr::NumLit(st("2")),)],
    );
    assert_eq!(
        Ast::from_str("{{ 2.5 }}", None, &syntax).unwrap().nodes,
        vec![Node::Expr(Ws(None, None), Expr::NumLit(st("2.5")),)],
    );
}

#[test]
fn tests_test_parse_var() {
    let s = Syntax::default();

    assert_eq!(
        Ast::from_str("{{ foo }}", None, &s).unwrap().nodes,
        vec![Node::Expr(Ws(None, None), Expr::Var(st("foo")))],
    );
    assert_eq!(
        Ast::from_str("{{ foo_bar }}", None, &s).unwrap().nodes,
        vec![Node::Expr(Ws(None, None), Expr::Var(st("foo_bar")))],
    );

    assert_eq!(
        Ast::from_str("{{ none }}", None, &s).unwrap().nodes,
        vec![Node::Expr(Ws(None, None), Expr::Var(st("none")))],
    );
}

#[test]
fn tests_test_parse_const() {
    let s = Syntax::default();

    assert_eq!(
        Ast::from_str("{{ FOO }}", None, &s).unwrap().nodes,
        vec![Node::Expr(Ws(None, None), Expr::Path(vec![st("FOO")]))],
    );
    assert_eq!(
        Ast::from_str("{{ FOO_BAR }}", None, &s).unwrap().nodes,
        vec![Node::Expr(Ws(None, None), Expr::Path(vec![st("FOO_BAR")]))],
    );

    assert_eq!(
        Ast::from_str("{{ NONE }}", None, &s).unwrap().nodes,
        vec![Node::Expr(Ws(None, None), Expr::Path(vec![st("NONE")]))],
    );
}

#[test]
fn tests_test_parse_path() {
    let s = Syntax::default();

    assert_eq!(
        Ast::from_str("{{ None }}", None, &s).unwrap().nodes,
        vec![Node::Expr(Ws(None, None), Expr::Path(vec![st("None")]))],
    );
    assert_eq!(
        Ast::from_str("{{ Some(123) }}", None, &s).unwrap().nodes,
        vec![Node::Expr(
            Ws(None, None),
            Expr::Call(
                Box::new(Expr::Path(vec![st("Some")])),
                vec![Expr::NumLit(st("123"))]
            ),
        )],
    );

    assert_eq!(
        Ast::from_str("{{ Ok(123) }}", None, &s).unwrap().nodes,
        vec![Node::Expr(
            Ws(None, None),
            Expr::Call(Box::new(Expr::Path(vec![st("Ok")])), vec![Expr::NumLit(st("123"))]),
        )],
    );
    assert_eq!(
        Ast::from_str("{{ Err(123) }}", None, &s).unwrap().nodes,
        vec![Node::Expr(
            Ws(None, None),
            Expr::Call(Box::new(Expr::Path(vec![st("Err")])), vec![Expr::NumLit(st("123"))]),
        )],
    );
}

#[test]
fn tests_test_parse_var_call() {
    assert_eq!(
        Ast::from_str("{{ function(\"123\", 3) }}", None, &Syntax::default())
            .unwrap()
            .nodes,
        vec![Node::Expr(
            Ws(None, None),
            Expr::Call(
                Box::new(Expr::Var(st("function"))),
                vec![Expr::StrLit(st("123")), Expr::NumLit(st("3"))]
            ),
        )],
    );
}

#[test]
fn tests_test_parse_path_call() {
    let s = Syntax::default();

    assert_eq!(
        Ast::from_str("{{ Option::None }}", None, &s).unwrap().nodes,
        vec![Node::Expr(
            Ws(None, None),
            Expr::Path(vec![st("Option"), st("None")])
        )],
    );
    assert_eq!(
        Ast::from_str("{{ Option::Some(123) }}", None, &s)
            .unwrap()
            .nodes,
        vec![Node::Expr(
            Ws(None, None),
            Expr::Call(
                Box::new(Expr::Path(vec![st("Option"), st("Some")])),
                vec![Expr::NumLit(st("123"))],
            ),
        )],
    );

    assert_eq!(
        Ast::from_str("{{ self::function(\"123\", 3) }}", None, &s)
            .unwrap()
            .nodes,
        vec![Node::Expr(
            Ws(None, None),
            Expr::Call(
                Box::new(Expr::Path(vec![st("self"), st("function")])),
                vec![Expr::StrLit(st("123")), Expr::NumLit(st("3"))],
            ),
        )],
    );
}

#[test]
fn tests_test_parse_root_path() {
    let syntax = Syntax::default();
    assert_eq!(
        Ast::from_str("{{ std::string::String::new() }}", None, &syntax)
            .unwrap()
            .nodes,
        vec![Node::Expr(
            Ws(None, None),
            Expr::Call(
                Box::new(Expr::Path(vec![st("std"), st("string"), st("String"), st("new")])),
                vec![]
            ),
        )],
    );
    assert_eq!(
        Ast::from_str("{{ ::std::string::String::new() }}", None, &syntax)
            .unwrap()
            .nodes,
        vec![Node::Expr(
            Ws(None, None),
            Expr::Call(
                Box::new(Expr::Path(vec![st(""), st("std"), st("string"), st("String"), st("new")])),
                vec![]
            ),
        )],
    );
}

#[test]
fn test_rust_macro() {
    let syntax = Syntax::default();
    assert_eq!(
        Ast::from_str("{{ vec!(1, 2, 3) }}", None, &syntax)
            .unwrap()
            .nodes,
        vec![Node::Expr(
            Ws(None, None),
            Expr::RustMacro(vec![st("vec")], st("1, 2, 3"),),
        )],
    );
    assert_eq!(
        Ast::from_str("{{ alloc::vec!(1, 2, 3) }}", None, &syntax)
            .unwrap()
            .nodes,
        vec![Node::Expr(
            Ws(None, None),
            Expr::RustMacro(vec![st("alloc"), st("vec")], st("1, 2, 3"),),
        )],
    );
    assert_eq!(
        Ast::from_str("{{a!()}}", None, &syntax).unwrap().nodes,
        [Node::Expr(Ws(None, None), Expr::RustMacro(vec![st("a")], st("")))],
    );
    assert_eq!(
        Ast::from_str("{{a !()}}", None, &syntax).unwrap().nodes,
        [Node::Expr(Ws(None, None), Expr::RustMacro(vec![st("a")], st("")))],
    );
    assert_eq!(
        Ast::from_str("{{a! ()}}", None, &syntax).unwrap().nodes,
        [Node::Expr(Ws(None, None), Expr::RustMacro(vec![st("a")], st("")))],
    );
    assert_eq!(
        Ast::from_str("{{a ! ()}}", None, &syntax).unwrap().nodes,
        [Node::Expr(Ws(None, None), Expr::RustMacro(vec![st("a")], st("")))],
    );
    assert_eq!(
        Ast::from_str("{{A!()}}", None, &syntax).unwrap().nodes,
        [Node::Expr(Ws(None, None), Expr::RustMacro(vec![st("A")], st("")),)],
    );
    assert_eq!(
        &*Ast::from_str("{{a.b.c!( hello )}}", None, &syntax)
            .unwrap_err()
            .to_string(),
        "failed to parse template source at row 1, column 7 near:\n\"!( hello )}}\"",
    );
}

#[test]
fn tests_change_delimiters_parse_filter() {
    let syntax = Syntax {
        expr_start: "{=".to_string(),
        expr_end: "=}".to_string(),
        ..Syntax::default()
    };

    Ast::from_str("{= strvar|e =}", None, &syntax).unwrap();
}

#[test]
fn tests_test_precedence() {
    let syntax = Syntax::default();
    assert_eq!(
        Ast::from_str("{{ a + b == c }}", None, &syntax)
            .unwrap()
            .nodes,
        vec![Node::Expr(
            Ws(None, None),
            Expr::BinOp(
                st("=="),
                Expr::BinOp(st("+"), Expr::Var(st("a")).into(), Expr::Var(st("b")).into()).into(),
                Expr::Var(st("c")).into(),
            )
        )],
    );
    assert_eq!(
        Ast::from_str("{{ a + b * c - d / e }}", None, &syntax)
            .unwrap()
            .nodes,
        vec![Node::Expr(
            Ws(None, None),
            Expr::BinOp(
                st("-"),
                Expr::BinOp(
                    st("+"),
                    Expr::Var(st("a")).into(),
                    Expr::BinOp(st("*"), Expr::Var(st("b")).into(), Expr::Var(st("c")).into()).into(),
                )
                .into(),
                Expr::BinOp(st("/"), Expr::Var(st("d")).into(), Expr::Var(st("e")).into()).into(),
            )
        )],
    );
    assert_eq!(
        Ast::from_str("{{ a * (b + c) / -d }}", None, &syntax)
            .unwrap()
            .nodes,
        vec![Node::Expr(
            Ws(None, None),
            Expr::BinOp(
                st("/"),
                Expr::BinOp(
                    st("*"),
                    Expr::Var(st("a")).into(),
                    Expr::Group(
                        Expr::BinOp(st("+"), Expr::Var(st("b")).into(), Expr::Var(st("c")).into()).into()
                    )
                    .into()
                )
                .into(),
                Expr::Unary(st("-"), Expr::Var(st("d")).into()).into()
            )
        )],
    );
    assert_eq!(
        Ast::from_str("{{ a || b && c || d && e }}", None, &syntax)
            .unwrap()
            .nodes,
        vec![Node::Expr(
            Ws(None, None),
            Expr::BinOp(
                st("||"),
                Expr::BinOp(
                    st("||"),
                    Expr::Var(st("a")).into(),
                    Expr::BinOp(st("&&"), Expr::Var(st("b")).into(), Expr::Var(st("c")).into()).into(),
                )
                .into(),
                Expr::BinOp(st("&&"), Expr::Var(st("d")).into(), Expr::Var(st("e")).into()).into(),
            )
        )],
    );
}

#[test]
fn tests_test_associativity() {
    let syntax = Syntax::default();
    assert_eq!(
        Ast::from_str("{{ a + b + c }}", None, &syntax)
            .unwrap()
            .nodes,
        vec![Node::Expr(
            Ws(None, None),
            Expr::BinOp(
                st("+"),
                Expr::BinOp(st("+"), Expr::Var(st("a")).into(), Expr::Var(st("b")).into()).into(),
                Expr::Var(st("c")).into()
            )
        )],
    );
    assert_eq!(
        Ast::from_str("{{ a * b * c }}", None, &syntax)
            .unwrap()
            .nodes,
        vec![Node::Expr(
            Ws(None, None),
            Expr::BinOp(
                st("*"),
                Expr::BinOp(st("*"), Expr::Var(st("a")).into(), Expr::Var(st("b")).into()).into(),
                Expr::Var(st("c")).into()
            )
        )],
    );
    assert_eq!(
        Ast::from_str("{{ a && b && c }}", None, &syntax)
            .unwrap()
            .nodes,
        vec![Node::Expr(
            Ws(None, None),
            Expr::BinOp(
                st("&&"),
                Expr::BinOp(st("&&"), Expr::Var(st("a")).into(), Expr::Var(st("b")).into()).into(),
                Expr::Var(st("c")).into()
            )
        )],
    );
    assert_eq!(
        Ast::from_str("{{ a + b - c + d }}", None, &syntax)
            .unwrap()
            .nodes,
        vec![Node::Expr(
            Ws(None, None),
            Expr::BinOp(
                st("+"),
                Expr::BinOp(
                    st("-"),
                    Expr::BinOp(st("+"), Expr::Var(st("a")).into(), Expr::Var(st("b")).into()).into(),
                    Expr::Var(st("c")).into()
                )
                .into(),
                Expr::Var(st("d")).into()
            )
        )],
    );
    assert_eq!(
        Ast::from_str("{{ a == b != c > d > e == f }}", None, &syntax)
            .unwrap()
            .nodes,
        vec![Node::Expr(
            Ws(None, None),
            Expr::BinOp(
                st("=="),
                Expr::BinOp(
                    st(">"),
                    Expr::BinOp(
                        st(">"),
                        Expr::BinOp(
                            st("!="),
                            Expr::BinOp(st("=="), Expr::Var(st("a")).into(), Expr::Var(st("b")).into()).into(),
                            Expr::Var(st("c")).into()
                        )
                        .into(),
                        Expr::Var(st("d")).into()
                    )
                    .into(),
                    Expr::Var(st("e")).into()
                )
                .into(),
                Expr::Var(st("f")).into()
            )
        )],
    );
}

#[test]
fn tests_test_odd_calls() {
    let syntax = Syntax::default();
    assert_eq!(
        Ast::from_str("{{ a[b](c) }}", None, &syntax).unwrap().nodes,
        vec![Node::Expr(
            Ws(None, None),
            Expr::Call(
                Box::new(Expr::Index(
                    Box::new(Expr::Var(st("a"))),
                    Box::new(Expr::Var(st("b")))
                )),
                vec![Expr::Var(st("c"))],
            ),
        )],
    );
    assert_eq!(
        Ast::from_str("{{ (a + b)(c) }}", None, &syntax)
            .unwrap()
            .nodes,
        vec![Node::Expr(
            Ws(None, None),
            Expr::Call(
                Box::new(Expr::Group(Box::new(Expr::BinOp(
                    st("+"),
                    Box::new(Expr::Var(st("a"))),
                    Box::new(Expr::Var(st("b")))
                )))),
                vec![Expr::Var(st("c"))],
            ),
        )],
    );
    assert_eq!(
        Ast::from_str("{{ a + b(c) }}", None, &syntax)
            .unwrap()
            .nodes,
        vec![Node::Expr(
            Ws(None, None),
            Expr::BinOp(
                st("+"),
                Box::new(Expr::Var(st("a"))),
                Box::new(Expr::Call(Box::new(Expr::Var(st("b"))), vec![Expr::Var(st("c"))])),
            ),
        )],
    );
    assert_eq!(
        Ast::from_str("{{ (-a)(b) }}", None, &syntax).unwrap().nodes,
        vec![Node::Expr(
            Ws(None, None),
            Expr::Call(
                Box::new(Expr::Group(Box::new(Expr::Unary(
                    st("-"),
                    Box::new(Expr::Var(st("a")))
                )))),
                vec![Expr::Var(st("b"))],
            ),
        )],
    );
    assert_eq!(
        Ast::from_str("{{ -a(b) }}", None, &syntax).unwrap().nodes,
        vec![Node::Expr(
            Ws(None, None),
            Expr::Unary(
                st("-"),
                Box::new(Expr::Call(Box::new(Expr::Var(st("a"))), vec![Expr::Var(st("b"))]))
            ),
        )],
    );
    assert_eq!(
        Ast::from_str("{{ a(b)|c }}", None, &syntax).unwrap().nodes,
        vec![Node::Expr(
            Ws(None, None),
            Expr::Filter(Filter {
                name: st("c"),
                arguments: vec![Expr::Call(Box::new(Expr::Var(st("a"))), vec![Expr::Var(st("b"))])]
            }),
        )]
    );
    assert_eq!(
        Ast::from_str("{{ a(b)| c }}", None, &syntax).unwrap().nodes,
        vec![Node::Expr(
            Ws(None, None),
            Expr::Filter(Filter {
                name: st("c"),
                arguments: vec![Expr::Call(Box::new(Expr::Var(st("a"))), vec![Expr::Var(st("b"))])]
            }),
        )]
    );
    assert_eq!(
        Ast::from_str("{{ a(b) |c }}", None, &syntax).unwrap().nodes,
        vec![Node::Expr(
            Ws(None, None),
            Expr::BinOp(
                st("|"),
                Box::new(Expr::Call(Box::new(Expr::Var(st("a"))), vec![Expr::Var(st("b"))])),
                Box::new(Expr::Var(st("c")))
            ),
        )]
    );
}

#[test]
fn tests_test_parse_comments() {
    fn one_comment_ws(source: &str, ws: Ws) {
        let s = &Syntax::default();
        let mut nodes = Ast::from_str(source, None, s).unwrap().nodes;
        assert_eq!(nodes.len(), 1, "expected to parse one node");
        match nodes.pop().unwrap() {
            Node::Comment(comment) => assert_eq!(comment.ws, ws),
            node => panic!("expected a comment not, but parsed {:?}", node),
        }
    }

    one_comment_ws("{##}", Ws(None, None));
    one_comment_ws("{#- #}", Ws(Some(Whitespace::Suppress), None));
    one_comment_ws("{# -#}", Ws(None, Some(Whitespace::Suppress)));
    one_comment_ws(
        "{#--#}",
        Ws(Some(Whitespace::Suppress), Some(Whitespace::Suppress)),
    );
    one_comment_ws(
        "{#- foo\n bar -#}",
        Ws(Some(Whitespace::Suppress), Some(Whitespace::Suppress)),
    );
    one_comment_ws(
        "{#- foo\n {#- bar\n -#} baz -#}",
        Ws(Some(Whitespace::Suppress), Some(Whitespace::Suppress)),
    );
    one_comment_ws("{#+ #}", Ws(Some(Whitespace::Preserve), None));
    one_comment_ws("{# +#}", Ws(None, Some(Whitespace::Preserve)));
    one_comment_ws(
        "{#++#}",
        Ws(Some(Whitespace::Preserve), Some(Whitespace::Preserve)),
    );
    one_comment_ws(
        "{#+ foo\n bar +#}",
        Ws(Some(Whitespace::Preserve), Some(Whitespace::Preserve)),
    );
    one_comment_ws(
        "{#+ foo\n {#+ bar\n +#} baz -+#}",
        Ws(Some(Whitespace::Preserve), Some(Whitespace::Preserve)),
    );
    one_comment_ws("{#~ #}", Ws(Some(Whitespace::Minimize), None));
    one_comment_ws("{# ~#}", Ws(None, Some(Whitespace::Minimize)));
    one_comment_ws(
        "{#~~#}",
        Ws(Some(Whitespace::Minimize), Some(Whitespace::Minimize)),
    );
    one_comment_ws(
        "{#~ foo\n bar ~#}",
        Ws(Some(Whitespace::Minimize), Some(Whitespace::Minimize)),
    );
    one_comment_ws(
        "{#~ foo\n {#~ bar\n ~#} baz -~#}",
        Ws(Some(Whitespace::Minimize), Some(Whitespace::Minimize)),
    );

    one_comment_ws("{# foo {# bar #} {# {# baz #} qux #} #}", Ws(None, None));
}

#[test]
fn tests_test_parse_tuple() {
    let syntax = Syntax::default();
    assert_eq!(
        Ast::from_str("{{ () }}", None, &syntax).unwrap().nodes,
        vec![Node::Expr(Ws(None, None), Expr::Tuple(vec![]),)],
    );
    assert_eq!(
        Ast::from_str("{{ (1) }}", None, &syntax).unwrap().nodes,
        vec![Node::Expr(
            Ws(None, None),
            Expr::Group(Box::new(Expr::NumLit(st("1")))),
        )],
    );
    assert_eq!(
        Ast::from_str("{{ (1,) }}", None, &syntax).unwrap().nodes,
        vec![Node::Expr(
            Ws(None, None),
            Expr::Tuple(vec![Expr::NumLit(st("1"))]),
        )],
    );
    assert_eq!(
        Ast::from_str("{{ (1, ) }}", None, &syntax).unwrap().nodes,
        vec![Node::Expr(
            Ws(None, None),
            Expr::Tuple(vec![Expr::NumLit(st("1"))]),
        )],
    );
    assert_eq!(
        Ast::from_str("{{ (1 ,) }}", None, &syntax).unwrap().nodes,
        vec![Node::Expr(
            Ws(None, None),
            Expr::Tuple(vec![Expr::NumLit(st("1"))]),
        )],
    );
    assert_eq!(
        Ast::from_str("{{ (1 , ) }}", None, &syntax).unwrap().nodes,
        vec![Node::Expr(
            Ws(None, None),
            Expr::Tuple(vec![Expr::NumLit(st("1"))]),
        )],
    );
    assert_eq!(
        Ast::from_str("{{ (1, 2) }}", None, &syntax).unwrap().nodes,
        vec![Node::Expr(
            Ws(None, None),
            Expr::Tuple(vec![Expr::NumLit(st("1")), Expr::NumLit(st("2"))]),
        )],
    );
    assert_eq!(
        Ast::from_str("{{ (1, 2,) }}", None, &syntax).unwrap().nodes,
        vec![Node::Expr(
            Ws(None, None),
            Expr::Tuple(vec![Expr::NumLit(st("1")), Expr::NumLit(st("2"))]),
        )],
    );
    assert_eq!(
        Ast::from_str("{{ (1, 2, 3) }}", None, &syntax)
            .unwrap()
            .nodes,
        vec![Node::Expr(
            Ws(None, None),
            Expr::Tuple(vec![
                Expr::NumLit(st("1")),
                Expr::NumLit(st("2")),
                Expr::NumLit(st("3"))
            ]),
        )],
    );
    assert_eq!(
        Ast::from_str("{{ ()|abs }}", None, &syntax).unwrap().nodes,
        vec![Node::Expr(
            Ws(None, None),
            Expr::Filter(Filter {
                name: st("abs"),
                arguments: vec![Expr::Tuple(vec![])]
            }),
        )],
    );
    assert_eq!(
        Ast::from_str("{{ () | abs }}", None, &syntax)
            .unwrap()
            .nodes,
        vec![Node::Expr(
            Ws(None, None),
            Expr::BinOp(
                st("|"),
                Box::new(Expr::Tuple(vec![])),
                Box::new(Expr::Var(st("abs")))
            ),
        )],
    );
    assert_eq!(
        Ast::from_str("{{ (1)|abs }}", None, &syntax).unwrap().nodes,
        vec![Node::Expr(
            Ws(None, None),
            Expr::Filter(Filter {
                name: st("abs"),
                arguments: vec![Expr::Group(Box::new(Expr::NumLit(st("1"))))]
            }),
        )],
    );
    assert_eq!(
        Ast::from_str("{{ (1) | abs }}", None, &syntax)
            .unwrap()
            .nodes,
        vec![Node::Expr(
            Ws(None, None),
            Expr::BinOp(
                st("|"),
                Box::new(Expr::Group(Box::new(Expr::NumLit(st("1"))))),
                Box::new(Expr::Var(st("abs")))
            ),
        )],
    );
    assert_eq!(
        Ast::from_str("{{ (1,)|abs }}", None, &syntax)
            .unwrap()
            .nodes,
        vec![Node::Expr(
            Ws(None, None),
            Expr::Filter(Filter {
                name: st("abs"),
                arguments: vec![Expr::Tuple(vec![Expr::NumLit(st("1"))])]
            }),
        )],
    );
    assert_eq!(
        Ast::from_str("{{ (1,) | abs }}", None, &syntax)
            .unwrap()
            .nodes,
        vec![Node::Expr(
            Ws(None, None),
            Expr::BinOp(
                st("|"),
                Box::new(Expr::Tuple(vec![Expr::NumLit(st("1"))])),
                Box::new(Expr::Var(st("abs")))
            ),
        )],
    );
    assert_eq!(
        Ast::from_str("{{ (1, 2)|abs }}", None, &syntax)
            .unwrap()
            .nodes,
        vec![Node::Expr(
            Ws(None, None),
            Expr::Filter(Filter {
                name: st("abs"),
                arguments: vec![Expr::Tuple(vec![Expr::NumLit(st("1")), Expr::NumLit(st("2"))])]
            }),
        )],
    );
    assert_eq!(
        Ast::from_str("{{ (1, 2) | abs }}", None, &syntax)
            .unwrap()
            .nodes,
        vec![Node::Expr(
            Ws(None, None),
            Expr::BinOp(
                st("|"),
                Box::new(Expr::Tuple(vec![Expr::NumLit(st("1")), Expr::NumLit(st("2"))])),
                Box::new(Expr::Var(st("abs")))
            ),
        )],
    );
}

#[test]
fn tests_test_missing_space_after_kw() {
    let syntax = Syntax::default();
    let err = Ast::from_str("{%leta=b%}", None, &syntax).unwrap_err();
    assert!(matches!(
        &*err.to_string(),
        "failed to parse template source at row 1, column 0 near:\n\"{%leta=b%}\"",
    ));
}

#[test]
fn test_parse_array() {
    let syntax = Syntax::default();
    assert_eq!(
        Ast::from_str("{{ [] }}", None, &syntax).unwrap().nodes,
        vec![Node::Expr(Ws(None, None), Expr::Array(vec![]))],
    );
    assert_eq!(
        Ast::from_str("{{ [1] }}", None, &syntax).unwrap().nodes,
        vec![Node::Expr(
            Ws(None, None),
            Expr::Array(vec![Expr::NumLit(st("1"))])
        )],
    );
    assert_eq!(
        Ast::from_str("{{ [ 1] }}", None, &syntax).unwrap().nodes,
        vec![Node::Expr(
            Ws(None, None),
            Expr::Array(vec![Expr::NumLit(st("1"))])
        )],
    );
    assert_eq!(
        Ast::from_str("{{ [1 ] }}", None, &syntax).unwrap().nodes,
        vec![Node::Expr(
            Ws(None, None),
            Expr::Array(vec![Expr::NumLit(st("1"))])
        )],
    );
    assert_eq!(
        Ast::from_str("{{ [1,2] }}", None, &syntax).unwrap().nodes,
        vec![Node::Expr(
            Ws(None, None),
            Expr::Array(vec![Expr::NumLit(st("1")), Expr::NumLit(st("2"))])
        )],
    );
    assert_eq!(
        Ast::from_str("{{ [1 ,2] }}", None, &syntax).unwrap().nodes,
        vec![Node::Expr(
            Ws(None, None),
            Expr::Array(vec![Expr::NumLit(st("1")), Expr::NumLit(st("2"))])
        )],
    );
    assert_eq!(
        Ast::from_str("{{ [1, 2] }}", None, &syntax).unwrap().nodes,
        vec![Node::Expr(
            Ws(None, None),
            Expr::Array(vec![Expr::NumLit(st("1")), Expr::NumLit(st("2"))])
        )],
    );
    assert_eq!(
        Ast::from_str("{{ [1,2 ] }}", None, &syntax).unwrap().nodes,
        vec![Node::Expr(
            Ws(None, None),
            Expr::Array(vec![Expr::NumLit(st("1")), Expr::NumLit(st("2"))])
        )],
    );
    assert_eq!(
        Ast::from_str("{{ []|foo }}", None, &syntax).unwrap().nodes,
        vec![Node::Expr(
            Ws(None, None),
            Expr::Filter(Filter {
                name: st("foo"),
                arguments: vec![Expr::Array(vec![])]
            })
        )],
    );
    assert_eq!(
        Ast::from_str("{{ []| foo }}", None, &syntax).unwrap().nodes,
        vec![Node::Expr(
            Ws(None, None),
            Expr::Filter(Filter {
                name: st("foo"),
                arguments: vec![Expr::Array(vec![])]
            })
        )],
    );
    assert_eq!(
        Ast::from_str("{{ [] |foo }}", None, &syntax).unwrap().nodes,
        vec![Node::Expr(
            Ws(None, None),
            Expr::BinOp(
                st("|"),
                Box::new(Expr::Array(vec![])),
                Box::new(Expr::Var(st("foo")))
            ),
        )],
    );
}

#[test]
fn fuzzed_unicode_slice() {
    let d = "{eeuuu{b&{!!&{!!11{{
            0!(!1q҄א!)!!!!!!n!";
    assert!(Ast::from_str(d, None, &Syntax::default()).is_err());
}

#[test]
fn fuzzed_macro_no_end() {
    let s = "{%macro super%}{%endmacro";
    assert!(Ast::from_str(s, None, &Syntax::default()).is_err());
}

#[test]
fn fuzzed_target_recursion() {
    let template = target_recursion();
    assert!(Ast::from_str(&template, None, &Syntax::default()).is_err());
}

#[test]
fn fuzzed_unary_recursion() {
    let template = unary_recursion();
    assert!(Ast::from_str(&template, None, &Syntax::default()).is_err());
}

#[test]
fn let_set() {
    assert_eq!(
        Ast::from_str("{% let a %}", None, &Syntax::default())
            .unwrap()
            .nodes(),
        Ast::from_str("{% set a %}", None, &Syntax::default())
            .unwrap()
            .nodes(),
    );
}

#[test]
fn fuzzed_filter_recursion() {
    let template = filter_recursion();
    assert!(Ast::from_str(&template, None, &Syntax::default()).is_err());
}
