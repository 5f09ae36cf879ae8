use askama::ast::{Expr, Node, Ws};
use askama::fmt::fmt;
use askama::parse::{Ast, Syntax};

fn custom() -> Syntax {
    Syntax {
        block_start: "<?".into(),
        block_end: "?>".into(),
        comment_start: "<!".into(),
        comment_end: "!>".into(),
        expr_start: "<:".into(),
        expr_end: ":>".into(),
    }
}

fn parse(src: &str, syn: &Syntax) -> Vec<Node> {
    Ast::from_str(src, None, syn).expect("PARSE").nodes
}

#[test]
fn lit() {
    let syn = Syntax::default();
    let node = parse(" foobar\t", &syn);
    assert_eq!(" foobar\t", fmt(&node, &syn).expect("FMT"));
}

#[test]
fn comment() {
    let syn = Syntax::default();
    let node = parse("foo{#+ empty -#}bar", &syn);
    assert_eq!("foo{#+ empty -#}bar", fmt(&node, &syn).expect("FMT"));
    assert_eq!("foo<!+ empty -!>bar", fmt(&node, &custom()).expect("FMT"));
}

#[test]
fn expr() {
    let syn = Syntax::default();
    let node = parse("{{42}}", &syn);
    assert_eq!("{{ 42 }}", fmt(&node, &syn).expect("FMT"));
    assert_eq!("<: 42 :>", fmt(&node, &custom()).expect("FMT"));
}

fn test_expr(expr: Expr) {
    let syn = Syntax::default();
    let node = Node::Expr(Ws(None, None), expr);
    let str1 = fmt(&[node], &syn).expect("FMT1");
    let parsed = parse(&str1, &syn);
    let str2 = fmt(&parsed, &syn).expect("FMT1");
    assert_eq!(str1, str2);
}

#[test]
fn expr_bool_lit() {
    test_expr(Expr::BoolLit("true".into()));
}

#[test]
fn expr_num_lit() {
    test_expr(Expr::NumLit("42".into()));
}

#[test]
fn expr_str_lit() {
    test_expr(Expr::StrLit("foo\\\"bar".into()));
}

#[test]
fn expr_char_lit() {
    test_expr(Expr::CharLit("c".into()));
}

#[test]
fn expr_var() {
    test_expr(Expr::Var("value".into()));
}

#[test]
fn expr_path() {
    test_expr(Expr::Path(vec!["askama".into(), "Template".into()]));
}

#[test]
fn call() {
    let syn = Syntax::default();
    let node = parse("{% call scope::macro(1, 2, 3) %}", &syn);
    assert_eq!("{% call scope::macro(1, 2, 3) %}", fmt(&node, &syn).expect("FMT"));
    assert_eq!("<? call scope::macro(1, 2, 3) ?>", fmt(&node, &custom()).expect("FMT"));
}

#[test]
fn let_decl() {
    let syn = Syntax::default();
    let node = parse("{%let foo\t%}", &syn);
    assert_eq!("{% let foo %}", fmt(&node, &syn).expect("FMT"));
    assert_eq!("<? let foo ?>", fmt(&node, &custom()).expect("FMT"));
}

#[test]
fn let_() {
    let syn = Syntax::default();
    let node = parse("{%let foo\t=\n42%}", &syn);
    assert_eq!("{% let foo = 42 %}", fmt(&node, &syn).expect("FMT"));
    assert_eq!("<? let foo = 42 ?>", fmt(&node, &custom()).expect("FMT"));
}

#[test]
fn cond() {
    let syn = Syntax::default();
    let node = parse("{%if foo-%}bar{%-else\t-%}baz{%- endif\n%}", &syn);
    assert_eq!("{% if foo -%}bar{%- else -%}baz{%- endif %}", fmt(&node, &syn).expect("FMT"));
    assert_eq!("<? if foo -?>bar<?- else -?>baz<?- endif ?>", fmt(&node, &custom()).expect("FMT"));
}

// The whitespace between `match` and the first `when` is not kept by the
// parser, so it is not written back either.
#[test]
fn match_() {
    let syn = Syntax::default();
    let node = parse("{%match item-%}
  {%  when Some
  with\t (\t \"foo\"  )\t-%}
    Found literal foo
  {% when Some with (val) -%}
    Found {{ val }}
  {% when None -%}
{% endmatch\n%}", &syn);

    assert_eq!("{% match item -%}{% when Some with (\"foo\") -%}
    Found literal foo
  {% when Some with (val) -%}
    Found {{ val }}
  {% when None -%}
{% endmatch %}", fmt(&node, &syn).expect("FMT"));
    assert_eq!("<? match item -?><? when Some with (\"foo\") -?>
    Found literal foo
  <? when Some with (val) -?>
    Found <: val :>
  <? when None -?>
<? endmatch ?>", fmt(&node, &custom()).expect("FMT"));
}

#[test]
fn loop_() {
    let syn = Syntax::default();
    let node = parse("{%for value in values-%}{{\tvalue\n}}{%endfor~%}", &syn);
    assert_eq!("{% for value in values -%}{{ value }}{% endfor ~%}", fmt(&node, &syn).expect("FMT"));
    assert_eq!("<? for value in values -?><: value :><? endfor ~?>", fmt(&node, &custom()).expect("FMT"));
}

#[test]
fn loop_cond() {
    let syn = Syntax::default();
    let node = parse("{%for value in values if true-%}{{\tvalue\n}}{%endfor~%}", &syn);
    assert_eq!(
        "{% for value in values if true -%}{{ value }}{% endfor ~%}",
        fmt(&node, &syn).expect("FMT")
    );
    assert_eq!(
        "<? for value in values if true -?><: value :><? endfor ~?>",
        fmt(&node, &custom()).expect("FMT")
    );
}

#[test]
fn loop_else() {
    let syn = Syntax::default();
    let node = parse("{%for value in values-%}{{\tvalue\n}}{%else%}NONE{%endfor~%}", &syn);
    assert_eq!(
        "{% for value in values -%}{{ value }}{% else %}NONE{% endfor ~%}",
        fmt(&node, &syn).expect("FMT")
    );
    assert_eq!(
        "<? for value in values -?><: value :><? else ?>NONE<? endfor ~?>",
        fmt(&node, &custom()).expect("FMT")
    );
}

#[test]
fn extends() {
    let syn = Syntax::default();
    let node = parse("{%extends \"base.html\"\t%}", &syn);
    assert_eq!("{% extends \"base.html\" %}", fmt(&node, &syn).expect("FMT"));
    assert_eq!("<? extends \"base.html\" ?>", fmt(&node, &custom()).expect("FMT"));
}

#[test]
fn block_def() {
    let syn = Syntax::default();
    let node = parse("{%block title\t%}Hi!{%endblock%}", &syn);
    assert_eq!("{% block title %}Hi!{% endblock %}", fmt(&node, &syn).expect("FMT"));
    assert_eq!("<? block title ?>Hi!<? endblock ?>", fmt(&node, &custom()).expect("FMT"));
}

#[test]
fn break_() {
    let syn = Syntax::default();
    let node = parse("{%for value in values-%}{%\tbreak\n%}{%endfor~%}", &syn);
    assert_eq!("{% for value in values -%}{% break %}{% endfor ~%}", fmt(&node, &syn).expect("FMT"));
    assert_eq!("<? for value in values -?><? break ?><? endfor ~?>", fmt(&node, &custom()).expect("FMT"));
}

#[test]
fn continue_() {
    let syn = Syntax::default();
    let node = parse("{%for value in values-%}{%\tcontinue\n%}{%endfor~%}", &syn);
    assert_eq!("{% for value in values -%}{% continue %}{% endfor ~%}", fmt(&node, &syn).expect("FMT"));
    assert_eq!("<? for value in values -?><? continue ?><? endfor ~?>", fmt(&node, &custom()).expect("FMT"));
}

#[test]
fn fmt_concat_of_node_lists() {
    let syn = Syntax::default();
    let a = parse("a{{ b }}", &syn);
    let b = parse("{% let c = 1 %}d", &syn);
    let whole = parse("a{{ b }}{% let c = 1 %}d", &syn);
    let sa = fmt(&a, &syn).unwrap();
    let sb = fmt(&b, &syn).unwrap();
    assert_eq!(fmt(&whole, &syn).unwrap(), format!("{}{}", sa, sb));
}
