use askama::derive_input::{
    get_generics_and_type_name, only_bounds, skip_until_back_to_first_level, skip_until_next_generic,
    DeriveInput, Delimiter, Generics, TokenTree, WhereClause,
};

fn id(s: &str) -> TokenTree {
    TokenTree::Ident(s.to_string())
}

fn p(c: char) -> TokenTree {
    TokenTree::Punct(c)
}

fn lit(s: &str) -> TokenTree {
    TokenTree::Literal(s.to_string())
}

fn body() -> TokenTree {
    TokenTree::Group(Delimiter::Brace, vec![], "{}".to_string())
}

// `Foo<'a, T: Display, const N: usize> where T: Clone { }`
fn generic_item() -> Vec<TokenTree> {
    vec![
        id("Foo"),
        p('<'),
        p('\''),
        id("a"),
        p(','),
        id("T"),
        p(':'),
        id("Display"),
        p(','),
        id("const"),
        id("N"),
        p(':'),
        id("usize"),
        p('>'),
        id("where"),
        id("T"),
        p(':'),
        id("Clone"),
        body(),
    ]
}

#[test]
fn header_with_generics_and_where_clause() {
    let toks = generic_item();
    let mut pos = 0;
    let mut ident = None;
    let mut generics = Generics::new();
    let mut where_clause = WhereClause::new();
    get_generics_and_type_name(&toks, &mut pos, &mut ident, &mut generics, &mut where_clause);
    assert_eq!(pos, toks.len());
    assert_eq!(ident.as_deref(), Some("Foo"));
    assert_eq!(generics.to_string(), "<'a,T,N>");
    assert_eq!(generics.display_with_bounds(), "<'a,T: Display,const N: usize>");
    assert_eq!(where_clause.to_string(), "where T: Clone");
}

#[test]
fn header_without_generics() {
    let toks = vec![id("Unit"), p(';'), id("ignored")];
    let mut pos = 0;
    let mut ident = None;
    let mut generics = Generics::new();
    let mut where_clause = WhereClause::new();
    get_generics_and_type_name(&toks, &mut pos, &mut ident, &mut generics, &mut where_clause);
    assert_eq!(pos, 2);
    assert_eq!(ident.as_deref(), Some("Unit"));
    assert_eq!(generics.to_string(), "");
    assert_eq!(generics.display_with_bounds(), "");
    assert_eq!(where_clause.to_string(), "");
}

#[test]
fn header_without_name() {
    let toks = vec![p('<'), id("T"), p('>')];
    let mut pos = 0;
    let mut ident = Some("Before".to_string());
    let mut generics = Generics::new();
    let mut where_clause = WhereClause::new();
    get_generics_and_type_name(&toks, &mut pos, &mut ident, &mut generics, &mut where_clause);
    assert_eq!(pos, 1);
    assert_eq!(ident.as_deref(), Some("Before"));
    assert_eq!(generics.to_string(), "");
}

#[test]
fn header_path_in_parameter_and_default() {
    // `Bar<T = u32, U> where U: std::fmt::Debug, { }`
    let toks = vec![
        id("Bar"),
        p('<'),
        id("T"),
        p('='),
        id("u32"),
        p(','),
        id("U"),
        p('>'),
        id("where"),
        id("U"),
        p(':'),
        id("std"),
        p(':'),
        p(':'),
        id("fmt"),
        p(':'),
        p(':'),
        id("Debug"),
        p(','),
        body(),
    ];
    let mut pos = 0;
    let mut ident = None;
    let mut generics = Generics::new();
    let mut where_clause = WhereClause::new();
    get_generics_and_type_name(&toks, &mut pos, &mut ident, &mut generics, &mut where_clause);
    assert_eq!(pos, toks.len());
    assert_eq!(generics.to_string(), "<T,=U>");
    assert_eq!(where_clause.to_string(), "where U: std::fmt::Debug,");
}

#[test]
fn skipping_nested_angle_brackets() {
    // after `<`: `Vec<u8>, X>`
    let toks = vec![p('<'), id("Vec"), p('<'), id("u8"), p('>'), p(','), id("X"), p('>')];
    assert_eq!(skip_until_back_to_first_level(&toks, 1), toks.len());
    assert_eq!(skip_until_back_to_first_level(&toks, 4), 5);
    assert_eq!(skip_until_next_generic(&toks, 1), (6, true));
    assert_eq!(skip_until_next_generic(&toks, 6), (8, false));
    assert_eq!(skip_until_next_generic(&toks, 8), (8, false));
}

#[test]
fn reading_bounds() {
    // after `T:`: `Clone + 'static, U>`
    let toks = vec![p('+'), p('\''), id("static"), p(','), id("U"), p('>')];
    let mut bounds: Vec<char> = "Clone".chars().collect();
    assert_eq!(only_bounds(&toks, 0, &mut bounds), (4, true));
    assert_eq!(bounds.iter().collect::<String>(), "Clone+'static");
    let mut rest: Vec<char> = Vec::new();
    assert_eq!(only_bounds(&toks, 4, &mut rest), (6, false));
    assert_eq!(rest.iter().collect::<String>(), "U");
}

#[test]
fn adding_generics_and_lifetimes() {
    let mut g = Generics::default();
    g.add_generic("  T ", " Clone ");
    g.add_generic("   ", "Ignored");
    g.add_generic("U", "");
    g.add_lifetime(" 'a ", "");
    g.add_lifetime("'_", "");
    g.add_lifetime("", "'b");
    assert_eq!(g.inner.len(), 4);
    assert_eq!(g.to_string(), "<'a,T,U>");
    assert_eq!(g.display_with_bounds(), "<'_,'a,T: Clone,U>");
}

#[test]
fn adding_predicates() {
    let mut w = WhereClause::default();
    assert_eq!(w.to_string(), "");
    w.add_predicate("  ");
    assert_eq!(w.inner, None);
    w.add_predicate(" T: Clone ");
    assert_eq!(w.to_string(), "where T: Clone");
    w.add_predicate("U: Copy");
    assert_eq!(w.to_string(), "where T: Clone,U: Copy");
    let mut w2 = WhereClause { inner: Some("A: B,".to_string()) };
    w2.add_predicate("C: D");
    assert_eq!(w2.to_string(), "where A: B,C: D");
}

#[test]
fn derive_input_reads_attributes_and_header() {
    let attr_inner = vec![
        id("template"),
        TokenTree::Group(
            Delimiter::Parenthesis,
            vec![id("path"), p('='), lit("\"hello.html\"")],
            "(path = \"hello.html\")".to_string(),
        ),
    ];
    let attr_copy = vec![
        id("template"),
        TokenTree::Group(
            Delimiter::Parenthesis,
            vec![id("path"), p('='), lit("\"hello.html\"")],
            "(path = \"hello.html\")".to_string(),
        ),
    ];
    let mut toks = vec![
        p('#'),
        TokenTree::Group(Delimiter::Bracket, attr_inner, "[template(path = \"hello.html\")]".to_string()),
        p('#'),
        TokenTree::Group(Delimiter::Parenthesis, vec![], "()".to_string()),
        id("pub"),
        id("struct"),
    ];
    toks.extend(generic_item());
    let d = DeriveInput::new(toks);
    assert_eq!(d.attrs.len(), 1);
    assert_eq!(d.attrs[0], attr_copy);
    assert_eq!(d.ident, "Foo");
    assert_eq!(d.generics.to_string(), "<'a,T,N>");
    assert_eq!(d.where_clause.to_string(), "where T: Clone");
}

#[test]
fn derive_input_without_item() {
    let d = DeriveInput::new(vec![p('#'), id("struct"), id("Skipped"), p('#')]);
    assert!(d.attrs.is_empty());
    assert_eq!(d.ident, "");
    assert_eq!(d.generics.to_string(), "");
    assert_eq!(d.where_clause.inner, None);
}

#[test]
fn derive_input_enum() {
    let d = DeriveInput::new(vec![id("enum"), id("Choice"), body()]);
    assert_eq!(d.ident, "Choice");
    assert!(d.attrs.is_empty());
}
