//! The first code generator: a template of a literal, one field of the
//! context and another literal becomes an implementation of `Template`
//! whose `render` pushes the three pieces.

use vstd::prelude::*;
use vstd::utf8::{decode_utf8, valid_utf8};
use crate::escape::string_from_utf8;
use crate::text::{str_eq, string_push_str};

verus! {

/// The generated implementation for the context type `ctx` and the three
/// pieces `t0` (literal), `t1` (field name) and `t2` (literal).
pub open spec fn generated(ctx: Seq<char>, t0: Seq<char>, t1: Seq<char>, t2: Seq<char>) -> Seq<char> {
    "impl askama::Template for "@ + ctx + " {\n"@ + "    fn render(&self) -> String {\n"@
        + "        let mut buf = String::new();\n"@ + "        buf.push_str(\""@ + t0 + "\");\n"@
        + "        buf.push_str(&self."@ + t1 + ");\n"@ + "        buf.push_str(\""@ + t2
        + "\");\n"@ + "        buf"@ + "    }\n"@ + "}\n\n"@
}

fn piece(tokens: &Vec<Vec<u8>>, i: usize) -> (r: String)
    requires
        i < tokens@.len(),
        valid_utf8(tokens@[i as int]@),
    ensures
        r@ == decode_utf8(tokens@[i as int]@),
{
    string_from_utf8(tokens[i].clone())
}

/// The code of the `Template` implementation for the context type
/// `ctx_name`, from the first three pieces of the template.
pub fn generate(ctx_name: &str, tokens: &Vec<Vec<u8>>) -> (r: String)
    requires
        tokens@.len() >= 3,
        valid_utf8(tokens@[0]@),
        valid_utf8(tokens@[1]@),
        valid_utf8(tokens@[2]@),
    ensures
        r@ == generated(
            ctx_name@,
            decode_utf8(tokens@[0]@),
            decode_utf8(tokens@[1]@),
            decode_utf8(tokens@[2]@),
        ),
{
    let t0 = piece(tokens, 0);
    let t1 = piece(tokens, 1);
    let t2 = piece(tokens, 2);
    let mut code = String::new();
    string_push_str(&mut code, "impl askama::Template for ");
    string_push_str(&mut code, ctx_name);
    string_push_str(&mut code, " {\n");
    string_push_str(&mut code, "    fn render(&self) -> String {\n");
    string_push_str(&mut code, "        let mut buf = String::new();\n");
    string_push_str(&mut code, "        buf.push_str(\"");
    string_push_str(&mut code, t0.as_str());
    string_push_str(&mut code, "\");\n");
    string_push_str(&mut code, "        buf.push_str(&self.");
    string_push_str(&mut code, t1.as_str());
    string_push_str(&mut code, ");\n");
    string_push_str(&mut code, "        buf.push_str(\"");
    string_push_str(&mut code, t2.as_str());
    string_push_str(&mut code, "\");\n");
    string_push_str(&mut code, "        buf");
    string_push_str(&mut code, "    }\n");
    string_push_str(&mut code, "}\n\n");
    assert(code@ =~= generated(ctx_name@, t0@, t1@, t2@));
    code
}


/// The Rust keywords that generated code writes as raw identifiers (`r#`),
/// so that template variables may bear their names: all keywords but
/// `self`, `Self`, `super` (which cannot be raw) and `loop`.
pub open spec fn is_raw_keyword(s: Seq<char>) -> bool {
    ||| s == "as"@
    ||| s == "do"@
    ||| s == "fn"@
    ||| s == "if"@
    ||| s == "in"@
    ||| s == "box"@
    ||| s == "dyn"@
    ||| s == "for"@
    ||| s == "let"@
    ||| s == "mod"@
    ||| s == "mut"@
    ||| s == "pub"@
    ||| s == "ref"@
    ||| s == "try"@
    ||| s == "use"@
    ||| s == "else"@
    ||| s == "enum"@
    ||| s == "impl"@
    ||| s == "move"@
    ||| s == "priv"@
    ||| s == "true"@
    ||| s == "type"@
    ||| s == "async"@
    ||| s == "await"@
    ||| s == "break"@
    ||| s == "const"@
    ||| s == "crate"@
    ||| s == "false"@
    ||| s == "final"@
    ||| s == "macro"@
    ||| s == "match"@
    ||| s == "trait"@
    ||| s == "where"@
    ||| s == "while"@
    ||| s == "yield"@
    ||| s == "become"@
    ||| s == "extern"@
    ||| s == "return"@
    ||| s == "static"@
    ||| s == "struct"@
    ||| s == "typeof"@
    ||| s == "unsafe"@
    ||| s == "unsized"@
    ||| s == "virtual"@
    ||| s == "abstract"@
    ||| s == "continue"@
    ||| s == "override"@
}

/// The identifier as generated code writes it: `r#` before a Rust keyword.
pub open spec fn normalized_identifier(s: Seq<char>) -> Seq<char> {
    if is_raw_keyword(s) {
        "r#"@ + s
    } else {
        s
    }
}

/// Writes `ident` as a raw identifier when it is a Rust keyword, so that it
/// does not collide with the language in generated code.
pub fn normalize_identifier(ident: &str) -> (r: String)
    ensures
        r@ == normalized_identifier(ident@),
{
    if str_eq(ident, "as") || str_eq(ident, "do") || str_eq(ident, "fn") || str_eq(ident, "if") || str_eq(ident, "in") || str_eq(ident, "box") || str_eq(ident, "dyn") || str_eq(ident, "for") || str_eq(ident, "let") || str_eq(ident, "mod") || str_eq(ident, "mut") || str_eq(ident, "pub") || str_eq(ident, "ref") || str_eq(ident, "try") || str_eq(ident, "use") || str_eq(ident, "else") || str_eq(ident, "enum") || str_eq(ident, "impl") || str_eq(ident, "move") || str_eq(ident, "priv") || str_eq(ident, "true") || str_eq(ident, "type") || str_eq(ident, "async") || str_eq(ident, "await") || str_eq(ident, "break") || str_eq(ident, "const") || str_eq(ident, "crate") || str_eq(ident, "false") || str_eq(ident, "final") || str_eq(ident, "macro") || str_eq(ident, "match") || str_eq(ident, "trait") || str_eq(ident, "where") || str_eq(ident, "while") || str_eq(ident, "yield") || str_eq(ident, "become") || str_eq(ident, "extern") || str_eq(ident, "return") || str_eq(ident, "static") || str_eq(ident, "struct") || str_eq(ident, "typeof") || str_eq(ident, "unsafe") || str_eq(ident, "unsized") || str_eq(ident, "virtual") || str_eq(ident, "abstract") || str_eq(ident, "continue") || str_eq(ident, "override") {
        let mut out = "r#".to_owned();
        string_push_str(&mut out, ident);
        out
    } else {
        ident.to_owned()
    }
}

} // verus!
