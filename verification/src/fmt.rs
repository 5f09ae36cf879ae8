//! Writing a template tree back out as template source, in a normalised
//! layout: one space inside each tag, whitespace markers kept, expressions
//! and targets printed in their plain form.
//!
//! Only the node, expression and target kinds listed in `node_ok`,
//! `expr_ok` and `target_ok` can be written; the others are outside the
//! formatter's domain.

use vstd::prelude::*;
use crate::ast::{Call, Cond, CondTest, Expr, Let, Loop, Node, Target, When, Whitespace, Ws};
use crate::config::CompileError;
use crate::parse::Syntax;
use crate::text::{str_to_chars, string_push, string_push_str};

verus! {

// ---------------------------------------------------------------------------
// What the formatter writes.
// ---------------------------------------------------------------------------

/// The marker character of a whitespace setting.
pub open spec fn ws_char(w: Whitespace) -> char {
    match w {
        Whitespace::Preserve => '+',
        Whitespace::Suppress => '-',
        Whitespace::Minimize => '~',
    }
}

pub open spec fn opt_ws(o: Option<Whitespace>) -> Seq<char> {
    match o {
        Some(w) => seq![ws_char(w)],
        None => seq![],
    }
}

/// A tag: the opening delimiter, the left marker, the body (between single
/// spaces when `padding`), the right marker and the closing delimiter.
pub open spec fn structured(
    open: Seq<char>,
    close: Seq<char>,
    padding: bool,
    ws: Ws,
    body: Seq<char>,
) -> Seq<char> {
    let pad: Seq<char> = if padding {
        seq![' ']
    } else {
        seq![]
    };
    open + opt_ws(ws.0) + pad + body + pad + opt_ws(ws.1) + close
}

pub open spec fn block_tag(syn: Syntax, ws: Ws, body: Seq<char>) -> Seq<char> {
    structured(syn.block_start@, syn.block_end@, true, ws, body)
}

/// Path segments joined by `::`.
pub open spec fn path_str(p: Seq<String>) -> Seq<char>
    decreases p.len(),
{
    if p.len() == 0 {
        seq![]
    } else if p.len() == 1 {
        p[0]@
    } else {
        path_str(p.drop_last()) + "::"@ + p.last()@
    }
}

pub open spec fn quoted(q: char, s: Seq<char>) -> Seq<char> {
    seq![q] + s + seq![q]
}

pub open spec fn expr_ok(e: Expr) -> bool {
    match e {
        Expr::BoolLit(_) | Expr::NumLit(_) | Expr::Var(_) | Expr::StrLit(_) | Expr::CharLit(_)
        | Expr::Path(_) => true,
        _ => false,
    }
}

pub open spec fn expr_str(e: Expr) -> Seq<char> {
    match e {
        Expr::BoolLit(s) => s@,
        Expr::NumLit(s) => s@,
        Expr::Var(s) => s@,
        Expr::StrLit(s) => quoted('"', s@),
        Expr::CharLit(s) => quoted('\'', s@),
        Expr::Path(p) => path_str(p@),
        _ => seq![],
    }
}

pub open spec fn exprs_ok(v: Seq<Expr>) -> bool {
    forall|i: int| 0 <= i < v.len() ==> expr_ok(#[trigger] v[i])
}

/// Expressions separated by `, `.
pub open spec fn exprs_str(v: Seq<Expr>) -> Seq<char>
    decreases v.len(),
{
    if v.len() == 0 {
        seq![]
    } else if v.len() == 1 {
        expr_str(v[0])
    } else {
        exprs_str(v.drop_last()) + ", "@ + expr_str(v.last())
    }
}

pub open spec fn target_ok(t: Target) -> bool
    decreases t,
{
    match t {
        Target::Name(_) | Target::StrLit(_) | Target::Path(_) => true,
        Target::Tuple(_, v) => targets_ok(v@),
        _ => false,
    }
}

pub open spec fn targets_ok(v: Seq<Target>) -> bool
    decreases v,
{
    if v.len() == 0 {
        true
    } else {
        proof {
            assert(decreases_to!(v => v.drop_last()));
        }
        targets_ok(v.drop_last()) && target_ok(v.last())
    }
}

pub open spec fn target_str(t: Target) -> Seq<char>
    decreases t,
{
    match t {
        Target::Name(s) => s@,
        Target::Tuple(p, v) => path_str(p@) + " with ("@ + targets_str(v@) + ")"@,
        Target::StrLit(s) => quoted('"', s@),
        Target::Path(p) => path_str(p@),
        _ => seq![],
    }
}

/// Targets separated by `, `.
pub open spec fn targets_str(v: Seq<Target>) -> Seq<char>
    decreases v,
{
    if v.len() == 0 {
        seq![]
    } else {
        proof {
            assert(decreases_to!(v => v.drop_last()));
        }
        if v.len() == 1 {
            target_str(v.last())
        } else {
            targets_str(v.drop_last()) + ", "@ + target_str(v.last())
        }
    }
}

/// The text of a comment between its markers. The stored content runs to
/// the end of the closing delimiter; that delimiter (taken to be as long as
/// `close`) and, when there is a right marker, the marker are cut off.
pub open spec fn comment_body(content: Seq<char>, ws: Ws, close: Seq<char>) -> Seq<char> {
    if close.len() <= content.len() {
        let t = content.subrange(0, content.len() - close.len());
        if ws.1 is Some && t.len() > 0 {
            t.drop_last()
        } else {
            t
        }
    } else {
        content
    }
}

pub open spec fn cond_test_str(t: CondTest) -> Seq<char> {
    match t.target {
        Some(target) => "let "@ + target_str(target) + " = "@ + expr_str(t.expr),
        None => expr_str(t.expr),
    }
}

/// The body of the tag that opens a branch: `if ...` for the first one,
/// `else if ...` or `else` for the others.
pub open spec fn cond_head(c: Cond, first: bool) -> Seq<char> {
    let e: Seq<char> = if first {
        seq![]
    } else {
        "else"@
    };
    match c.cond {
        Some(t) => e + (if first {
            seq![]
        } else {
            seq![' ']
        }) + "if "@ + cond_test_str(t),
        None => e,
    }
}

pub open spec fn cond_ok(c: Cond) -> bool {
    match c.cond {
        Some(t) => expr_ok(t.expr) && match t.target {
            Some(x) => target_ok(x),
            None => true,
        },
        None => true,
    }
}

pub open spec fn node_ok(n: Node) -> bool
    decreases n,
{
    match n {
        Node::Lit(_) | Node::Comment(_) | Node::Break(_) | Node::Continue(_) | Node::Extends(_) => true,
        Node::Expr(_, e) => expr_ok(e),
        Node::Call(c) => exprs_ok(c.args@),
        Node::Let(l) => target_ok(l.var) && match l.val {
            Some(e) => expr_ok(e),
            None => true,
        },
        Node::If(i) => conds_ok(i.branches@),
        Node::Match(m) => expr_ok(m.expr) && whens_ok(m.arms@),
        Node::Loop(l) => target_ok(l.var) && expr_ok(l.iter) && match l.cond {
            Some(e) => expr_ok(e),
            None => true,
        } && nodes_ok(l.body@) && nodes_ok(l.else_nodes@),
        Node::BlockDef(b) => nodes_ok(b.nodes@),
        _ => false,
    }
}

pub open spec fn nodes_ok(v: Seq<Node>) -> bool
    decreases v,
{
    if v.len() == 0 {
        true
    } else {
        proof {
            assert(decreases_to!(v => v.drop_last()));
        }
        nodes_ok(v.drop_last()) && node_ok(v.last())
    }
}

pub open spec fn conds_ok(v: Seq<Cond>) -> bool
    decreases v,
{
    if v.len() == 0 {
        true
    } else {
        proof {
            assert(decreases_to!(v => v.drop_last()));
            assert(decreases_to!(v => v.last()));
        }
        conds_ok(v.drop_last()) && cond_ok(v.last()) && nodes_ok(v.last().nodes@)
    }
}

pub open spec fn whens_ok(v: Seq<When>) -> bool
    decreases v,
{
    if v.len() == 0 {
        true
    } else {
        proof {
            assert(decreases_to!(v => v.drop_last()));
            assert(decreases_to!(v => v.last()));
        }
        whens_ok(v.drop_last()) && target_ok(v.last().target) && nodes_ok(v.last().nodes@)
    }
}

/// The body of a `call` tag: `call`, the optional scope, the macro's name
/// and the arguments in brackets.
pub open spec fn call_body(c: Call) -> Seq<char> {
    "call "@ + match c.scope {
        Some(s) => s@ + "::"@,
        None => seq![],
    } + c.name@ + "("@ + exprs_str(c.args@) + ")"@
}

/// The body of a `let` tag, with the value when there is one.
pub open spec fn let_body(l: Let) -> Seq<char> {
    "let "@ + target_str(l.var) + match l.val {
        Some(e) => " = "@ + expr_str(e),
        None => seq![],
    }
}

/// The body of the tag that opens a loop.
pub open spec fn loop_head(l: Loop) -> Seq<char> {
    "for "@ + target_str(l.var) + " in "@ + expr_str(l.iter) + match l.cond {
        Some(e) => " if "@ + expr_str(e),
        None => seq![],
    }
}

/// The source text of one node.
pub open spec fn node_str(n: Node, syn: Syntax) -> Seq<char>
    decreases n,
{
    match n {
        Node::Lit(l) => l.lws@ + l.val@ + l.rws@,
        Node::Comment(c) => structured(
            syn.comment_start@,
            syn.comment_end@,
            false,
            c.ws,
            comment_body(c.content@, c.ws, syn.comment_end@),
        ),
        Node::Expr(ws, e) => structured(syn.expr_start@, syn.expr_end@, true, ws, expr_str(e)),
        Node::Call(c) => block_tag(syn, c.ws, call_body(c)),
        Node::Let(l) => block_tag(syn, l.ws, let_body(l)),
        Node::If(i) => conds_str(i.branches@, syn) + block_tag(syn, i.ws, "endif"@),
        Node::Match(m) => block_tag(syn, m.ws1, "match "@ + expr_str(m.expr)) + whens_str(
            m.arms@,
            syn,
        ) + block_tag(syn, m.ws2, "endmatch"@),
        Node::Loop(l) => block_tag(syn, l.ws1, loop_head(*l)) + nodes_str(l.body@, syn) + (if l.else_nodes@.len() > 0 {
            block_tag(syn, l.ws2, "else"@) + nodes_str(l.else_nodes@, syn)
        } else {
            seq![]
        }) + block_tag(syn, l.ws3, "endfor"@),
        Node::Extends(e) => block_tag(syn, Ws(None, None), "extends "@ + quoted('"', e.path@)),
        Node::BlockDef(b) => block_tag(syn, b.ws1, "block "@ + b.name@) + nodes_str(b.nodes@, syn)
            + block_tag(syn, b.ws1, "endblock"@),
        Node::Break(ws) => block_tag(syn, ws, "break"@),
        Node::Continue(ws) => block_tag(syn, ws, "continue"@),
        _ => seq![],
    }
}

/// The source text of a list of nodes: their texts one after the other.
pub open spec fn nodes_str(v: Seq<Node>, syn: Syntax) -> Seq<char>
    decreases v,
{
    if v.len() == 0 {
        seq![]
    } else {
        proof {
            assert(decreases_to!(v => v.drop_last()));
        }
        nodes_str(v.drop_last(), syn) + node_str(v.last(), syn)
    }
}

/// The branches of an `if`, each an opening tag and its nodes.
pub open spec fn conds_str(v: Seq<Cond>, syn: Syntax) -> Seq<char>
    decreases v,
{
    if v.len() == 0 {
        seq![]
    } else {
        proof {
            assert(decreases_to!(v => v.drop_last()));
            assert(decreases_to!(v => v.last()));
        }
        conds_str(v.drop_last(), syn) + block_tag(syn, v.last().ws, cond_head(v.last(), v.len() == 1))
            + nodes_str(v.last().nodes@, syn)
    }
}

/// The arms of a `match`, each a `when` tag and its nodes.
pub open spec fn whens_str(v: Seq<When>, syn: Syntax) -> Seq<char>
    decreases v,
{
    if v.len() == 0 {
        seq![]
    } else {
        proof {
            assert(decreases_to!(v => v.drop_last()));
            assert(decreases_to!(v => v.last()));
        }
        whens_str(v.drop_last(), syn) + block_tag(
            syn,
            v.last().ws,
            "when "@ + target_str(v.last().target),
        ) + nodes_str(v.last().nodes@, syn)
    }
}


// ---------------------------------------------------------------------------
// Facts about the lists.
// ---------------------------------------------------------------------------

pub open spec fn tag_open(open: Seq<char>, padding: bool, ws: Ws) -> Seq<char> {
    open + opt_ws(ws.0) + (if padding {
        seq![' ']
    } else {
        seq![]
    })
}

pub open spec fn tag_close(close: Seq<char>, padding: bool, ws: Ws) -> Seq<char> {
    (if padding {
        seq![' ']
    } else {
        seq![]
    }) + opt_ws(ws.1) + close
}

proof fn lemma_structured(pre: Seq<char>, open: Seq<char>, close: Seq<char>, padding: bool, ws: Ws, body: Seq<char>)
    ensures
        pre + tag_open(open, padding, ws) + body + tag_close(close, padding, ws) == pre + structured(
            open,
            close,
            padding,
            ws,
            body,
        ),
{
    assert(pre + tag_open(open, padding, ws) + body + tag_close(close, padding, ws) =~= pre
        + structured(open, close, padding, ws, body));
}

proof fn lemma_targets_ok(v: Seq<Target>, i: int)
    requires
        targets_ok(v),
        0 <= i < v.len(),
    ensures
        target_ok(v[i]),
    decreases v.len(),
{
    if i < v.len() - 1 {
        lemma_targets_ok(v.drop_last(), i);
    }
}

proof fn lemma_nodes_ok(v: Seq<Node>, i: int)
    requires
        nodes_ok(v),
        0 <= i < v.len(),
    ensures
        node_ok(v[i]),
    decreases v.len(),
{
    if i < v.len() - 1 {
        lemma_nodes_ok(v.drop_last(), i);
    }
}

proof fn lemma_conds_ok(v: Seq<Cond>, i: int)
    requires
        conds_ok(v),
        0 <= i < v.len(),
    ensures
        cond_ok(v[i]),
        nodes_ok(v[i].nodes@),
    decreases v.len(),
{
    if i < v.len() - 1 {
        lemma_conds_ok(v.drop_last(), i);
    }
}

proof fn lemma_whens_ok(v: Seq<When>, i: int)
    requires
        whens_ok(v),
        0 <= i < v.len(),
    ensures
        target_ok(v[i].target),
        nodes_ok(v[i].nodes@),
    decreases v.len(),
{
    if i < v.len() - 1 {
        lemma_whens_ok(v.drop_last(), i);
    }
}

// ---------------------------------------------------------------------------
// The formatter.
// ---------------------------------------------------------------------------

/// The marker character of a whitespace setting: `+`, `-` or `~`.
pub fn ws_to_char(ws: &Whitespace) -> (r: char)
    ensures
        r == ws_char(*ws),
{
    match ws {
        Whitespace::Preserve => '+',
        Whitespace::Suppress => '-',
        Whitespace::Minimize => '~',
    }
}

fn write_opt_ws(buf: &mut String, o: Option<Whitespace>)
    ensures
        final(buf)@ == old(buf)@ + opt_ws(o),
{
    match o {
        Some(w) => {
            string_push(buf, ws_to_char(&w));
        },
        None => {
            assert(old(buf)@ + opt_ws(o) =~= old(buf)@);
        },
    }
}

fn write_open(buf: &mut String, open: &str, padding: bool, ws: &Ws)
    ensures
        final(buf)@ == old(buf)@ + tag_open(open@, padding, *ws),
{
    string_push_str(buf, open);
    write_opt_ws(buf, ws.0);
    if padding {
        string_push(buf, ' ');
    }
    assert(final(buf)@ =~= old(buf)@ + tag_open(open@, padding, *ws));
}

fn write_close(buf: &mut String, close: &str, padding: bool, ws: &Ws)
    ensures
        final(buf)@ == old(buf)@ + tag_close(close@, padding, *ws),
{
    let ghost start = buf@;
    if padding {
        string_push(buf, ' ');
    }
    write_opt_ws(buf, ws.1);
    string_push_str(buf, close);
    assert(buf@ =~= start + tag_close(close@, padding, *ws));
}

/// Writes a block tag whose body is a single string.
fn write_block_tag(buf: &mut String, syn: &Syntax, ws: &Ws, body: &str)
    ensures
        final(buf)@ == old(buf)@ + block_tag(*syn, *ws, body@),
{
    let ghost start = buf@;
    write_open(buf, syn.block_start.as_str(), true, ws);
    string_push_str(buf, body);
    write_close(buf, syn.block_end.as_str(), true, ws);
    proof {
        lemma_structured(start, syn.block_start@, syn.block_end@, true, *ws, body@);
    }
}

fn write_path(buf: &mut String, p: &Vec<String>)
    ensures
        final(buf)@ == old(buf)@ + path_str(p@),
{
    let ghost start = buf@;
    let mut i: usize = 0;
    while i < p.len()
        invariant
            i <= p@.len(),
            buf@ == start + path_str(p@.subrange(0, i as int)),
        decreases p.len() - i,
    {
        if i > 0 {
            string_push_str(buf, "::");
        }
        string_push_str(buf, p[i].as_str());
        assert(p@.subrange(0, i + 1).drop_last() =~= p@.subrange(0, i as int));
        i = i + 1;
        assert(buf@ =~= start + path_str(p@.subrange(0, i as int)));
    }
    assert(p@.subrange(0, i as int) =~= p@);
}

fn write_expr(buf: &mut String, e: &Expr)
    requires
        expr_ok(*e),
    ensures
        final(buf)@ == old(buf)@ + expr_str(*e),
{
    let ghost start = buf@;
    match e {
        Expr::BoolLit(s) => string_push_str(buf, s.as_str()),
        Expr::NumLit(s) => string_push_str(buf, s.as_str()),
        Expr::Var(s) => string_push_str(buf, s.as_str()),
        Expr::StrLit(s) => {
            string_push(buf, '"');
            string_push_str(buf, s.as_str());
            string_push(buf, '"');
            assert(buf@ =~= start + expr_str(*e));
        },
        Expr::CharLit(s) => {
            string_push(buf, '\'');
            string_push_str(buf, s.as_str());
            string_push(buf, '\'');
            assert(buf@ =~= start + expr_str(*e));
        },
        Expr::Path(p) => write_path(buf, p),
        _ => {},
    }
}

fn write_exprs(buf: &mut String, v: &Vec<Expr>)
    requires
        exprs_ok(v@),
    ensures
        final(buf)@ == old(buf)@ + exprs_str(v@),
{
    let ghost start = buf@;
    let mut i: usize = 0;
    while i < v.len()
        invariant
            i <= v@.len(),
            exprs_ok(v@),
            buf@ == start + exprs_str(v@.subrange(0, i as int)),
        decreases v.len() - i,
    {
        if i > 0 {
            string_push_str(buf, ", ");
        }
        write_expr(buf, &v[i]);
        assert(v@.subrange(0, i + 1).drop_last() =~= v@.subrange(0, i as int));
        i = i + 1;
        assert(buf@ =~= start + exprs_str(v@.subrange(0, i as int)));
    }
    assert(v@.subrange(0, i as int) =~= v@);
}

fn write_target(buf: &mut String, t: &Target)
    requires
        target_ok(*t),
    ensures
        final(buf)@ == old(buf)@ + target_str(*t),
    decreases t,
{
    let ghost start = buf@;
    match t {
        Target::Name(s) => string_push_str(buf, s.as_str()),
        Target::Tuple(p, v) => {
            write_path(buf, p);
            string_push_str(buf, " with (");
            write_targets(buf, v);
            string_push_str(buf, ")");
            assert(buf@ =~= start + target_str(*t));
        },
        Target::StrLit(s) => {
            string_push(buf, '"');
            string_push_str(buf, s.as_str());
            string_push(buf, '"');
            assert(buf@ =~= start + target_str(*t));
        },
        Target::Path(p) => write_path(buf, p),
        _ => {},
    }
}

fn write_targets(buf: &mut String, v: &Vec<Target>)
    requires
        targets_ok(v@),
    ensures
        final(buf)@ == old(buf)@ + targets_str(v@),
    decreases v,
{
    let ghost start = buf@;
    let mut i: usize = 0;
    while i < v.len()
        invariant
            i <= v@.len(),
            targets_ok(v@),
            buf@ == start + targets_str(v@.subrange(0, i as int)),
        decreases v.len() - i,
    {
        if i > 0 {
            string_push_str(buf, ", ");
        }
        proof {
            lemma_targets_ok(v@, i as int);
        }
        write_target(buf, &v[i]);
        assert(v@.subrange(0, i + 1).drop_last() =~= v@.subrange(0, i as int));
        i = i + 1;
        assert(buf@ =~= start + targets_str(v@.subrange(0, i as int)));
    }
    assert(v@.subrange(0, i as int) =~= v@);
}

fn write_chars(buf: &mut String, v: &Vec<char>, hi: usize)
    requires
        hi <= v@.len(),
    ensures
        final(buf)@ == old(buf)@ + v@.subrange(0, hi as int),
{
    let ghost start = buf@;
    let mut k: usize = 0;
    while k < hi
        invariant
            k <= hi <= v@.len(),
            buf@ == start + v@.subrange(0, k as int),
        decreases hi - k,
    {
        string_push(buf, v[k]);
        k = k + 1;
        assert(buf@ =~= start + v@.subrange(0, k as int));
    }
}

fn write_comment_body(buf: &mut String, content: &str, ws: &Ws, close: &str)
    ensures
        final(buf)@ == old(buf)@ + comment_body(content@, *ws, close@),
{
    let cc = str_to_chars(content);
    let ce = str_to_chars(close);
    if ce.len() <= cc.len() {
        let mut end = cc.len() - ce.len();
        if ws.1.is_some() && end > 0 {
            end = end - 1;
        }
        write_chars(buf, &cc, end);
        proof {
            let t = cc@.subrange(0, cc@.len() - ce@.len());
            if t.len() > 0 {
                assert(t.drop_last() =~= cc@.subrange(0, t.len() - 1));
            }
        }
    } else {
        string_push_str(buf, content);
    }
}

fn write_cond_test(buf: &mut String, t: &CondTest)
    requires
        expr_ok(t.expr),
        match t.target {
            Some(x) => target_ok(x),
            None => true,
        },
    ensures
        final(buf)@ == old(buf)@ + cond_test_str(*t),
{
    let ghost start = buf@;
    match &t.target {
        Some(target) => {
            string_push_str(buf, "let ");
            write_target(buf, target);
            string_push_str(buf, " = ");
        },
        None => {},
    }
    write_expr(buf, &t.expr);
    assert(buf@ =~= start + cond_test_str(*t));
}

fn write_call(buf: &mut String, c: &Call, syn: &Syntax)
    requires
        exprs_ok(c.args@),
    ensures
        final(buf)@ == old(buf)@ + block_tag(*syn, c.ws, call_body(*c)),
{
    let ghost start = buf@;
    write_open(buf, syn.block_start.as_str(), true, &c.ws);
    let ghost b0 = buf@;
    string_push_str(buf, "call ");
    match &c.scope {
        Some(scope) => {
            string_push_str(buf, scope.as_str());
            string_push_str(buf, "::");
        },
        None => {},
    }
    string_push_str(buf, c.name.as_str());
    string_push_str(buf, "(");
    write_exprs(buf, &c.args);
    string_push_str(buf, ")");
    assert(buf@ =~= b0 + call_body(*c));
    write_close(buf, syn.block_end.as_str(), true, &c.ws);
    proof {
        lemma_structured(start, syn.block_start@, syn.block_end@, true, c.ws, call_body(*c));
    }
}

fn write_let(buf: &mut String, l: &Let, syn: &Syntax)
    requires
        target_ok(l.var),
        match l.val {
            Some(e) => expr_ok(e),
            None => true,
        },
    ensures
        final(buf)@ == old(buf)@ + block_tag(*syn, l.ws, let_body(*l)),
{
    let ghost start = buf@;
    write_open(buf, syn.block_start.as_str(), true, &l.ws);
    let ghost b0 = buf@;
    string_push_str(buf, "let ");
    write_target(buf, &l.var);
    match &l.val {
        Some(e) => {
            string_push_str(buf, " = ");
            write_expr(buf, e);
        },
        None => {},
    }
    assert(buf@ =~= b0 + let_body(*l));
    write_close(buf, syn.block_end.as_str(), true, &l.ws);
    proof {
        lemma_structured(start, syn.block_start@, syn.block_end@, true, l.ws, let_body(*l));
    }
}

fn write_tag_with_expr(buf: &mut String, syn: &Syntax, ws: &Ws, head: &str, e: &Expr)
    requires
        expr_ok(*e),
    ensures
        final(buf)@ == old(buf)@ + block_tag(*syn, *ws, head@ + expr_str(*e)),
{
    let ghost start = buf@;
    write_open(buf, syn.block_start.as_str(), true, ws);
    let ghost b0 = buf@;
    string_push_str(buf, head);
    write_expr(buf, e);
    assert(buf@ =~= b0 + (head@ + expr_str(*e)));
    write_close(buf, syn.block_end.as_str(), true, ws);
    proof {
        lemma_structured(start, syn.block_start@, syn.block_end@, true, *ws, head@ + expr_str(*e));
    }
}

fn write_loop_head(buf: &mut String, l: &Loop, syn: &Syntax)
    requires
        target_ok(l.var),
        expr_ok(l.iter),
        match l.cond {
            Some(e) => expr_ok(e),
            None => true,
        },
    ensures
        final(buf)@ == old(buf)@ + block_tag(*syn, l.ws1, loop_head(*l)),
{
    let ghost start = buf@;
    write_open(buf, syn.block_start.as_str(), true, &l.ws1);
    let ghost b0 = buf@;
    string_push_str(buf, "for ");
    write_target(buf, &l.var);
    string_push_str(buf, " in ");
    write_expr(buf, &l.iter);
    match &l.cond {
        Some(c) => {
            string_push_str(buf, " if ");
            write_expr(buf, c);
        },
        None => {},
    }
    assert(buf@ =~= b0 + loop_head(*l));
    write_close(buf, syn.block_end.as_str(), true, &l.ws1);
    proof {
        lemma_structured(start, syn.block_start@, syn.block_end@, true, l.ws1, loop_head(*l));
    }
}

fn write_extends(buf: &mut String, path: &str, syn: &Syntax)
    ensures
        final(buf)@ == old(buf)@ + block_tag(*syn, Ws(None, None), "extends "@ + quoted('"', path@)),
{
    let ghost start = buf@;
    let ws = Ws(None, None);
    write_open(buf, syn.block_start.as_str(), true, &ws);
    let ghost b0 = buf@;
    string_push_str(buf, "extends ");
    string_push(buf, '"');
    string_push_str(buf, path);
    string_push(buf, '"');
    let ghost body = "extends "@ + quoted('"', path@);
    assert(buf@ =~= b0 + body);
    write_close(buf, syn.block_end.as_str(), true, &ws);
    proof {
        lemma_structured(start, syn.block_start@, syn.block_end@, true, ws, body);
    }
}

fn write_node(buf: &mut String, n: &Node, syn: &Syntax)
    requires
        node_ok(*n),
    ensures
        final(buf)@ == old(buf)@ + node_str(*n, *syn),
    decreases n,
{
    let ghost start = buf@;
    match n {
        Node::Lit(l) => {
            string_push_str(buf, l.lws.as_str());
            string_push_str(buf, l.val.as_str());
            string_push_str(buf, l.rws.as_str());
            assert(buf@ =~= start + node_str(*n, *syn));
        },
        Node::Comment(c) => {
            write_open(buf, syn.comment_start.as_str(), false, &c.ws);
            write_comment_body(buf, c.content.as_str(), &c.ws, syn.comment_end.as_str());
            write_close(buf, syn.comment_end.as_str(), false, &c.ws);
            proof {
                lemma_structured(
                    start,
                    syn.comment_start@,
                    syn.comment_end@,
                    false,
                    c.ws,
                    comment_body(c.content@, c.ws, syn.comment_end@),
                );
            }
        },
        Node::Expr(ws, e) => {
            write_open(buf, syn.expr_start.as_str(), true, ws);
            write_expr(buf, e);
            write_close(buf, syn.expr_end.as_str(), true, ws);
            proof {
                lemma_structured(start, syn.expr_start@, syn.expr_end@, true, *ws, expr_str(*e));
            }
        },
        Node::Call(c) => write_call(buf, c, syn),
        Node::Let(l) => write_let(buf, l, syn),
        Node::If(i) => {
            write_conds(buf, &i.branches, syn);
            write_block_tag(buf, syn, &i.ws, "endif");
            assert(buf@ =~= start + node_str(*n, *syn));
        },
        Node::Match(m) => {
            write_tag_with_expr(buf, syn, &m.ws1, "match ", &m.expr);
            write_whens(buf, &m.arms, syn);
            write_block_tag(buf, syn, &m.ws2, "endmatch");
            assert(buf@ =~= start + node_str(*n, *syn));
        },
        Node::Loop(l) => {
            write_loop_head(buf, l, syn);
            write_nodes(buf, l.body.as_slice(), syn);
            if l.else_nodes.len() > 0 {
                write_block_tag(buf, syn, &l.ws2, "else");
                write_nodes(buf, l.else_nodes.as_slice(), syn);
            }
            write_block_tag(buf, syn, &l.ws3, "endfor");
            assert(buf@ =~= start + node_str(*n, *syn));
        },
        Node::Extends(e) => write_extends(buf, e.path.as_str(), syn),
        Node::BlockDef(b) => {
            write_block_tag_start(buf, syn, &b.ws1, "block ", b.name.as_str());
            write_nodes(buf, b.nodes.as_slice(), syn);
            write_block_tag(buf, syn, &b.ws1, "endblock");
            assert(buf@ =~= start + node_str(*n, *syn));
        },
        Node::Break(ws) => {
            write_block_tag(buf, syn, ws, "break");
        },
        Node::Continue(ws) => {
            write_block_tag(buf, syn, ws, "continue");
        },
        _ => {},
    }
}

fn write_block_tag_start(buf: &mut String, syn: &Syntax, ws: &Ws, head: &str, name: &str)
    ensures
        final(buf)@ == old(buf)@ + block_tag(*syn, *ws, head@ + name@),
{
    let ghost start = buf@;
    write_open(buf, syn.block_start.as_str(), true, ws);
    let ghost b0 = buf@;
    string_push_str(buf, head);
    string_push_str(buf, name);
    assert(buf@ =~= b0 + (head@ + name@));
    write_close(buf, syn.block_end.as_str(), true, ws);
    proof {
        lemma_structured(start, syn.block_start@, syn.block_end@, true, *ws, head@ + name@);
    }
}

fn write_nodes(buf: &mut String, v: &[Node], syn: &Syntax)
    requires
        nodes_ok(v@),
    ensures
        final(buf)@ == old(buf)@ + nodes_str(v@, *syn),
    decreases v@,
{
    let ghost start = buf@;
    let mut i: usize = 0;
    while i < v.len()
        invariant
            i <= v@.len(),
            nodes_ok(v@),
            buf@ == start + nodes_str(v@.subrange(0, i as int), *syn),
        decreases v.len() - i,
    {
        proof {
            lemma_nodes_ok(v@, i as int);
        }
        write_node(buf, &v[i], syn);
        assert(v@.subrange(0, i + 1).drop_last() =~= v@.subrange(0, i as int));
        i = i + 1;
        assert(buf@ =~= start + nodes_str(v@.subrange(0, i as int), *syn));
    }
    assert(v@.subrange(0, i as int) =~= v@);
}

fn write_conds(buf: &mut String, v: &Vec<Cond>, syn: &Syntax)
    requires
        conds_ok(v@),
    ensures
        final(buf)@ == old(buf)@ + conds_str(v@, *syn),
    decreases v,
{
    let ghost start = buf@;
    let mut i: usize = 0;
    while i < v.len()
        invariant
            i <= v@.len(),
            conds_ok(v@),
            buf@ == start + conds_str(v@.subrange(0, i as int), *syn),
        decreases v.len() - i,
    {
        proof {
            lemma_conds_ok(v@, i as int);
        }
        let c = &v[i];
        let ghost b = buf@;
        write_open(buf, syn.block_start.as_str(), true, &c.ws);
        let ghost b0 = buf@;
        if i > 0 {
            string_push_str(buf, "else");
        }
        match &c.cond {
            Some(t) => {
                if i > 0 {
                    string_push(buf, ' ');
                }
                string_push_str(buf, "if ");
                write_cond_test(buf, t);
            },
            None => {},
        }
        let ghost body = cond_head(*c, i == 0);
        assert(buf@ =~= b0 + body);
        write_close(buf, syn.block_end.as_str(), true, &c.ws);
        proof {
            lemma_structured(b, syn.block_start@, syn.block_end@, true, c.ws, body);
        }
        write_nodes(buf, c.nodes.as_slice(), syn);
        assert(v@.subrange(0, i + 1).drop_last() =~= v@.subrange(0, i as int));
        i = i + 1;
        assert(buf@ =~= start + conds_str(v@.subrange(0, i as int), *syn));
    }
    assert(v@.subrange(0, i as int) =~= v@);
}

fn write_whens(buf: &mut String, v: &Vec<When>, syn: &Syntax)
    requires
        whens_ok(v@),
    ensures
        final(buf)@ == old(buf)@ + whens_str(v@, *syn),
    decreases v,
{
    let ghost start = buf@;
    let mut i: usize = 0;
    while i < v.len()
        invariant
            i <= v@.len(),
            whens_ok(v@),
            buf@ == start + whens_str(v@.subrange(0, i as int), *syn),
        decreases v.len() - i,
    {
        proof {
            lemma_whens_ok(v@, i as int);
        }
        let w = &v[i];
        let ghost b = buf@;
        write_open(buf, syn.block_start.as_str(), true, &w.ws);
        let ghost b0 = buf@;
        string_push_str(buf, "when ");
        write_target(buf, &w.target);
        let ghost body = "when "@ + target_str(w.target);
        assert(buf@ =~= b0 + body);
        write_close(buf, syn.block_end.as_str(), true, &w.ws);
        proof {
            lemma_structured(b, syn.block_start@, syn.block_end@, true, w.ws, body);
        }
        write_nodes(buf, w.nodes.as_slice(), syn);
        assert(v@.subrange(0, i + 1).drop_last() =~= v@.subrange(0, i as int));
        i = i + 1;
        assert(buf@ =~= start + whens_str(v@.subrange(0, i as int), *syn));
    }
    assert(v@.subrange(0, i as int) =~= v@);
}

/// Writes the nodes back out as template source with the delimiters of
/// `syn`. Every node, expression and target must be of a kind the formatter
/// knows (`nodes_ok`).
pub fn fmt(ast: &[Node], syn: &Syntax) -> (r: Result<String, CompileError>)
    requires
        nodes_ok(ast@),
    ensures
        r matches Ok(s) && s@ == nodes_str(ast@, *syn),
{
    let mut buf = String::new();
    write_nodes(&mut buf, ast, syn);
    assert(buf@ =~= nodes_str(ast@, *syn));
    Ok(buf)
}

} // verus!
