//! The template level of the grammar: literal text, comments, expression
//! tags and block tags (`call`, `let`/`set`, `if`, `for`, `match`,
//! `extends`, `include`, `import`, `block`, `macro`, `raw`, `break`,
//! `continue`, `filter`), with the delimiters of a configurable syntax.

use vstd::prelude::*;
use crate::ast::{
    CallM, CommentM, CondM, CondTestM, Ws, Whitespace, ExprM, FilterM, IfM, LetM, LitM, LoopM,
    MatchM, NodeM, TargetM, WhenM, BlockDefM, ImportM, MacroM, RawM, FilterBlockM,
};
use crate::lex::{
    EndKind, Msg, SR, after_mark, char_at, ident, keyword, run, Class, skip_ws, str_lit,
    str_lit_err, tag_at, ws_keyword, ws_mark, is_ws, lemma_skip_ws, lemma_ident,
};
use crate::expr_parser::{arguments_p, expr_p, filter_p, max_level, not_parsed};
use crate::target_parser::target_p;

verus! {

/// The six delimiters of a template syntax, as character sequences.
pub struct Delims {
    pub bs: Seq<char>,
    pub be: Seq<char>,
    pub es: Seq<char>,
    pub ee: Seq<char>,
    pub cs: Seq<char>,
    pub ce: Seq<char>,
}

/// All delimiters are non-empty.
pub open spec fn delims_ok(d: Delims) -> bool {
    d.bs.len() > 0 && d.be.len() > 0 && d.es.len() > 0 && d.ee.len() > 0 && d.cs.len() > 0
        && d.ce.len() > 0
}

// ---------------------------------------------------------------------------
// Literal text.
// ---------------------------------------------------------------------------

/// The end of a trailing run of whitespace before `b` that stays at or
/// after `lo`.
pub open spec fn rtrim_ws(c: Seq<char>, b: int, lo: int) -> int
    decreases b - lo,
{
    if b > lo && 0 < b <= c.len() && is_ws(c[b - 1]) {
        rtrim_ws(c, b - 1, lo)
    } else {
        b
    }
}

/// Splits text into leading whitespace, the trimmed value and trailing
/// whitespace.
pub open spec fn split_ws(c: Seq<char>) -> LitM {
    let a = run(c, 0, Class::Ws);
    let b = rtrim_ws(c, c.len() as int, a);
    LitM { lws: c.subrange(0, a), val: c.subrange(a, b), rws: c.subrange(b, c.len() as int) }
}

/// A block, comment or expression start tag at `k`.
pub open spec fn start_at(s: Seq<char>, d: Delims, k: int) -> bool {
    tag_at(s, k, d.bs) || tag_at(s, k, d.cs) || tag_at(s, k, d.es)
}

/// The first start tag at or after `k`.
pub open spec fn find_start(s: Seq<char>, d: Delims, k: int) -> Option<int>
    decreases s.len() - k,
{
    if k < 0 || k > s.len() {
        None
    } else if start_at(s, d, k) {
        Some(k)
    } else if k == s.len() {
        None
    } else {
        find_start(s, d, k + 1)
    }
}

/// Literal text from `i` up to the next start tag or the end of the input;
/// it must not be empty.
pub open spec fn lit_p(s: Seq<char>, d: Delims, i: int) -> SR<LitM> {
    if !(0 <= i < s.len()) {
        SR::Backtrack(i)
    } else {
        match find_start(s, d, i) {
            Some(k) => if k == i {
                SR::Backtrack(i)
            } else {
                SR::Parsed(k, split_ws(s.subrange(i, k)))
            },
            None => SR::Parsed(s.len() as int, split_ws(s.subrange(i, s.len() as int))),
        }
    }
}

// ---------------------------------------------------------------------------
// Comments.
// ---------------------------------------------------------------------------

/// The first comment start (`true`) or end (`false`) tag at or after `k`.
pub open spec fn find_ctag(s: Seq<char>, d: Delims, k: int) -> Option<(int, bool)>
    decreases s.len() - k,
{
    if k < 0 || k > s.len() {
        None
    } else if tag_at(s, k, d.cs) {
        Some((k, true))
    } else if tag_at(s, k, d.ce) {
        Some((k, false))
    } else if k == s.len() {
        None
    } else {
        find_ctag(s, d, k + 1)
    }
}

/// Scans a comment body from `k` at nesting `depth` to the end of the
/// matching end tag.
pub open spec fn comment_scan(s: Seq<char>, d: Delims, k: int, depth: int) -> SR<()>
    decreases s.len() - k,
{
    match find_ctag(s, d, k) {
        None => SR::Fail(s.len() as int, Msg::Plain),
        Some((m, open)) => if open {
            if depth >= usize::MAX {
                SR::Fail(k, Msg::CommentsTooDeep)
            } else if m + d.cs.len() <= k || m + d.cs.len() > s.len() {
                SR::Fail(k, Msg::Plain)
            } else {
                comment_scan(s, d, m + d.cs.len(), depth + 1)
            }
        } else {
            if depth == 0 {
                SR::Parsed(m + d.ce.len(), ())
            } else if m + d.ce.len() <= k || m + d.ce.len() > s.len() {
                SR::Fail(k, Msg::Plain)
            } else {
                comment_scan(s, d, m + d.ce.len(), depth - 1)
            }
        },
    }
}

/// The marker named by a character.
pub open spec fn mark_of(c: char) -> Option<Whitespace> {
    if c == '-' {
        Some(Whitespace::Suppress)
    } else if c == '+' {
        Some(Whitespace::Preserve)
    } else if c == '~' {
        Some(Whitespace::Minimize)
    } else {
        None
    }
}

/// A comment, possibly nested; its content runs from after the optional
/// left marker through the end tag, and the right marker is the character
/// just before the end tag.
pub open spec fn comment_p(s: Seq<char>, d: Delims, i: int) -> SR<CommentM> {
    if !tag_at(s, i, d.cs) {
        SR::Backtrack(i)
    } else {
        let a = i + d.cs.len();
        let c0 = after_mark(s, a);
        match comment_scan(s, d, c0, 0) {
            SR::Parsed(end, _) => {
                let stripped = s.subrange(c0, end - d.ce.len());
                SR::Parsed(
                    end,
                    CommentM {
                        ws: Ws(
                            ws_mark(s, a),
                            if stripped.len() > 0 {
                                mark_of(stripped.last())
                            } else {
                                None
                            },
                        ),
                        content: s.subrange(c0, end),
                    },
                )
            },
            other => not_parsed(other),
        }
    }
}

// ---------------------------------------------------------------------------
// Expression tags.
// ---------------------------------------------------------------------------

/// `{{ expr }}` with optional markers.
pub open spec fn expr_node_p(s: Seq<char>, d: Delims, i: int, lv: int) -> SR<NodeM> {
    if !tag_at(s, i, d.es) {
        SR::Backtrack(i)
    } else {
        let a = i + d.es.len();
        let q = skip_ws(s, after_mark(s, a));
        match expr_p(s, q, lv) {
            SR::Parsed(j, e) => {
                let j2 = skip_ws(s, j);
                let j3 = after_mark(s, j2);
                if tag_at(s, j3, d.ee) {
                    SR::Parsed(j3 + d.ee.len(), NodeM::Expr(Ws(ws_mark(s, a), ws_mark(s, j2)), e))
                } else {
                    SR::Fail(j3, Msg::Plain)
                }
            },
            SR::Backtrack(x) => SR::Fail(x, Msg::Plain),
            SR::Fail(x, m) => SR::Fail(x, m),
        }
    }
}

// ---------------------------------------------------------------------------
// Small pieces of block tags.
// ---------------------------------------------------------------------------

/// `{% [marker] keyword` at `k`: the marker and the position after the
/// keyword and its whitespace.  Both parts are required.
pub open spec fn end_tag_p(s: Seq<char>, d: Delims, k: int, kw: Seq<char>) -> SR<Option<Whitespace>> {
    let a = k + d.bs.len();
    if !tag_at(s, k, d.bs) {
        SR::Fail(k, Msg::Plain)
    } else {
        match ws_keyword(s, after_mark(s, a), kw) {
            Some(r) => SR::Parsed(r, ws_mark(s, a)),
            None => SR::Fail(skip_ws(s, after_mark(s, a)), Msg::Plain),
        }
    }
}

/// The block end tag at `k`, which is required.
pub open spec fn block_end_at(s: Seq<char>, d: Delims, k: int) -> SR<()> {
    if tag_at(s, k, d.be) {
        SR::Parsed(k + d.be.len(), ())
    } else {
        SR::Fail(k, Msg::Plain)
    }
}

/// An optional name after an end keyword that must repeat the block's
/// name `name_a..name_b`; the position after it.
pub open spec fn end_name_p(s: Seq<char>, before: int, kind: EndKind, name_a: int, name_b: int) -> SR<()> {
    let q = skip_ws(s, before);
    match ident(s, q) {
        None => SR::Parsed(before, ()),
        Some(e) => if s.subrange(q, e) == s.subrange(name_a, name_b) {
            SR::Parsed(skip_ws(s, e), ())
        } else {
            SR::Fail(
                before,
                Msg::EndName(kind, name_a as usize, name_b as usize, q as usize, e as usize),
            )
        },
    }
}

/// Macro parameters: `( name, ... )` with an optional trailing comma.
pub open spec fn params_p(s: Seq<char>, p: int) -> Option<(int, Seq<Seq<char>>)> {
    let q = skip_ws(s, p);
    let a = skip_ws(s, q + 1);
    if !char_at(s, q, '(') {
        None
    } else {
        let (k, names) = match ident(s, a) {
            Some(e) => param_rest(s, skip_ws(s, e), seq![s.subrange(a, e)]),
            None => (a, seq![]),
        };
        let q4 = skip_ws(s, k);
        let k2 = if char_at(s, q4, ',') {
            skip_ws(s, q4 + 1)
        } else {
            k
        };
        if char_at(s, k2, ')') {
            Some((k2 + 1, names))
        } else {
            None
        }
    }
}

pub open spec fn param_rest(s: Seq<char>, i: int, acc: Seq<Seq<char>>) -> (int, Seq<Seq<char>>)
    decreases s.len() - i,
{
    let k = skip_ws(s, i + 1);
    if 0 <= i < s.len() && char_at(s, i, ',') && ident(s, k) is Some {
        proof {
            lemma_skip_ws(s, i + 1);
            lemma_ident(s, k);
            lemma_skip_ws(s, ident(s, k)->0);
        }
        param_rest(s, skip_ws(s, ident(s, k)->0), acc.push(s.subrange(k, ident(s, k)->0)))
    } else {
        (i, acc)
    }
}

/// Comments (and the whitespace around them) at the start of a `match`.
pub open spec fn skip_comments(s: Seq<char>, d: Delims, k: int) -> SR<int>
    decreases s.len() - k,
{
    let q = skip_ws(s, k);
    match comment_p(s, d, q) {
        SR::Parsed(j, _) => if k < j <= s.len() {
            proof {
                lemma_skip_ws(s, j);
            }
            skip_comments(s, d, skip_ws(s, j))
        } else {
            SR::Parsed(k, k)
        },
        SR::Backtrack(_) => SR::Parsed(k, k),
        SR::Fail(x, m) => SR::Fail(x, m),
    }
}

/// The end tag of a `raw` block at `k`: `{% [m] endraw [m]` followed by the
/// block end tag, which is not consumed.
pub open spec fn endraw_at(s: Seq<char>, d: Delims, k: int) -> Option<(int, Ws)> {
    let a = k + d.bs.len();
    if !tag_at(s, k, d.bs) {
        None
    } else {
        match ws_keyword(s, after_mark(s, a), seq!['e', 'n', 'd', 'r', 'a', 'w']) {
            Some(r) => if tag_at(s, after_mark(s, r), d.be) {
                Some((after_mark(s, r), Ws(ws_mark(s, a), ws_mark(s, r))))
            } else {
                None
            },
            None => None,
        }
    }
}

/// The first `raw` end tag at or after `k`.
pub open spec fn find_endraw(s: Seq<char>, d: Delims, k: int) -> Option<(int, int, Ws)>
    decreases s.len() - k,
{
    if k < 0 || k > s.len() {
        None
    } else {
        match endraw_at(s, d, k) {
            Some((j, w)) => Some((k, j, w)),
            None => if k == s.len() {
                None
            } else {
                find_endraw(s, d, k + 1)
            },
        }
    }
}


// ---------------------------------------------------------------------------
// Conditions and filter chains.
// ---------------------------------------------------------------------------

/// `if expr` or `if let target = expr` (also `if set ...`).
pub open spec fn condtest_p(s: Seq<char>, c: int, lv: int) -> SR<CondTestM> {
    match ws_keyword(s, c, seq!['i', 'f']) {
        None => SR::Backtrack(skip_ws(s, c)),
        Some(r) => {
            let kw = match keyword(s, r, seq!['l', 'e', 't']) {
                Some(e) => Some(e),
                None => keyword(s, r, seq!['s', 'e', 't']),
            };
            let tr: SR<TargetM> = match kw {
                Some(e) => match target_p(s, skip_ws(s, e), lv) {
                    SR::Parsed(e2, t) => if char_at(s, skip_ws(s, e2), '=') {
                        SR::Parsed(skip_ws(s, skip_ws(s, e2) + 1), t)
                    } else {
                        SR::Backtrack(r)
                    },
                    other => other,
                },
                None => SR::Backtrack(r),
            };
            match tr {
                SR::Fail(x, m) => SR::Fail(x, m),
                _ => {
                    let (target, tpos) = match tr {
                        SR::Parsed(x, t) => (Some(t), x),
                        _ => (None, r),
                    };
                    match expr_p(s, tpos, lv) {
                        SR::Parsed(j, e) => SR::Parsed(
                            skip_ws(s, j),
                            CondTestM { target, expr: e },
                        ),
                        SR::Backtrack(x) => SR::Fail(x, Msg::Plain),
                        SR::Fail(x, m) => SR::Fail(x, m),
                    }
                },
            }
        },
    }
}

/// More `|name(args)` filters of a filter block, each wrapping the previous.
pub open spec fn fb_filters(s: Seq<char>, i: int, lv: int, acc: FilterM) -> SR<FilterM>
    decreases s.len() - i,
{
    match filter_p(s, i, lv) {
        SR::Parsed(j, (name, args)) => if i < j <= s.len() {
            fb_filters(
                s,
                j,
                lv,
                FilterM { name, arguments: seq![ExprM::Filter(acc)] + args },
            )
        } else {
            SR::Backtrack(i)
        },
        SR::Backtrack(_) => SR::Parsed(i, acc),
        SR::Fail(x, m) => SR::Fail(x, m),
    }
}

// ---------------------------------------------------------------------------
// Nodes.
// ---------------------------------------------------------------------------

/// Nodes from `i` until none applies, appended to `acc`.  `lv` is the
/// nesting level and `lp` whether the nodes are inside a loop body.
pub open spec fn nodes_p(s: Seq<char>, d: Delims, i: int, lv: int, lp: bool, acc: Seq<NodeM>) -> SR<
    Seq<NodeM>,
>
    decreases max_level() - lv, s.len() - i, 1int,
{
    if !(0 <= i <= s.len()) {
        SR::Parsed(i, acc)
    } else {
        let r: SR<NodeM> = match lit_p(s, d, i) {
            SR::Parsed(j, l) => SR::Parsed(j, NodeM::Lit(l)),
            SR::Fail(x, m) => SR::Fail(x, m),
            SR::Backtrack(_) => match comment_p(s, d, i) {
                SR::Parsed(j, c) => SR::Parsed(j, NodeM::Comment(c)),
                SR::Fail(x, m) => SR::Fail(x, m),
                SR::Backtrack(_) => match expr_node_p(s, d, i, lv) {
                    SR::Backtrack(_) => block_p(s, d, i, lv, lp),
                    other => other,
                },
            },
        };
        match r {
            SR::Parsed(j, n) => if i < j <= s.len() {
                nodes_p(s, d, j, lv, lp, acc.push(n))
            } else {
                SR::Backtrack(i)
            },
            SR::Backtrack(_) => SR::Parsed(i, acc),
            SR::Fail(x, m) => SR::Fail(x, m),
        }
    }
}

/// A block tag: the start delimiter, one of the block kinds one level
/// deeper, and the end delimiter.
pub open spec fn block_p(s: Seq<char>, d: Delims, i: int, lv: int, lp: bool) -> SR<NodeM>
    decreases max_level() - lv, s.len() - i, 0int,
{
    if lv >= max_level() {
        SR::Fail(i, Msg::Plain)
    } else if !(0 <= i <= s.len()) || !tag_at(s, i, d.bs) {
        SR::Backtrack(i)
    } else {
        match kinds_p(s, d, i + d.bs.len(), lv + 1, lp) {
            SR::Parsed(j, n) => if tag_at(s, j, d.be) {
                SR::Parsed(j + d.be.len(), n)
            } else {
                SR::Fail(j, Msg::Plain)
            },
            other => other,
        }
    }
}

/// The block kinds, in the order they are tried.
pub open spec fn kinds_p(s: Seq<char>, d: Delims, b: int, lv: int, lp: bool) -> SR<NodeM>
    decreases max_level() - lv, s.len() - b, 3int,
{
    match call_k(s, b, lv) {
        SR::Backtrack(_) => match let_k(s, b, lv) {
            SR::Backtrack(_) => match if_k(s, d, b, lv, lp) {
                SR::Backtrack(_) => match loop_k(s, d, b, lv, lp) {
                    SR::Backtrack(_) => match match_k(s, d, b, lv, lp) {
                        SR::Backtrack(_) => match extends_k(s, b) {
                            SR::Backtrack(_) => match include_k(s, b) {
                                SR::Backtrack(_) => match import_k(s, b) {
                                    SR::Backtrack(_) => match blockdef_k(s, d, b, lv, lp) {
                                        SR::Backtrack(_) => match macro_k(s, d, b, lv, lp) {
                                            SR::Backtrack(_) => match raw_k(s, d, b) {
                                                SR::Backtrack(_) => match jump_k(
                                                    s,
                                                    b,
                                                    lp,
                                                    true,
                                                ) {
                                                    SR::Backtrack(_) => match jump_k(
                                                        s,
                                                        b,
                                                        lp,
                                                        false,
                                                    ) {
                                                        SR::Backtrack(_) => filterblock_k(
                                                            s,
                                                            d,
                                                            b,
                                                            lv,
                                                            lp,
                                                        ),
                                                        other => other,
                                                    },
                                                    other => other,
                                                },
                                                other => other,
                                            },
                                            other => other,
                                        },
                                        other => other,
                                    },
                                    other => other,
                                },
                                other => other,
                            },
                            other => other,
                        },
                        other => other,
                    },
                    other => other,
                },
                other => other,
            },
            other => other,
        },
        other => other,
    }
}

/// `call [scope::]name(args)`.
pub open spec fn call_k(s: Seq<char>, b: int, lv: int) -> SR<NodeM> {
    let c = after_mark(s, b);
    match ws_keyword(s, c, seq!['c', 'a', 'l', 'l']) {
        None => SR::Backtrack(skip_ws(s, c)),
        Some(r) => {
            let has_scope = ident(s, r) is Some && tag_at(
                s,
                skip_ws(s, ident(s, r)->0),
                seq![':', ':'],
            );
            let pos = if has_scope {
                skip_ws(s, skip_ws(s, ident(s, r)->0) + 2)
            } else {
                r
            };
            let scope = if has_scope {
                Some(s.subrange(r, ident(s, r)->0))
            } else {
                None
            };
            let q4 = skip_ws(s, pos);
            match ident(s, q4) {
                None => SR::Fail(q4, Msg::Plain),
                Some(e4) => {
                    let q5 = skip_ws(s, e4);
                    match arguments_p(s, q5, lv, true) {
                        SR::Fail(x, m) => SR::Fail(x, m),
                        ar => {
                            let (args, pos7) = match ar {
                                SR::Parsed(j, a) => (a, skip_ws(s, j)),
                                _ => (seq![], q5),
                            };
                            SR::Parsed(
                                after_mark(s, pos7),
                                NodeM::Call(
                                    CallM {
                                        ws: Ws(ws_mark(s, b), ws_mark(s, pos7)),
                                        scope,
                                        name: s.subrange(q4, e4),
                                        args,
                                    },
                                ),
                            )
                        },
                    }
                },
            }
        },
    }
}

/// `let target [= expr]` (also spelled `set`).
pub open spec fn let_k(s: Seq<char>, b: int, lv: int) -> SR<NodeM> {
    let c = after_mark(s, b);
    let q = skip_ws(s, c);
    let kw = match keyword(s, q, seq!['l', 'e', 't']) {
        Some(e) => Some(e),
        None => keyword(s, q, seq!['s', 'e', 't']),
    };
    match kw {
        None => SR::Backtrack(q),
        Some(e) => match target_p(s, skip_ws(s, e), lv) {
            SR::Backtrack(x) => SR::Fail(x, Msg::Plain),
            SR::Fail(x, m) => SR::Fail(x, m),
            SR::Parsed(e1, t) => {
                let q2 = skip_ws(s, e1);
                let vr = if char_at(s, q2, '=') {
                    expr_p(s, skip_ws(s, q2 + 1), lv)
                } else {
                    SR::Backtrack(q2)
                };
                match vr {
                    SR::Fail(x, m) => SR::Fail(x, m),
                    _ => {
                        let (val, pos) = match vr {
                            SR::Parsed(j, v) => (Some(v), skip_ws(s, j)),
                            _ => (None, q2),
                        };
                        SR::Parsed(
                            after_mark(s, pos),
                            NodeM::Let(LetM { ws: Ws(ws_mark(s, b), ws_mark(s, pos)), var: t, val }),
                        )
                    },
                }
            },
        },
    }
}

/// `if cond %} nodes {% else if ... %} ... {% endif`.
pub open spec fn if_k(s: Seq<char>, d: Delims, b: int, lv: int, lp: bool) -> SR<NodeM>
    decreases max_level() - lv, s.len() - b, 0int,
{
    let c = after_mark(s, b);
    match condtest_p(s, c, lv) {
        SR::Parsed(i, ct) => match block_end_at(s, d, after_mark(s, i)) {
            SR::Parsed(i3, _) => if b < i3 <= s.len() {
                match nodes_p(s, d, i3, lv, lp, seq![]) {
                    SR::Parsed(j, nodes) => if i3 <= j <= s.len() {
                        match conds_p(
                            s,
                            d,
                            j,
                            lv,
                            lp,
                            seq![CondM { ws: Ws(ws_mark(s, b), ws_mark(s, i)), cond: Some(ct), nodes }],
                        ) {
                            SR::Parsed(k, branches) => match end_tag_p(
                                s,
                                d,
                                k,
                                seq!['e', 'n', 'd', 'i', 'f'],
                            ) {
                                SR::Parsed(r, pws2) => SR::Parsed(
                                    after_mark(s, r),
                                    NodeM::If(IfM { ws: Ws(pws2, ws_mark(s, r)), branches }),
                                ),
                                other => not_parsed(other),
                            },
                            SR::Backtrack(x) => SR::Fail(x, Msg::Plain),
                            SR::Fail(x, m) => SR::Fail(x, m),
                        }
                    } else {
                        SR::Backtrack(b)
                    },
                    SR::Backtrack(x) => SR::Fail(x, Msg::Plain),
                    SR::Fail(x, m) => SR::Fail(x, m),
                }
            } else {
                SR::Backtrack(b)
            },
            other => not_parsed(other),
        },
        other => not_parsed(other),
    }
}

/// `{% else [if cond] %} nodes`.
pub open spec fn cond_p(s: Seq<char>, d: Delims, k: int, lv: int, lp: bool) -> SR<CondM>
    decreases max_level() - lv, s.len() - k, 0int,
{
    let a = k + d.bs.len();
    let q = skip_ws(s, after_mark(s, a));
    if !tag_at(s, k, d.bs) {
        SR::Backtrack(k)
    } else {
        match keyword(s, q, seq!['e', 'l', 's', 'e']) {
            None => if keyword(s, q, seq!['e', 'l', 'i', 'f']) is Some {
                SR::Fail(q, Msg::UnknownElif)
            } else {
                SR::Backtrack(q)
            },
            Some(e) => {
                let r = skip_ws(s, e);
                let ctr = condtest_p(s, r, lv);
                match ctr {
                    SR::Fail(x, m) => SR::Fail(x, m),
                    _ => {
                        let (cond, pos) = match ctr {
                            SR::Parsed(i, ct) => (Some(ct), i),
                            _ => (None, r),
                        };
                        match block_end_at(s, d, after_mark(s, pos)) {
                            SR::Parsed(p3, _) => if k < p3 <= s.len() {
                                match nodes_p(s, d, p3, lv, lp, seq![]) {
                                    SR::Parsed(j, nodes) => SR::Parsed(
                                        j,
                                        CondM { ws: Ws(ws_mark(s, a), ws_mark(s, pos)), cond, nodes },
                                    ),
                                    SR::Backtrack(x) => SR::Fail(x, Msg::Plain),
                                    SR::Fail(x, m) => SR::Fail(x, m),
                                }
                            } else {
                                SR::Backtrack(k)
                            },
                            other => not_parsed(other),
                        }
                    },
                }
            },
        }
    }
}

pub open spec fn conds_p(s: Seq<char>, d: Delims, k: int, lv: int, lp: bool, acc: Seq<CondM>) -> SR<
    Seq<CondM>,
>
    decreases max_level() - lv, s.len() - k, 1int,
{
    match cond_p(s, d, k, lv, lp) {
        SR::Parsed(j, c) => if k < j <= s.len() {
            conds_p(s, d, j, lv, lp, acc.push(c))
        } else {
            SR::Backtrack(k)
        },
        SR::Backtrack(_) => SR::Parsed(k, acc),
        SR::Fail(x, m) => SR::Fail(x, m),
    }
}

/// `for target in expr [if cond] %} body [{% else %} nodes] {% endfor`.
pub open spec fn loop_k(s: Seq<char>, d: Delims, b: int, lv: int, lp: bool) -> SR<NodeM>
    decreases max_level() - lv, s.len() - b, 2int,
{
    let c = after_mark(s, b);
    match ws_keyword(s, c, seq!['f', 'o', 'r']) {
        None => SR::Backtrack(skip_ws(s, c)),
        Some(r) => match target_p(s, r, lv) {
            SR::Backtrack(x) => SR::Fail(x, Msg::Plain),
            SR::Fail(x, m) => SR::Fail(x, m),
            SR::Parsed(e1, var) => match ws_keyword(s, skip_ws(s, e1), seq!['i', 'n']) {
                None => SR::Fail(skip_ws(s, skip_ws(s, e1)), Msg::Plain),
                Some(r2) => match expr_p(s, r2, lv) {
                    SR::Backtrack(x) => SR::Fail(x, Msg::Plain),
                    SR::Fail(x, m) => SR::Fail(x, m),
                    SR::Parsed(j, iter) => {
                        let r3 = skip_ws(s, j);
                        let cr: SR<Option<ExprM>> = match ws_keyword(s, r3, seq!['i', 'f']) {
                            Some(q5) => match expr_p(s, q5, lv) {
                                SR::Parsed(j5, cnd) => SR::Parsed(skip_ws(s, j5), Some(cnd)),
                                SR::Backtrack(x) => SR::Fail(x, Msg::Plain),
                                SR::Fail(x, m) => SR::Fail(x, m),
                            },
                            None => SR::Parsed(r3, None),
                        };
                        match cr {
                            SR::Parsed(pos, cond) => loop_mid(s, d, b, lv, lp, var, iter, cond, pos),
                            other => not_parsed(other),
                        }
                    },
                },
            },
        },
    }
}

/// The body of a loop whose header ends at `pos`.
pub open spec fn loop_mid(
    s: Seq<char>,
    d: Delims,
    b: int,
    lv: int,
    lp: bool,
    var: TargetM,
    iter: ExprM,
    cond: Option<ExprM>,
    pos: int,
) -> SR<NodeM>
    decreases max_level() - lv, s.len() - b, 1int,
{
    match block_end_at(s, d, after_mark(s, pos)) {
        SR::Parsed(p3, _) => if b < p3 <= s.len() {
            match nodes_p(s, d, p3, lv, true, seq![]) {
                SR::Parsed(j6, body) => if p3 <= j6 <= s.len() {
                    loop_end(s, d, b, lv, lp, var, iter, cond, pos, body, j6)
                } else {
                    SR::Backtrack(b)
                },
                SR::Backtrack(x) => SR::Fail(x, Msg::Plain),
                SR::Fail(x, m) => SR::Fail(x, m),
            }
        } else {
            SR::Backtrack(b)
        },
        other => not_parsed(other),
    }
}

/// The end of a loop after its body ending at `j6`: the start delimiter, an
/// optional `else` block and `endfor`.
pub open spec fn loop_end(
    s: Seq<char>,
    d: Delims,
    b: int,
    lv: int,
    lp: bool,
    var: TargetM,
    iter: ExprM,
    cond: Option<ExprM>,
    pos: int,
    body: Seq<NodeM>,
    j6: int,
) -> SR<NodeM>
    decreases max_level() - lv, s.len() - b, 0int,
{
    let a = j6 + d.bs.len();
    let a2 = after_mark(s, a);
    if !tag_at(s, j6, d.bs) {
        SR::Fail(j6, Msg::Plain)
    } else if !(b < a2 <= s.len()) {
        SR::Backtrack(b)
    } else {
        let eb = else_block_p(s, d, a2, lv, lp);
        match eb {
            SR::Fail(x, m) => SR::Fail(x, m),
            _ => {
                let (els, pos8) = match eb {
                    SR::Parsed(x, e) => (Some(e), x),
                    _ => (None, a2),
                };
                match ws_keyword(s, pos8, seq!['e', 'n', 'd', 'f', 'o', 'r']) {
                    None => SR::Fail(skip_ws(s, pos8), Msg::Plain),
                    Some(r10) => {
                        let (nws3, else_nodes, pws3) = match els {
                            Some(x) => x,
                            None => (None, seq![], None),
                        };
                        SR::Parsed(
                            after_mark(s, r10),
                            NodeM::Loop(
                                Box::new(
                                    LoopM {
                                        ws1: Ws(ws_mark(s, b), ws_mark(s, pos)),
                                        var,
                                        iter,
                                        cond,
                                        body,
                                        ws2: Ws(ws_mark(s, a), nws3),
                                        else_nodes,
                                        ws3: Ws(pws3, ws_mark(s, r10)),
                                    },
                                ),
                            ),
                        )
                    },
                }
            },
        }
    }
}

/// `else [m] %} nodes {% [m]` inside a loop's end tag.
pub open spec fn else_block_p(s: Seq<char>, d: Delims, a2: int, lv: int, lp: bool) -> SR<
    (Option<Whitespace>, Seq<NodeM>, Option<Whitespace>),
>
    decreases max_level() - lv, s.len() - a2, 0int,
{
    match ws_keyword(s, a2, seq!['e', 'l', 's', 'e']) {
        None => SR::Backtrack(skip_ws(s, a2)),
        Some(r6) => match block_end_at(s, d, after_mark(s, r6)) {
            SR::Parsed(p8, _) => if a2 < p8 <= s.len() {
                match nodes_p(s, d, p8, lv, lp, seq![]) {
                    SR::Parsed(j8, en) => if tag_at(s, j8, d.bs) {
                        SR::Parsed(
                            after_mark(s, j8 + d.bs.len()),
                            (ws_mark(s, r6), en, ws_mark(s, j8 + d.bs.len())),
                        )
                    } else {
                        SR::Fail(j8, Msg::Plain)
                    },
                    SR::Backtrack(x) => SR::Fail(x, Msg::Plain),
                    SR::Fail(x, m) => SR::Fail(x, m),
                }
            } else {
                SR::Backtrack(a2)
            },
            other => not_parsed(other),
        },
    }
}

/// `match expr %} [comments] {% when ... %}... [{% else %}...] {% endmatch`.
#[verifier::rlimit(50)]
pub open spec fn match_k(s: Seq<char>, d: Delims, b: int, lv: int, lp: bool) -> SR<NodeM>
    decreases max_level() - lv, s.len() - b, 1int,
{
    let c = after_mark(s, b);
    match ws_keyword(s, c, seq!['m', 'a', 't', 'c', 'h']) {
        None => SR::Backtrack(skip_ws(s, c)),
        Some(r) => match expr_p(s, r, lv) {
            SR::Backtrack(x) => SR::Fail(x, Msg::Plain),
            SR::Fail(x, m) => SR::Fail(x, m),
            SR::Parsed(j, e) => {
                let r1 = skip_ws(s, j);
                match block_end_at(s, d, after_mark(s, r1)) {
                    SR::Parsed(r3, _) => match skip_comments(s, d, skip_ws(s, r3)) {
                        SR::Parsed(k0, _) => {
                            let k1 = skip_ws(s, k0);
                            if !(b < k1 <= s.len()) {
                                SR::Backtrack(b)
                            } else {
                                match when_p(s, d, k1, lv, lp) {
                                    SR::Parsed(j1, w) => if k1 <= j1 <= s.len() {
                                        match whens_rest(s, d, j1, lv, lp, seq![w]) {
                                            SR::Parsed(k2, arms) => if k1 <= k2 <= s.len() {
                                                match_end(s, d, b, lv, lp, e, r1, arms, k2)
                                            } else {
                                                SR::Backtrack(b)
                                            },
                                            SR::Backtrack(x) => SR::Fail(x, Msg::Plain),
                                            SR::Fail(x, m) => SR::Fail(x, m),
                                        }
                                    } else {
                                        SR::Backtrack(b)
                                    },
                                    SR::Backtrack(x) => SR::Fail(x, Msg::Plain),
                                    SR::Fail(x, m) => SR::Fail(x, m),
                                }
                            }
                        },
                        other => not_parsed(other),
                    },
                    other => not_parsed(other),
                }
            },
        },
    }
}

/// The end of a `match` after its arms: an optional `else` arm and the
/// `endmatch` tag.
pub open spec fn match_end(
    s: Seq<char>,
    d: Delims,
    b: int,
    lv: int,
    lp: bool,
    e: ExprM,
    r1: int,
    arms: Seq<WhenM>,
    k2: int,
) -> SR<NodeM>
    decreases max_level() - lv, s.len() - b, 0int,
{
    if !(b < k2 <= s.len()) {
        SR::Backtrack(b)
    } else {
        let er = else_arm_p(s, d, k2, lv, lp);
        match er {
            SR::Fail(x, m) => SR::Fail(x, m),
            _ => {
                let (arms2, pos) = match er {
                    SR::Parsed(x, w2) => (arms.push(w2), x),
                    _ => (arms, k2),
                };
                let q = skip_ws(s, pos);
                let a = skip_ws(s, q + d.bs.len());
                if !tag_at(s, q, d.bs) {
                    SR::Fail(q, Msg::Plain)
                } else {
                    match ws_keyword(s, after_mark(s, a), seq!['e', 'n', 'd', 'm', 'a', 't', 'c', 'h']) {
                        None => SR::Fail(skip_ws(s, after_mark(s, a)), Msg::Plain),
                        Some(r9) => SR::Parsed(
                            after_mark(s, r9),
                            NodeM::Match(
                                MatchM {
                                    ws1: Ws(ws_mark(s, b), ws_mark(s, r1)),
                                    expr: e,
                                    arms: arms2,
                                    ws2: Ws(ws_mark(s, a), ws_mark(s, r9)),
                                },
                            ),
                        ),
                    }
                }
            },
        }
    }
}

/// `{% when target %} nodes`.
pub open spec fn when_p(s: Seq<char>, d: Delims, k: int, lv: int, lp: bool) -> SR<WhenM>
    decreases max_level() - lv, s.len() - k, 0int,
{
    let a = k + d.bs.len();
    if !tag_at(s, k, d.bs) {
        SR::Backtrack(k)
    } else {
        match ws_keyword(s, after_mark(s, a), seq!['w', 'h', 'e', 'n']) {
            None => SR::Backtrack(skip_ws(s, after_mark(s, a))),
            Some(r) => match target_p(s, r, lv) {
                SR::Backtrack(x) => SR::Fail(x, Msg::Plain),
                SR::Fail(x, m) => SR::Fail(x, m),
                SR::Parsed(e1, t) => {
                    let r1 = skip_ws(s, e1);
                    match block_end_at(s, d, after_mark(s, r1)) {
                        SR::Parsed(r3, _) => if k < r3 <= s.len() {
                            match nodes_p(s, d, r3, lv, lp, seq![]) {
                                SR::Parsed(j, nodes) => SR::Parsed(
                                    j,
                                    WhenM { ws: Ws(ws_mark(s, a), ws_mark(s, r1)), target: t, nodes },
                                ),
                                SR::Backtrack(x) => SR::Fail(x, Msg::Plain),
                                SR::Fail(x, m) => SR::Fail(x, m),
                            }
                        } else {
                            SR::Backtrack(k)
                        },
                        other => not_parsed(other),
                    }
                },
            },
        }
    }
}

/// `{% else %} nodes` as the last arm of a `match`.
pub open spec fn else_arm_p(s: Seq<char>, d: Delims, k: int, lv: int, lp: bool) -> SR<WhenM>
    decreases max_level() - lv, s.len() - k, 0int,
{
    let a = k + d.bs.len();
    if !tag_at(s, k, d.bs) {
        SR::Backtrack(k)
    } else {
        match ws_keyword(s, after_mark(s, a), seq!['e', 'l', 's', 'e']) {
            None => SR::Backtrack(skip_ws(s, after_mark(s, a))),
            Some(r) => match block_end_at(s, d, after_mark(s, r)) {
                SR::Parsed(r3, _) => if k < r3 <= s.len() {
                    match nodes_p(s, d, r3, lv, lp, seq![]) {
                        SR::Parsed(j, nodes) => SR::Parsed(
                            j,
                            WhenM {
                                ws: Ws(ws_mark(s, a), ws_mark(s, r)),
                                target: TargetM::Placeholder,
                                nodes,
                            },
                        ),
                        SR::Backtrack(x) => SR::Fail(x, Msg::Plain),
                        SR::Fail(x, m) => SR::Fail(x, m),
                    }
                } else {
                    SR::Backtrack(k)
                },
                other => not_parsed(other),
            },
        }
    }
}

pub open spec fn whens_rest(s: Seq<char>, d: Delims, k: int, lv: int, lp: bool, acc: Seq<WhenM>) -> SR<
    Seq<WhenM>,
>
    decreases max_level() - lv, s.len() - k, 1int,
{
    match when_p(s, d, k, lv, lp) {
        SR::Parsed(j, w) => if k < j <= s.len() {
            whens_rest(s, d, j, lv, lp, acc.push(w))
        } else {
            SR::Backtrack(k)
        },
        SR::Backtrack(_) => SR::Parsed(k, acc),
        SR::Fail(x, m) => SR::Fail(x, m),
    }
}

/// `extends "path"`, which takes no whitespace markers.
pub open spec fn extends_k(s: Seq<char>, b: int) -> SR<NodeM> {
    let c = after_mark(s, b);
    match ws_keyword(s, c, seq!['e', 'x', 't', 'e', 'n', 'd', 's']) {
        None => SR::Backtrack(skip_ws(s, c)),
        Some(r) => match str_lit(s, r) {
            None => SR::Fail(str_lit_err(s, r), Msg::Plain),
            Some(e) => {
                let r1 = skip_ws(s, e + 1);
                if ws_mark(s, b) is Some || ws_mark(s, r1) is Some {
                    SR::Fail(b, Msg::ExtendsWs)
                } else {
                    SR::Parsed(after_mark(s, r1), NodeM::Extends(s.subrange(r + 1, e)))
                }
            },
        },
    }
}

/// `include "path"`.
pub open spec fn include_k(s: Seq<char>, b: int) -> SR<NodeM> {
    let c = after_mark(s, b);
    match ws_keyword(s, c, seq!['i', 'n', 'c', 'l', 'u', 'd', 'e']) {
        None => SR::Backtrack(skip_ws(s, c)),
        Some(r) => match str_lit(s, r) {
            None => SR::Fail(str_lit_err(s, r), Msg::Plain),
            Some(e) => {
                let r1 = skip_ws(s, e + 1);
                SR::Parsed(
                    after_mark(s, r1),
                    NodeM::Include(Ws(ws_mark(s, b), ws_mark(s, r1)), s.subrange(r + 1, e)),
                )
            },
        },
    }
}

/// `import "path" as scope`.
pub open spec fn import_k(s: Seq<char>, b: int) -> SR<NodeM> {
    let c = after_mark(s, b);
    match ws_keyword(s, c, seq!['i', 'm', 'p', 'o', 'r', 't']) {
        None => SR::Backtrack(skip_ws(s, c)),
        Some(r) => match str_lit(s, r) {
            None => SR::Fail(str_lit_err(s, r), Msg::Plain),
            Some(e) => match ws_keyword(s, skip_ws(s, e + 1), seq!['a', 's']) {
                None => SR::Fail(skip_ws(s, skip_ws(s, e + 1)), Msg::Plain),
                Some(r2) => match ident(s, r2) {
                    None => SR::Fail(r2, Msg::Plain),
                    Some(e3) => {
                        let r3 = skip_ws(s, e3);
                        SR::Parsed(
                            after_mark(s, r3),
                            NodeM::Import(
                                ImportM {
                                    ws: Ws(ws_mark(s, b), ws_mark(s, r3)),
                                    path: s.subrange(r + 1, e),
                                    scope: s.subrange(r2, e3),
                                },
                            ),
                        )
                    },
                },
            },
        },
    }
}

/// `block name %} nodes {% endblock [name]`.
pub open spec fn blockdef_k(s: Seq<char>, d: Delims, b: int, lv: int, lp: bool) -> SR<NodeM>
    decreases max_level() - lv, s.len() - b, 0int,
{
    let c = after_mark(s, b);
    match ws_keyword(s, c, seq!['b', 'l', 'o', 'c', 'k']) {
        None => SR::Backtrack(skip_ws(s, c)),
        Some(r) => match ident(s, r) {
            None => SR::Fail(r, Msg::Plain),
            Some(e1) => {
                let r1 = skip_ws(s, e1);
                match block_end_at(s, d, after_mark(s, r1)) {
                    SR::Parsed(r3, _) => if b < r3 <= s.len() {
                        match nodes_p(s, d, r3, lv, lp, seq![]) {
                            SR::Parsed(j, nodes) => match end_tag_p(
                                s,
                                d,
                                j,
                                seq!['e', 'n', 'd', 'b', 'l', 'o', 'c', 'k'],
                            ) {
                                SR::Parsed(before, pws2) => match end_name_p(
                                    s,
                                    before,
                                    EndKind::Block,
                                    r,
                                    e1,
                                ) {
                                    SR::Parsed(pos, _) => SR::Parsed(
                                        after_mark(s, pos),
                                        NodeM::BlockDef(
                                            BlockDefM {
                                                ws1: Ws(ws_mark(s, b), ws_mark(s, r1)),
                                                name: s.subrange(r, e1),
                                                nodes,
                                                ws2: Ws(pws2, ws_mark(s, pos)),
                                            },
                                        ),
                                    ),
                                    other => not_parsed(other),
                                },
                                other => not_parsed(other),
                            },
                            SR::Backtrack(x) => SR::Fail(x, Msg::Plain),
                            SR::Fail(x, m) => SR::Fail(x, m),
                        }
                    } else {
                        SR::Backtrack(b)
                    },
                    other => not_parsed(other),
                }
            },
        },
    }
}

/// `macro name(params) %} nodes {% endmacro [name]`; a macro may not be
/// named `super`.
pub open spec fn macro_k(s: Seq<char>, d: Delims, b: int, lv: int, lp: bool) -> SR<NodeM>
    decreases max_level() - lv, s.len() - b, 0int,
{
    let c = after_mark(s, b);
    match ws_keyword(s, c, seq!['m', 'a', 'c', 'r', 'o']) {
        None => SR::Backtrack(skip_ws(s, c)),
        Some(r) => match ident(s, r) {
            None => SR::Fail(r, Msg::Plain),
            Some(e1) => {
                let r1 = skip_ws(s, e1);
                let (params, pos) = match params_p(s, r1) {
                    Some((j, ps)) => (ps, skip_ws(s, j)),
                    None => (seq![], r1),
                };
                match block_end_at(s, d, after_mark(s, pos)) {
                    SR::Parsed(r3, _) => if b < r3 <= s.len() {
                        match nodes_p(s, d, r3, lv, lp, seq![]) {
                            SR::Parsed(j, nodes) => match end_tag_p(
                                s,
                                d,
                                j,
                                seq!['e', 'n', 'd', 'm', 'a', 'c', 'r', 'o'],
                            ) {
                                SR::Parsed(before, pws2) => match end_name_p(
                                    s,
                                    before,
                                    EndKind::Macro,
                                    r,
                                    e1,
                                ) {
                                    SR::Parsed(pos3, _) => if s.subrange(r, e1) == seq![
                                        's',
                                        'u',
                                        'p',
                                        'e',
                                        'r',
                                    ] {
                                        SR::Fail(after_mark(s, pos3), Msg::Plain)
                                    } else {
                                        SR::Parsed(
                                            after_mark(s, pos3),
                                            NodeM::Macro(
                                                MacroM {
                                                    ws1: Ws(ws_mark(s, b), ws_mark(s, pos)),
                                                    name: s.subrange(r, e1),
                                                    args: params,
                                                    nodes,
                                                    ws2: Ws(pws2, ws_mark(s, pos3)),
                                                },
                                            ),
                                        )
                                    },
                                    other => not_parsed(other),
                                },
                                other => not_parsed(other),
                            },
                            SR::Backtrack(x) => SR::Fail(x, Msg::Plain),
                            SR::Fail(x, m) => SR::Fail(x, m),
                        }
                    } else {
                        SR::Backtrack(b)
                    },
                    other => not_parsed(other),
                }
            },
        },
    }
}

/// `raw %} text {% endraw`: the text is kept as a literal.
pub open spec fn raw_k(s: Seq<char>, d: Delims, b: int) -> SR<NodeM> {
    let c0 = after_mark(s, b);
    match ws_keyword(s, c0, seq!['r', 'a', 'w']) {
        None => SR::Backtrack(skip_ws(s, c0)),
        Some(r) => match block_end_at(s, d, after_mark(s, r)) {
            SR::Parsed(c, _) => match find_endraw(s, d, c) {
                None => SR::Fail(s.len() as int, Msg::Plain),
                Some((k, j, ws2)) => SR::Parsed(
                    j,
                    NodeM::Raw(
                        RawM {
                            ws1: Ws(ws_mark(s, b), ws_mark(s, r)),
                            lit: split_ws(s.subrange(c, k)),
                            ws2,
                        },
                    ),
                ),
            },
            other => not_parsed(other),
        },
    }
}

/// `break` (when `brk`) or `continue`; only allowed inside a loop body.
pub open spec fn jump_k(s: Seq<char>, b: int, lp: bool, brk: bool) -> SR<NodeM> {
    let c = after_mark(s, b);
    let kw = if brk {
        seq!['b', 'r', 'e', 'a', 'k']
    } else {
        seq!['c', 'o', 'n', 't', 'i', 'n', 'u', 'e']
    };
    match ws_keyword(s, c, kw) {
        None => SR::Backtrack(skip_ws(s, c)),
        Some(r) => if !lp {
            SR::Fail(b, Msg::Plain)
        } else if brk {
            SR::Parsed(after_mark(s, r), NodeM::Break(Ws(ws_mark(s, b), ws_mark(s, r))))
        } else {
            SR::Parsed(after_mark(s, r), NodeM::Continue(Ws(ws_mark(s, b), ws_mark(s, r))))
        },
    }
}

/// `filter name(args)|more... %} nodes {% endfilter`.
pub open spec fn filterblock_k(s: Seq<char>, d: Delims, b: int, lv: int, lp: bool) -> SR<NodeM>
    decreases max_level() - lv, s.len() - b, 0int,
{
    let c = after_mark(s, b);
    match ws_keyword(s, c, seq!['f', 'i', 'l', 't', 'e', 'r']) {
        None => SR::Backtrack(skip_ws(s, c)),
        Some(r) => match ident(s, r) {
            None => SR::Fail(r, Msg::Plain),
            Some(e1) => {
                let r1 = skip_ws(s, e1);
                let ar = arguments_p(s, r1, lv, false);
                match ar {
                    SR::Fail(x, m) => SR::Fail(x, m),
                    _ => {
                        let (args, pos) = match ar {
                            SR::Parsed(j, a) => (a, j),
                            _ => (seq![], r1),
                        };
                        match fb_filters(
                            s,
                            pos,
                            lv,
                            FilterM { name: s.subrange(r, e1), arguments: args },
                        ) {
                            SR::Parsed(pos2, filters) => {
                                let pos3 = skip_ws(s, pos2);
                                match block_end_at(s, d, after_mark(s, pos3)) {
                                    SR::Parsed(r5, _) => if b < r5 <= s.len() {
                                        match nodes_p(s, d, r5, lv, lp, seq![]) {
                                            SR::Parsed(j, nodes) => match end_tag_p(
                                                s,
                                                d,
                                                j,
                                                seq!['e', 'n', 'd', 'f', 'i', 'l', 't', 'e', 'r'],
                                            ) {
                                                SR::Parsed(r9, pws2) => SR::Parsed(
                                                    after_mark(s, r9),
                                                    NodeM::FilterBlock(
                                                        FilterBlockM {
                                                            ws1: Ws(ws_mark(s, b), ws_mark(s, pos3)),
                                                            filters,
                                                            nodes,
                                                            ws2: Ws(pws2, ws_mark(s, r9)),
                                                        },
                                                    ),
                                                ),
                                                other => not_parsed(other),
                                            },
                                            SR::Backtrack(x) => SR::Fail(x, Msg::Plain),
                                            SR::Fail(x, m) => SR::Fail(x, m),
                                        }
                                    } else {
                                        SR::Backtrack(b)
                                    },
                                    other => not_parsed(other),
                                }
                            },
                            SR::Backtrack(x) => SR::Fail(x, Msg::Plain),
                            SR::Fail(x, m) => SR::Fail(x, m),
                        }
                    },
                }
            },
        },
    }
}

/// A whole template: nodes up to the end of the input.  `Ok` with the
/// nodes, or `Err` with the error position and message.
pub open spec fn template_p(s: Seq<char>, d: Delims) -> Result<Seq<NodeM>, (int, Msg)> {
    match nodes_p(s, d, 0, 0, false, seq![]) {
        SR::Parsed(i, nodes) => if i == s.len() {
            Ok(nodes)
        } else {
            Err((i, Msg::Plain))
        },
        SR::Backtrack(x) => Err((x, Msg::Plain)),
        SR::Fail(x, m) => Err((x, m)),
    }
}

} // verus!
