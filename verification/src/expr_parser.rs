//! The expression grammar: precedence layers, filters, prefix operators,
//! suffixes (attributes, indexing, calls, `?`, macro calls), literals, arrays,
//! groups and tuples.  Every rule is a spec function from the source and a
//! start position (and the current nesting level) to a parse result; the
//! executable parser is proved to return exactly that result.
//!
//! Nesting is bounded: each rule that may recurse first checks that the
//! level is below 128 and fails fatally otherwise.

use vstd::prelude::*;
use crate::ast::{
    Expr, ExprM, Filter, FilterM, expr_m, exprs_m, lemma_exprs_len, lemma_exprs_prepend,
    lemma_exprs_push, strs_m,
};
use crate::lex::{
    Msg, PErr, Poi, SR, char_at, char_lit, char_lit_exec, cut, err_sr, hard, has_char, has_tag,
    ident, ident_exec, lemma_ident, lemma_skip_ws, num_lit, num_lit_exec, paren_scan,
    paren_scan_exec, poi, poi_exec, res_bounds, skip_ws, skip_ws_exec, soft, str_lit,
    str_lit_exec, sub_string,
};
use crate::text::str_to_chars;

verus! {

pub open spec fn sr_expr(r: Result<(usize, Expr), PErr>) -> SR<ExprM> {
    match r {
        Ok((i, e)) => SR::Parsed(i as int, expr_m(e)),
        Err(x) => err_sr(x),
    }
}

pub open spec fn sr_exprs(r: Result<(usize, Vec<Expr>), PErr>) -> SR<Seq<ExprM>> {
    match r {
        Ok((i, v)) => SR::Parsed(i as int, exprs_m(v@)),
        Err(x) => err_sr(x),
    }
}

/// Re-types a result that did not succeed.
pub open spec fn not_parsed<A, B>(r: SR<A>) -> SR<B> {
    match r {
        SR::Fail(x, m) => SR::Fail(x, m),
        SR::Backtrack(x) => SR::Backtrack(x),
        SR::Parsed(x, _) => SR::Backtrack(x),
    }
}

pub open spec fn max_level() -> int {
    128
}

// ---------------------------------------------------------------------------
// Operators.
// ---------------------------------------------------------------------------

/// Length of the binary operator of precedence layer `k` at `q`, or 0.
/// Layers, loosest first: `||`, `&&`, comparisons, `|`, `^`, `&`, shifts,
/// `+ -`, `* / %`.
pub open spec fn layer_op(s: Seq<char>, q: int, k: int) -> int {
    if k == 0 {
        if (char_at(s, q, '|') && char_at(s, q + 1, '|')) {
            2
        } else {
            0
        }
    } else if k == 1 {
        if (char_at(s, q, '&') && char_at(s, q + 1, '&')) {
            2
        } else {
            0
        }
    } else if k == 2 {
        if (char_at(s, q, '=') && char_at(s, q + 1, '=')) || (char_at(s, q, '!') && char_at(s, q + 1, '=')) || (char_at(s, q, '>') && char_at(s, q + 1, '=')) {
            2
        } else if (char_at(s, q, '>')) {
            1
        } else if (char_at(s, q, '<') && char_at(s, q + 1, '=')) {
            2
        } else if (char_at(s, q, '<')) {
            1
        } else {
            0
        }
    } else if k == 3 {
        if (char_at(s, q, '|')) {
            1
        } else {
            0
        }
    } else if k == 4 {
        if (char_at(s, q, '^')) {
            1
        } else {
            0
        }
    } else if k == 5 {
        if (char_at(s, q, '&')) {
            1
        } else {
            0
        }
    } else if k == 6 {
        if (char_at(s, q, '>') && char_at(s, q + 1, '>')) || (char_at(s, q, '<') && char_at(s, q + 1, '<')) {
            2
        } else {
            0
        }
    } else if k == 7 {
        if (char_at(s, q, '+')) || (char_at(s, q, '-')) {
            1
        } else {
            0
        }
    } else {
        if (char_at(s, q, '*')) || (char_at(s, q, '/')) || (char_at(s, q, '%')) {
            1
        } else {
            0
        }
    }
}

pub fn layer_op_exec(s: &Vec<char>, q: usize, k: usize) -> (r: usize)
    requires
        q <= s.len(),
    ensures
        r == layer_op(s@, q as int, k as int),
        q + r <= s.len(),
{
    if k == 0 {
        if (has_char(s, q, '|') && has_char(s, q + 1, '|')) {
            2
        } else {
            0
        }
    } else if k == 1 {
        if (has_char(s, q, '&') && has_char(s, q + 1, '&')) {
            2
        } else {
            0
        }
    } else if k == 2 {
        if (has_char(s, q, '=') && has_char(s, q + 1, '=')) || (has_char(s, q, '!') && has_char(s, q + 1, '=')) || (has_char(s, q, '>') && has_char(s, q + 1, '=')) {
            2
        } else if (has_char(s, q, '>')) {
            1
        } else if (has_char(s, q, '<') && has_char(s, q + 1, '=')) {
            2
        } else if (has_char(s, q, '<')) {
            1
        } else {
            0
        }
    } else if k == 3 {
        if (has_char(s, q, '|')) {
            1
        } else {
            0
        }
    } else if k == 4 {
        if (has_char(s, q, '^')) {
            1
        } else {
            0
        }
    } else if k == 5 {
        if (has_char(s, q, '&')) {
            1
        } else {
            0
        }
    } else if k == 6 {
        if (has_char(s, q, '>') && has_char(s, q + 1, '>')) || (has_char(s, q, '<') && has_char(s, q + 1, '<')) {
            2
        } else {
            0
        }
    } else if k == 7 {
        if (has_char(s, q, '+')) || (has_char(s, q, '-')) {
            1
        } else {
            0
        }
    } else {
        if (has_char(s, q, '*')) || (has_char(s, q, '/')) || (has_char(s, q, '%')) {
            1
        } else {
            0
        }
    }
}

/// The prefix operators `!` and `-` at `p`, each followed by whitespace,
/// and the position after them.
pub open spec fn unary_ops(s: Seq<char>, p: int) -> (Seq<Seq<char>>, int)
    decreases s.len() - p,
{
    let q = skip_ws(s, p);
    if 0 <= p <= s.len() && (char_at(s, q, '!') || char_at(s, q, '-')) {
        proof {
            lemma_skip_ws(s, p);
            lemma_skip_ws(s, q + 1);
        }
        let rest = unary_ops(s, skip_ws(s, q + 1));
        (seq![seq![s[q]]] + rest.0, rest.1)
    } else {
        (seq![], p)
    }
}

/// Wraps `e` in the prefix operators, the first operator outermost.
pub open spec fn wrap_unary(ops: Seq<Seq<char>>, e: ExprM) -> ExprM
    decreases ops.len(),
{
    if ops.len() == 0 {
        e
    } else {
        wrap_unary(ops.drop_last(), ExprM::Unary(ops.last(), Box::new(e)))
    }
}

// ---------------------------------------------------------------------------
// The grammar.
// ---------------------------------------------------------------------------

/// A whole expression: a range with an optional left side, or an `||`
/// expression optionally followed by a range's right part.
pub open spec fn expr_p(s: Seq<char>, p: int, lv: int) -> SR<ExprM>
    decreases max_level() - lv, s.len() - p, 0int,
{
    if lv >= max_level() {
        SR::Fail(p, Msg::Plain)
    } else {
        match range_right_p(s, p, lv + 1) {
            SR::Parsed(i, (op, right)) => SR::Parsed(i, ExprM::Range(op, None, right)),
            SR::Fail(x, m) => SR::Fail(x, m),
            SR::Backtrack(_) => match layer_p(s, p, lv + 1, 0) {
                SR::Parsed(i, left) => if 0 <= i <= s.len() {
                    match range_right_p(s, i, lv + 1) {
                        SR::Parsed(j, (op, right)) => SR::Parsed(
                            j,
                            ExprM::Range(op, Some(Box::new(left)), right),
                        ),
                        SR::Fail(x, m) => SR::Fail(x, m),
                        SR::Backtrack(_) => SR::Parsed(i, left),
                    }
                } else {
                    SR::Backtrack(p)
                },
                other => other,
            },
        }
    }
}

/// `..` or `..=` and an optional right side.
pub open spec fn range_right_p(s: Seq<char>, p: int, lv: int) -> SR<(Seq<char>, Option<Box<ExprM>>)>
    decreases max_level() - lv, s.len() - p, 0int,
{
    let q = skip_ws(s, p);
    let n: int = if char_at(s, q, '.') && char_at(s, q + 1, '.') && char_at(s, q + 2, '=') {
        3
    } else if char_at(s, q, '.') && char_at(s, q + 1, '.') {
        2
    } else {
        0
    };
    if !(0 <= p <= s.len()) || n == 0 {
        SR::Backtrack(q)
    } else {
        let q3 = skip_ws(s, q + n);
        proof {
            lemma_skip_ws(s, p);
            lemma_skip_ws(s, q + n);
        }
        match layer_p(s, q3, lv, 0) {
            SR::Parsed(j, e) => SR::Parsed(j, (s.subrange(q, q + n), Some(Box::new(e)))),
            SR::Backtrack(_) => SR::Parsed(q3, (s.subrange(q, q + n), None)),
            SR::Fail(x, m) => SR::Fail(x, m),
        }
    }
}

/// The operand of layer `k`: the next tighter layer, or a filtered
/// expression below the last layer.
pub open spec fn inner_p(s: Seq<char>, p: int, lv: int, k: int) -> SR<ExprM>
    decreases max_level() - lv, s.len() - p, 1int,
{
    if k >= 8 {
        filtered_p(s, p, lv)
    } else {
        layer_p(s, p, lv, k + 1)
    }
}

/// Precedence layer `k`: operands of the next layer joined by the layer's
/// operators, associating to the left.
pub open spec fn layer_p(s: Seq<char>, p: int, lv: int, k: int) -> SR<ExprM>
    decreases max_level() - lv, s.len() - p, 0int,
{
    if lv >= max_level() {
        SR::Fail(p, Msg::Plain)
    } else {
        match inner_p(s, p, lv + 1, k) {
            SR::Parsed(i, left) => if p <= i <= s.len() {
                binop_loop(s, i, lv + 1, k, left)
            } else {
                SR::Backtrack(p)
            },
            other => other,
        }
    }
}

/// More `op operand` pairs of layer `k` after `acc`.
pub open spec fn binop_loop(s: Seq<char>, i: int, lv: int, k: int, acc: ExprM) -> SR<ExprM>
    decreases max_level() - lv, s.len() - i, 0int,
{
    let q = skip_ws(s, i);
    let n = layer_op(s, q, k);
    if !(0 <= i <= s.len()) || n == 0 {
        SR::Parsed(i, acc)
    } else {
        let q2 = skip_ws(s, q + n);
        proof {
            lemma_skip_ws(s, i);
            lemma_skip_ws(s, q + n);
        }
        match inner_p(s, q2, lv, k) {
            SR::Parsed(j, right) => if q2 <= j <= s.len() {
                binop_loop(
                    s,
                    j,
                    lv,
                    k,
                    ExprM::BinOp(s.subrange(q, q + n), Box::new(acc), Box::new(right)),
                )
            } else {
                SR::Parsed(i, acc)
            },
            SR::Backtrack(_) => SR::Parsed(i, acc),
            SR::Fail(x, m) => SR::Fail(x, m),
        }
    }
}

/// A prefixed expression followed by `|name` filters with optional
/// arguments; each filter takes the expression so far as first argument.
pub open spec fn filtered_p(s: Seq<char>, p: int, lv: int) -> SR<ExprM>
    decreases max_level() - lv, s.len() - p, 0int,
{
    if lv >= max_level() {
        SR::Fail(p, Msg::Plain)
    } else {
        match prefix_p(s, p, lv + 1) {
            SR::Parsed(i, e) => if p <= i <= s.len() {
                filter_loop(s, i, lv + 1, e)
            } else {
                SR::Backtrack(p)
            },
            other => other,
        }
    }
}

pub open spec fn filter_loop(s: Seq<char>, i: int, lv: int, acc: ExprM) -> SR<ExprM>
    decreases max_level() - lv, s.len() - i, 2int,
{
    match filter_p(s, i, lv) {
        SR::Parsed(j, (name, args)) => if i < j <= s.len() {
            filter_loop(
                s,
                j,
                lv,
                ExprM::Filter(FilterM { name, arguments: seq![acc] + args }),
            )
        } else {
            SR::Parsed(i, acc)
        },
        SR::Backtrack(_) => SR::Parsed(i, acc),
        SR::Fail(x, m) => SR::Fail(x, m),
    }
}

/// `|name` with optional arguments (none when absent).
pub open spec fn filter_p(s: Seq<char>, i: int, lv: int) -> SR<(Seq<char>, Seq<ExprM>)>
    decreases max_level() - lv, s.len() - i, 1int,
{
    let q = skip_ws(s, i + 1);
    if !(0 <= i <= s.len()) || !char_at(s, i, '|') {
        SR::Backtrack(i)
    } else {
        match ident(s, q) {
            None => SR::Backtrack(q),
            Some(e) => {
                let q2 = skip_ws(s, e);
                proof {
                    lemma_skip_ws(s, i + 1);
                    lemma_ident(s, q);
                    lemma_skip_ws(s, e);
                }
                match arguments_p(s, q2, lv, false) {
                    SR::Parsed(j, args) => SR::Parsed(j, (s.subrange(q, e), args)),
                    SR::Backtrack(_) => SR::Parsed(q2, (s.subrange(q, e), seq![])),
                    SR::Fail(x, m) => SR::Fail(x, m),
                }
            },
        }
    }
}

/// Prefix operators, then a suffixed expression.  Each operator also counts
/// as one nesting level.
pub open spec fn prefix_p(s: Seq<char>, p: int, lv: int) -> SR<ExprM>
    decreases max_level() - lv, s.len() - p, 0int,
{
    if lv >= max_level() {
        SR::Fail(p, Msg::Plain)
    } else {
        let (ops, q) = unary_ops(s, p);
        match suffix_p(s, q, lv + 1) {
            SR::Parsed(i, e) => if lv + ops.len() > max_level() {
                SR::Fail(i, Msg::Plain)
            } else {
                SR::Parsed(i, wrap_unary(ops, e))
            },
            other => other,
        }
    }
}

/// A single expression followed by any number of suffixes.
pub open spec fn suffix_p(s: Seq<char>, p: int, lv: int) -> SR<ExprM>
    decreases max_level() - lv, s.len() - p, 0int,
{
    if lv >= max_level() {
        SR::Fail(p, Msg::Plain)
    } else {
        match single_p(s, p, lv + 1) {
            SR::Parsed(i, e) => if p <= i <= s.len() {
                suffix_loop(s, i, lv + 1, e)
            } else {
                SR::Backtrack(p)
            },
            other => other,
        }
    }
}

/// `.name` or `.0` after optional whitespace (not `..`): the span of the name.
pub open spec fn attr_sfx(s: Seq<char>, i: int) -> SR<(int, int)> {
    let q = skip_ws(s, i);
    let q2 = skip_ws(s, q + 1);
    if char_at(s, q, '.') && !char_at(s, q + 1, '.') {
        match num_lit(s, q2) {
            Some(e) => SR::Parsed(e, (q2, e)),
            None => match ident(s, q2) {
                Some(e) => SR::Parsed(e, (q2, e)),
                None => SR::Fail(q2, Msg::Plain),
            },
        }
    } else {
        SR::Backtrack(q)
    }
}

/// `?` after optional whitespace.
pub open spec fn try_sfx(s: Seq<char>, i: int) -> Option<int> {
    if char_at(s, skip_ws(s, i), '?') {
        Some(skip_ws(s, i) + 1)
    } else {
        None
    }
}

/// `!(` ... `)`: the span of the macro arguments.
pub open spec fn macro_sfx(s: Seq<char>, i: int) -> SR<(int, int)> {
    let q = skip_ws(s, i);
    let q2 = skip_ws(s, q + 1);
    if !char_at(s, q, '!') {
        SR::Backtrack(q)
    } else if !char_at(s, q2, '(') {
        SR::Backtrack(q2)
    } else {
        match paren_scan(s, q2 + 1, q2 + 1, 0, false, false) {
            None => SR::Fail(q2 + 1, Msg::Plain),
            Some(e) => if char_at(s, e, ')') {
                SR::Parsed(e + 1, (q2 + 1, e))
            } else {
                SR::Fail(e, Msg::Plain)
            },
        }
    }
}

/// Suffixes, in the order they are tried: attribute, index, call, `?`,
/// macro call.  A macro call applies only to a path or a variable.
pub open spec fn suffix_loop(s: Seq<char>, i: int, lv: int, acc: ExprM) -> SR<ExprM>
    decreases max_level() - lv, s.len() - i, 2int,
{
    if !(0 <= i <= s.len()) {
        SR::Parsed(i, acc)
    } else {
        match attr_sfx(s, i) {
            SR::Parsed(j, (a, b)) => next_suffix(s, i, j, lv, ExprM::Attr(Box::new(acc), s.subrange(a, b))),
            SR::Fail(x, m) => SR::Fail(x, m),
            SR::Backtrack(_) => match index_p(s, i, lv) {
                SR::Parsed(j, e) => next_suffix(s, i, j, lv, ExprM::Index(Box::new(acc), Box::new(e))),
                SR::Fail(x, m) => SR::Fail(x, m),
                SR::Backtrack(_) => match call_p(s, i, lv) {
                    SR::Parsed(j, args) => next_suffix(s, i, j, lv, ExprM::Call(Box::new(acc), args)),
                    SR::Fail(x, m) => SR::Fail(x, m),
                    SR::Backtrack(_) => match try_sfx(s, i) {
                        Some(j) => next_suffix(s, i, j, lv, ExprM::Try(Box::new(acc))),
                        None => match macro_sfx(s, i) {
                            SR::Parsed(j, (a, b)) => match acc {
                                ExprM::Path(path) => next_suffix(
                                    s,
                                    i,
                                    j,
                                    lv,
                                    ExprM::RustMacro(path, s.subrange(a, b)),
                                ),
                                ExprM::Var(name) => next_suffix(
                                    s,
                                    i,
                                    j,
                                    lv,
                                    ExprM::RustMacro(seq![name], s.subrange(a, b)),
                                ),
                                _ => SR::Fail(i, Msg::Plain),
                            },
                            SR::Fail(x, m) => SR::Fail(x, m),
                            SR::Backtrack(_) => SR::Parsed(i, acc),
                        },
                    },
                },
            },
        }
    }
}

/// Continues the suffix loop at `j` after a suffix that started at `i`.
pub open spec fn next_suffix(s: Seq<char>, i: int, j: int, lv: int, acc: ExprM) -> SR<ExprM>
    decreases max_level() - lv, s.len() - i, 1int,
{
    if i < j <= s.len() {
        suffix_loop(s, j, lv, acc)
    } else {
        SR::Parsed(i, acc)
    }
}

/// `[expr]`.
pub open spec fn index_p(s: Seq<char>, i: int, lv: int) -> SR<ExprM>
    decreases max_level() - lv, s.len() - i, 1int,
{
    let q = skip_ws(s, i);
    let q2 = skip_ws(s, q + 1);
    if lv >= max_level() {
        SR::Fail(i, Msg::Plain)
    } else if !(0 <= i <= s.len()) || !char_at(s, q, '[') {
        SR::Backtrack(q)
    } else {
        match expr_p(s, q2, lv + 1) {
            SR::Parsed(j, e) => if char_at(s, skip_ws(s, j), ']') {
                SR::Parsed(skip_ws(s, j) + 1, e)
            } else {
                SR::Fail(skip_ws(s, j), Msg::Plain)
            },
            SR::Backtrack(x) => SR::Fail(x, Msg::Plain),
            SR::Fail(x, m) => SR::Fail(x, m),
        }
    }
}

/// A call's argument list.
pub open spec fn call_p(s: Seq<char>, i: int, lv: int) -> SR<Seq<ExprM>>
    decreases max_level() - lv, s.len() - i, 1int,
{
    if lv >= max_level() {
        SR::Fail(i, Msg::Plain)
    } else {
        arguments_p(s, i, lv + 1, false)
    }
}

/// A parenthesised, comma-separated argument list with an optional trailing
/// comma.  With `named`, arguments may be `name = expr`, and such arguments
/// must come last and use each name once.  `p` is where the list's errors
/// are reported.
pub open spec fn arguments_p(s: Seq<char>, p: int, lv: int, named: bool) -> SR<Seq<ExprM>>
    decreases max_level() - lv, s.len() - p, 0int,
{
    let q = skip_ws(s, p);
    let a = skip_ws(s, q + 1);
    if lv >= max_level() {
        SR::Fail(p, Msg::Plain)
    } else if !(0 <= p <= s.len()) || !char_at(s, q, '(') {
        SR::Backtrack(q)
    } else {
        proof {
            lemma_skip_ws(s, p);
            lemma_skip_ws(s, q + 1);
        }
        match elem_p(s, a, lv + 1, named, p, seq![]) {
            SR::Parsed(j, (e, names)) => if a <= j <= s.len() {
                proof {
                    lemma_skip_ws(s, j);
                }
                match args_rest(s, skip_ws(s, j), lv + 1, named, p, names, seq![e]) {
                    SR::Parsed(k, v) => args_close(s, k, v),
                    other => other,
                }
            } else {
                SR::Backtrack(p)
            },
            SR::Backtrack(_) => args_close(s, a, seq![]),
            SR::Fail(x, m) => SR::Fail(x, m),
        }
    }
}

/// An optional trailing comma and the closing parenthesis.
pub open spec fn args_close(s: Seq<char>, k: int, v: Seq<ExprM>) -> SR<Seq<ExprM>> {
    let q = skip_ws(s, k);
    let k2 = if char_at(s, q, ',') {
        skip_ws(s, q + 1)
    } else {
        k
    };
    if char_at(s, k2, ')') {
        SR::Parsed(k2 + 1, v)
    } else {
        SR::Fail(k2, Msg::Plain)
    }
}

/// `, argument` pairs after the first argument.
pub open spec fn args_rest(
    s: Seq<char>,
    i: int,
    lv: int,
    named: bool,
    start: int,
    names: Seq<Seq<char>>,
    acc: Seq<ExprM>,
) -> SR<Seq<ExprM>>
    decreases max_level() - lv, s.len() - i, 0int,
{
    let k = skip_ws(s, i + 1);
    if !(0 <= i <= s.len()) || !char_at(s, i, ',') {
        SR::Parsed(i, acc)
    } else {
        proof {
            lemma_skip_ws(s, i + 1);
        }
        match elem_p(s, k, lv, named, start, names) {
            SR::Parsed(j, (e, names2)) => if k <= j <= s.len() {
                proof {
                    lemma_skip_ws(s, j);
                }
                args_rest(s, skip_ws(s, j), lv, named, start, names2, acc.push(e))
            } else {
                SR::Parsed(i, acc)
            },
            SR::Backtrack(_) => SR::Parsed(i, acc),
            SR::Fail(x, m) => SR::Fail(x, m),
        }
    }
}

/// One argument, and the named arguments seen so far including it.
pub open spec fn elem_p(s: Seq<char>, k: int, lv: int, named: bool, start: int, names: Seq<Seq<char>>) -> SR<(ExprM, Seq<Seq<char>>)>
    decreases max_level() - lv, s.len() - k, 2int,
{
    let r = match named_arg_p(s, k, lv, named, start, names) {
        SR::Backtrack(_) => match expr_p(s, k, lv) {
            SR::Parsed(j, e) => SR::Parsed(j, (e, names)),
            other => not_parsed(other),
        },
        other => other,
    };
    match r {
        SR::Parsed(j, (e, ns)) => if names.len() > 0 && !(e is NamedArgument) {
            SR::Fail(start, Msg::NamedArgsLast)
        } else {
            SR::Parsed(j, (e, ns))
        },
        other => other,
    }
}

/// `name = expr`, only where named arguments are allowed.
pub open spec fn named_arg_p(s: Seq<char>, k: int, lv: int, named: bool, start: int, names: Seq<Seq<char>>) -> SR<(ExprM, Seq<Seq<char>>)>
    decreases max_level() - lv, s.len() - k, 1int,
{
    if !named {
        SR::Backtrack(k)
    } else if lv >= max_level() {
        SR::Fail(k, Msg::Plain)
    } else {
        match ident(s, k) {
            None => SR::Backtrack(k),
            Some(e) => {
                let q = skip_ws(s, e);
                if !char_at(s, q, '=') {
                    SR::Backtrack(q)
                } else {
                    let name = s.subrange(k, e);
                    match expr_p(s, skip_ws(s, q + 1), lv + 1) {
                        SR::Parsed(j, v) => if names.contains(name) {
                            SR::Fail(start, Msg::NamedArgTwice(k as usize, e as usize))
                        } else {
                            SR::Parsed(
                                j,
                                (ExprM::NamedArgument(name, Box::new(v)), names.push(name)),
                            )
                        },
                        other => not_parsed(other),
                    }
                }
            },
        }
    }
}

/// A literal, a path or variable, an array, or a parenthesised group or
/// tuple.
pub open spec fn single_p(s: Seq<char>, p: int, lv: int) -> SR<ExprM>
    decreases max_level() - lv, s.len() - p, 0int,
{
    if lv >= max_level() {
        SR::Fail(p, Msg::Plain)
    } else {
        match num_lit(s, p) {
            Some(e) => SR::Parsed(e, ExprM::NumLit(s.subrange(p, e))),
            None => match str_lit(s, p) {
                Some(e) => SR::Parsed(e + 1, ExprM::StrLit(s.subrange(p + 1, e))),
                None => match char_lit(s, p) {
                    SR::Parsed(i, e) => SR::Parsed(i, ExprM::CharLit(s.subrange(p + 1, e))),
                    SR::Fail(x, m) => SR::Fail(x, m),
                    SR::Backtrack(_) => match poi(s, p) {
                        Some((e, Poi::Path(v))) => SR::Parsed(e, ExprM::Path(v)),
                        Some((e, Poi::Ident(n))) => if n == seq!['t', 'r', 'u', 'e'] || n == seq![
                            'f',
                            'a',
                            'l',
                            's',
                            'e',
                        ] {
                            SR::Parsed(e, ExprM::BoolLit(n))
                        } else {
                            SR::Parsed(e, ExprM::Var(n))
                        },
                        None => match array_p(s, p, lv + 1) {
                            SR::Backtrack(_) => group_p(s, p, lv + 1),
                            other => other,
                        },
                    },
                },
            },
        }
    }
}

/// `[a, b, ...]` without a trailing comma.
pub open spec fn array_p(s: Seq<char>, p: int, lv: int) -> SR<ExprM>
    decreases max_level() - lv, s.len() - p, 0int,
{
    let q = skip_ws(s, p);
    let a = skip_ws(s, q + 1);
    if lv >= max_level() {
        SR::Fail(p, Msg::Plain)
    } else if !(0 <= p <= s.len()) || !char_at(s, q, '[') {
        SR::Backtrack(q)
    } else {
        proof {
            lemma_skip_ws(s, p);
            lemma_skip_ws(s, q + 1);
        }
        match expr_p(s, a, lv + 1) {
            SR::Parsed(j, e) => if a <= j <= s.len() {
                proof {
                    lemma_skip_ws(s, j);
                }
                match comma_rest(s, skip_ws(s, j), lv + 1, seq![e]) {
                    SR::Parsed(k, v) => if char_at(s, k, ']') {
                        SR::Parsed(k + 1, ExprM::Array(v))
                    } else {
                        SR::Fail(k, Msg::Plain)
                    },
                    other => not_parsed(other),
                }
            } else {
                SR::Backtrack(p)
            },
            SR::Backtrack(_) => if char_at(s, a, ']') {
                SR::Parsed(a + 1, ExprM::Array(seq![]))
            } else {
                SR::Fail(a, Msg::Plain)
            },
            SR::Fail(x, m) => SR::Fail(x, m),
        }
    }
}

/// `, expr` pairs after a first expression.
pub open spec fn comma_rest(s: Seq<char>, i: int, lv: int, acc: Seq<ExprM>) -> SR<Seq<ExprM>>
    decreases max_level() - lv, s.len() - i, 0int,
{
    let k = skip_ws(s, i + 1);
    if !(0 <= i <= s.len()) || !char_at(s, i, ',') {
        SR::Parsed(i, acc)
    } else {
        proof {
            lemma_skip_ws(s, i + 1);
        }
        match expr_p(s, k, lv) {
            SR::Parsed(j, e) => if k <= j <= s.len() {
                proof {
                    lemma_skip_ws(s, j);
                }
                comma_rest(s, skip_ws(s, j), lv, acc.push(e))
            } else {
                SR::Parsed(i, acc)
            },
            SR::Backtrack(_) => SR::Parsed(i, acc),
            SR::Fail(x, m) => SR::Fail(x, m),
        }
    }
}

/// `()`, `(expr)` or a tuple `(a, b, ...)` with an optional trailing comma.
pub open spec fn group_p(s: Seq<char>, p: int, lv: int) -> SR<ExprM>
    decreases max_level() - lv, s.len() - p, 0int,
{
    let q = skip_ws(s, p);
    let a = skip_ws(s, q + 1);
    if lv >= max_level() {
        SR::Fail(p, Msg::Plain)
    } else if !(0 <= p <= s.len()) || !char_at(s, q, '(') {
        SR::Backtrack(q)
    } else {
        proof {
            lemma_skip_ws(s, p);
            lemma_skip_ws(s, q + 1);
        }
        match expr_p(s, a, lv + 1) {
            SR::Fail(x, m) => SR::Fail(x, m),
            SR::Backtrack(_) => if char_at(s, a, ')') {
                SR::Parsed(a + 1, ExprM::Tuple(seq![]))
            } else {
                SR::Backtrack(a)
            },
            SR::Parsed(i, e) => {
                let i1 = skip_ws(s, i);
                if !(a <= i <= s.len()) {
                    SR::Backtrack(p)
                } else if char_at(s, i1, ',') {
                    proof {
                        lemma_skip_ws(s, i);
                    }
                    match comma_rest(s, i1, lv + 1, seq![e]) {
                        SR::Parsed(k, v) => {
                            let q3 = skip_ws(s, k);
                            let k2 = if char_at(s, q3, ',') {
                                skip_ws(s, q3 + 1)
                            } else {
                                q3
                            };
                            if char_at(s, k2, ')') {
                                SR::Parsed(k2 + 1, ExprM::Tuple(v))
                            } else {
                                SR::Backtrack(k2)
                            }
                        },
                        other => not_parsed(other),
                    }
                } else if char_at(s, i1, ')') {
                    SR::Parsed(i1 + 1, ExprM::Group(Box::new(e)))
                } else {
                    SR::Backtrack(i1)
                }
            },
        }
    }
}


// ---------------------------------------------------------------------------
// The executable parser.
// ---------------------------------------------------------------------------

pub open spec fn sr_range(r: Result<(usize, (String, Option<Box<Expr>>)), PErr>) -> SR<
    (Seq<char>, Option<Box<ExprM>>),
> {
    match r {
        Ok((i, (op, right))) => SR::Parsed(
            i as int,
            (
                op@,
                match right {
                    Some(b) => Some(Box::new(expr_m(*b))),
                    None => None,
                },
            ),
        ),
        Err(x) => err_sr(x),
    }
}

pub open spec fn sr_span(r: Result<(usize, (usize, usize)), PErr>) -> SR<(int, int)> {
    match r {
        Ok((j, (a, b))) => SR::Parsed(j as int, (a as int, b as int)),
        Err(x) => err_sr(x),
    }
}

pub open spec fn sr_filter(r: Result<(usize, (String, Vec<Expr>)), PErr>) -> SR<
    (Seq<char>, Seq<ExprM>),
> {
    match r {
        Ok((j, (n, a))) => SR::Parsed(j as int, (n@, exprs_m(a@))),
        Err(x) => err_sr(x),
    }
}

/// The names held as spans into the source.
pub open spec fn names_m(s: Seq<char>, v: Seq<(usize, usize)>) -> Seq<Seq<char>> {
    v.map_values(|sp: (usize, usize)| s.subrange(sp.0 as int, sp.1 as int))
}

pub open spec fn spans_ok(v: Seq<(usize, usize)>, len: int) -> bool {
    forall|k: int| 0 <= k < v.len() ==> #[trigger] v[k].0 <= v[k].1 <= len
}

pub open spec fn added(s: Seq<char>, names: Seq<Seq<char>>, nm: Option<(usize, usize)>) -> Seq<Seq<char>> {
    match nm {
        Some(sp) => names.push(s.subrange(sp.0 as int, sp.1 as int)),
        None => names,
    }
}

pub open spec fn sr_elem(s: Seq<char>, names: Seq<Seq<char>>, r: Result<(usize, (Expr, Option<(usize, usize)>)), PErr>) -> SR<(ExprM, Seq<Seq<char>>)> {
    match r {
        Ok((j, (e, nm))) => SR::Parsed(j as int, (expr_m(e), added(s, names, nm))),
        Err(x) => err_sr(x),
    }
}

pub fn attr_exec(s: &Vec<char>, i: usize) -> (r: Result<(usize, (usize, usize)), PErr>)
    requires
        i <= s.len(),
    ensures
        res_bounds(r, i as int, s.len() as int),
        sr_span(r) == attr_sfx(s@, i as int),
        r matches Ok((j, (a, b))) ==> i < j && a <= b <= s.len(),
{
    let q = skip_ws_exec(s, i);
    if has_char(s, q, '.') && !has_char(s, q + 1, '.') {
        let q2 = skip_ws_exec(s, q + 1);
        match num_lit_exec(s, q2) {
            Some(e) => Ok((e, (q2, e))),
            None => match ident_exec(s, q2) {
                Some(e) => Ok((e, (q2, e))),
                None => Err(hard(q2, Msg::Plain)),
            },
        }
    } else {
        Err(soft(q))
    }
}

pub fn try_exec(s: &Vec<char>, i: usize) -> (r: Option<usize>)
    requires
        i <= s.len(),
    ensures
        r matches Some(j) ==> try_sfx(s@, i as int) == Some(j as int) && i < j <= s.len(),
        r is None ==> try_sfx(s@, i as int) is None,
{
    let q = skip_ws_exec(s, i);
    if has_char(s, q, '?') {
        Some(q + 1)
    } else {
        None
    }
}

pub fn macro_exec(s: &Vec<char>, i: usize) -> (r: Result<(usize, (usize, usize)), PErr>)
    requires
        i <= s.len(),
    ensures
        res_bounds(r, i as int, s.len() as int),
        sr_span(r) == macro_sfx(s@, i as int),
        r matches Ok((j, (a, b))) ==> i < j && a <= b <= s.len(),
{
    let q = skip_ws_exec(s, i);
    if !has_char(s, q, '!') {
        return Err(soft(q));
    }
    let q2 = skip_ws_exec(s, q + 1);
    if !has_char(s, q2, '(') {
        return Err(soft(q2));
    }
    match paren_scan_exec(s, q2 + 1) {
        None => Err(hard(q2 + 1, Msg::Plain)),
        Some(e) => {
            if has_char(s, e, ')') {
                Ok((e + 1, (q2 + 1, e)))
            } else {
                Err(hard(e, Msg::Plain))
            }
        },
    }
}

pub fn parse_expr(s: &Vec<char>, p: usize, lv: usize) -> (r: Result<(usize, Expr), PErr>)
    requires
        p <= s.len(),
    ensures
        res_bounds(r, p as int, s.len() as int),
        sr_expr(r) == expr_p(s@, p as int, lv as int),
    decreases max_level() - lv, s.len() - p, 0int,
{
    if lv >= 128 {
        return Err(hard(p, Msg::Plain));
    }
    match range_right(s, p, lv + 1) {
        Ok((i, (op, right))) => {
            return Ok((i, Expr::Range(op, None, right)));
        },
        Err(e) => {
            if e.fatal {
                return Err(e);
            }
        },
    }
    let (i, left) = match parse_layer(s, p, lv + 1, 0) {
        Ok(x) => x,
        Err(e) => {
            return Err(e);
        },
    };
    match range_right(s, i, lv + 1) {
        Ok((j, (op, right))) => Ok((j, Expr::Range(op, Some(Box::new(left)), right))),
        Err(e) => {
            if e.fatal {
                Err(e)
            } else {
                Ok((i, left))
            }
        },
    }
}

fn range_right(s: &Vec<char>, p: usize, lv: usize) -> (r: Result<
    (usize, (String, Option<Box<Expr>>)),
    PErr,
>)
    requires
        p <= s.len(),
    ensures
        res_bounds(r, p as int, s.len() as int),
        sr_range(r) == range_right_p(s@, p as int, lv as int),
    decreases max_level() - lv, s.len() - p, 0int,
{
    let q = skip_ws_exec(s, p);
    let n: usize = if has_char(s, q, '.') && has_char(s, q + 1, '.') && has_char(s, q + 2, '=') {
        3
    } else if has_char(s, q, '.') && has_char(s, q + 1, '.') {
        2
    } else {
        0
    };
    if n == 0 {
        return Err(soft(q));
    }
    let q3 = skip_ws_exec(s, q + n);
    let op = sub_string(s, q, q + n);
    match parse_layer(s, q3, lv, 0) {
        Ok((j, e)) => Ok((j, (op, Some(Box::new(e))))),
        Err(e) => {
            if e.fatal {
                Err(e)
            } else {
                Ok((q3, (op, None)))
            }
        },
    }
}

fn parse_inner(s: &Vec<char>, p: usize, lv: usize, k: usize) -> (r: Result<(usize, Expr), PErr>)
    requires
        p <= s.len(),
        k <= 8,
    ensures
        res_bounds(r, p as int, s.len() as int),
        sr_expr(r) == inner_p(s@, p as int, lv as int, k as int),
    decreases max_level() - lv, s.len() - p, 1int,
{
    if k >= 8 {
        parse_filtered(s, p, lv)
    } else {
        parse_layer(s, p, lv, k + 1)
    }
}

fn parse_layer(s: &Vec<char>, p: usize, lv: usize, k: usize) -> (r: Result<(usize, Expr), PErr>)
    requires
        p <= s.len(),
        k <= 8,
    ensures
        res_bounds(r, p as int, s.len() as int),
        sr_expr(r) == layer_p(s@, p as int, lv as int, k as int),
    decreases max_level() - lv, s.len() - p, 0int,
{
    if lv >= 128 {
        return Err(hard(p, Msg::Plain));
    }
    let l1 = lv + 1;
    let (i0, left) = match parse_inner(s, p, l1, k) {
        Ok(x) => x,
        Err(e) => {
            return Err(e);
        },
    };
    let mut i = i0;
    let mut acc = left;
    loop
        invariant
            p <= i <= s.len(),
            lv < 128,
            l1 == lv + 1,
            k <= 8,
            binop_loop(s@, i as int, l1 as int, k as int, expr_m(acc)) == layer_p(
                s@,
                p as int,
                lv as int,
                k as int,
            ),
        decreases s.len() - i,
    {
        let q = skip_ws_exec(s, i);
        let n = layer_op_exec(s, q, k);
        if n == 0 {
            return Ok((i, acc));
        }
        let q2 = skip_ws_exec(s, q + n);
        match parse_inner(s, q2, l1, k) {
            Ok((j, right)) => {
                let op = sub_string(s, q, q + n);
                acc = Expr::BinOp(op, Box::new(acc), Box::new(right));
                i = j;
            },
            Err(e) => {
                if e.fatal {
                    return Err(e);
                }
                return Ok((i, acc));
            },
        }
    }
}

fn parse_filtered(s: &Vec<char>, p: usize, lv: usize) -> (r: Result<(usize, Expr), PErr>)
    requires
        p <= s.len(),
    ensures
        res_bounds(r, p as int, s.len() as int),
        sr_expr(r) == filtered_p(s@, p as int, lv as int),
    decreases max_level() - lv, s.len() - p, 0int,
{
    if lv >= 128 {
        return Err(hard(p, Msg::Plain));
    }
    let l1 = lv + 1;
    let (i0, e0) = match parse_prefix(s, p, l1) {
        Ok(x) => x,
        Err(e) => {
            return Err(e);
        },
    };
    let mut i = i0;
    let mut acc = e0;
    loop
        invariant
            p <= i <= s.len(),
            lv < 128,
            l1 == lv + 1,
            filter_loop(s@, i as int, l1 as int, expr_m(acc)) == filtered_p(s@, p as int, lv as int),
        decreases s.len() - i,
    {
        match parse_filter(s, i, l1) {
            Ok((j, (name, args))) => {
                let ghost old_args = args@;
                let ghost old_acc = acc;
                let mut args = args;
                args.insert(0, acc);
                proof {
                    assert(args@ =~= seq![old_acc] + old_args);
                    lemma_exprs_prepend(old_acc, old_args);
                }
                acc = Expr::Filter(Filter { name, arguments: args });
                i = j;
            },
            Err(e) => {
                if e.fatal {
                    return Err(e);
                }
                return Ok((i, acc));
            },
        }
    }
}

pub fn parse_filter(s: &Vec<char>, i: usize, lv: usize) -> (r: Result<(usize, (String, Vec<Expr>)), PErr>)
    requires
        i <= s.len(),
    ensures
        res_bounds(r, i as int, s.len() as int),
        sr_filter(r) == filter_p(s@, i as int, lv as int),
        r matches Ok((j, _)) ==> i < j,
    decreases max_level() - lv, s.len() - i, 1int,
{
    if !has_char(s, i, '|') {
        return Err(soft(i));
    }
    let q = skip_ws_exec(s, i + 1);
    let e = match ident_exec(s, q) {
        None => {
            return Err(soft(q));
        },
        Some(e) => e,
    };
    let q2 = skip_ws_exec(s, e);
    let name = sub_string(s, q, e);
    match parse_arguments(s, q2, lv, false) {
        Ok((j, args)) => Ok((j, (name, args))),
        Err(x) => {
            if x.fatal {
                Err(x)
            } else {
                let v: Vec<Expr> = Vec::new();
                proof {
                    lemma_exprs_len(v@);
                }
                Ok((q2, (name, v)))
            }
        },
    }
}

fn parse_prefix(s: &Vec<char>, p: usize, lv: usize) -> (r: Result<(usize, Expr), PErr>)
    requires
        p <= s.len(),
    ensures
        res_bounds(r, p as int, s.len() as int),
        sr_expr(r) == prefix_p(s@, p as int, lv as int),
    decreases max_level() - lv, s.len() - p, 0int,
{
    if lv >= 128 {
        return Err(hard(p, Msg::Plain));
    }
    let mut ops: Vec<String> = Vec::new();
    let mut q = p;
    loop
        invariant
            p <= q <= s.len(),
            unary_ops(s@, p as int) == (strs_m(ops@) + unary_ops(s@, q as int).0, unary_ops(
                s@,
                q as int,
            ).1),
            ops@.len() <= q - p,
        ensures
            p <= q <= s.len(),
            unary_ops(s@, p as int) == (strs_m(ops@), q as int),
            ops@.len() <= q - p,
        decreases s.len() - q,
    {
        let q1 = skip_ws_exec(s, q);
        if has_char(s, q1, '!') || has_char(s, q1, '-') {
            let op = sub_string(s, q1, q1 + 1);
            let ghost old_ops = ops@;
            let ghost rest = unary_ops(s@, skip_ws(s@, q1 + 1));
            assert(s@.subrange(q1 as int, q1 + 1) =~= seq![s@[q1 as int]]);
            ops.push(op);
            q = skip_ws_exec(s, q1 + 1);
            assert(strs_m(ops@) =~= strs_m(old_ops).push(seq![s@[q1 as int]]));
            assert(strs_m(old_ops) + (seq![seq![s@[q1 as int]]] + rest.0) =~= strs_m(ops@)
                + rest.0);
        } else {
            assert(strs_m(ops@) + seq![] =~= strs_m(ops@));
            break;
        }
    }
    let (i, e) = match parse_suffix(s, q, lv + 1) {
        Ok(x) => x,
        Err(x) => {
            return Err(x);
        },
    };
    if ops.len() > 128 - lv {
        return Err(hard(i, Msg::Plain));
    }
    let mut res = e;
    let ghost all_ops = strs_m(ops@);
    while ops.len() > 0
        invariant
            wrap_unary(strs_m(ops@), expr_m(res)) == wrap_unary(all_ops, expr_m(e)),
        decreases ops.len(),
    {
        let ghost before = ops@;
        let op = ops.pop().unwrap();
        proof {
            assert(strs_m(before).drop_last() =~= strs_m(ops@));
            assert(strs_m(before).last() == op@);
        }
        res = Expr::Unary(op, Box::new(res));
    }
    assert(strs_m(ops@) =~= seq![]);
    Ok((i, res))
}

fn parse_suffix(s: &Vec<char>, p: usize, lv: usize) -> (r: Result<(usize, Expr), PErr>)
    requires
        p <= s.len(),
    ensures
        res_bounds(r, p as int, s.len() as int),
        sr_expr(r) == suffix_p(s@, p as int, lv as int),
    decreases max_level() - lv, s.len() - p, 0int,
{
    if lv >= 128 {
        return Err(hard(p, Msg::Plain));
    }
    let l1 = lv + 1;
    let (i0, e0) = match parse_single(s, p, l1) {
        Ok(x) => x,
        Err(e) => {
            return Err(e);
        },
    };
    let mut i = i0;
    let mut acc = e0;
    loop
        invariant
            p <= i <= s.len(),
            lv < 128,
            l1 == lv + 1,
            suffix_loop(s@, i as int, l1 as int, expr_m(acc)) == suffix_p(s@, p as int, lv as int),
        decreases s.len() - i,
    {
        match attr_exec(s, i) {
            Ok((j, (a, b))) => {
                acc = Expr::Attr(Box::new(acc), sub_string(s, a, b));
                i = j;
                continue ;
            },
            Err(x) => {
                if x.fatal {
                    return Err(x);
                }
            },
        }
        match parse_index(s, i, l1) {
            Ok((j, e)) => {
                acc = Expr::Index(Box::new(acc), Box::new(e));
                i = j;
                continue ;
            },
            Err(x) => {
                if x.fatal {
                    return Err(x);
                }
            },
        }
        match parse_call(s, i, l1) {
            Ok((j, args)) => {
                acc = Expr::Call(Box::new(acc), args);
                i = j;
                continue ;
            },
            Err(x) => {
                if x.fatal {
                    return Err(x);
                }
            },
        }
        match try_exec(s, i) {
            Some(j) => {
                acc = Expr::Try(Box::new(acc));
                i = j;
                continue ;
            },
            None => {},
        }
        match macro_exec(s, i) {
            Ok((j, (a, b))) => {
                let args = sub_string(s, a, b);
                acc = match acc {
                    Expr::Path(path) => Expr::RustMacro(path, args),
                    Expr::Var(name) => {
                        let mut path: Vec<String> = Vec::new();
                        path.push(name);
                        assert(strs_m(path@) =~= seq![path@[0]@]);
                        Expr::RustMacro(path, args)
                    },
                    _ => {
                        return Err(hard(i, Msg::Plain));
                    },
                };
                i = j;
            },
            Err(x) => {
                if x.fatal {
                    return Err(x);
                }
                return Ok((i, acc));
            },
        }
    }
}

fn parse_index(s: &Vec<char>, i: usize, lv: usize) -> (r: Result<(usize, Expr), PErr>)
    requires
        i <= s.len(),
    ensures
        res_bounds(r, i as int, s.len() as int),
        sr_expr(r) == index_p(s@, i as int, lv as int),
        r matches Ok((j, _)) ==> i < j,
    decreases max_level() - lv, s.len() - i, 1int,
{
    if lv >= 128 {
        return Err(hard(i, Msg::Plain));
    }
    let q = skip_ws_exec(s, i);
    if !has_char(s, q, '[') {
        return Err(soft(q));
    }
    let q2 = skip_ws_exec(s, q + 1);
    match parse_expr(s, q2, lv + 1) {
        Ok((j, e)) => {
            let r2 = skip_ws_exec(s, j);
            if has_char(s, r2, ']') {
                Ok((r2 + 1, e))
            } else {
                Err(hard(r2, Msg::Plain))
            }
        },
        Err(x) => Err(cut(x)),
    }
}

fn parse_call(s: &Vec<char>, i: usize, lv: usize) -> (r: Result<(usize, Vec<Expr>), PErr>)
    requires
        i <= s.len(),
    ensures
        res_bounds(r, i as int, s.len() as int),
        sr_exprs(r) == call_p(s@, i as int, lv as int),
        r matches Ok((j, _)) ==> i < j,
    decreases max_level() - lv, s.len() - i, 1int,
{
    if lv >= 128 {
        return Err(hard(i, Msg::Plain));
    }
    parse_arguments(s, i, lv + 1, false)
}

pub fn sub_eq(s: &Vec<char>, a: usize, b: usize, c: usize, d: usize) -> (r: bool)
    requires
        a <= b <= s.len(),
        c <= d <= s.len(),
    ensures
        r == (s@.subrange(a as int, b as int) == s@.subrange(c as int, d as int)),
{
    if b - a != d - c {
        assert(s@.subrange(a as int, b as int).len() != s@.subrange(c as int, d as int).len());
        return false;
    }
    let mut k: usize = 0;
    let ghost u = s@.subrange(c as int, d as int);
    while k < b - a
        invariant
            k <= b - a,
            b - a == d - c,
            a <= b <= s.len(),
            c <= d <= s.len(),
            u == s@.subrange(c as int, d as int),
            forall|j: int| 0 <= j < k ==> s@[a + j] == u[j],
        decreases b - a - k,
    {
        if s[a + k] != s[c + k] {
            assert(s@.subrange(a as int, b as int)[k as int] != s@.subrange(c as int, d as int)[k as int]);
            return false;
        }
        k = k + 1;
    }
    assert(s@.subrange(a as int, b as int) =~= s@.subrange(c as int, d as int));
    true
}

fn names_contain(s: &Vec<char>, names: &Vec<(usize, usize)>, a: usize, b: usize) -> (r: bool)
    requires
        a <= b <= s.len(),
        spans_ok(names@, s.len() as int),
    ensures
        r == names_m(s@, names@).contains(s@.subrange(a as int, b as int)),
{
    let mut k: usize = 0;
    while k < names.len()
        invariant
            k <= names.len(),
            a <= b <= s.len(),
            spans_ok(names@, s.len() as int),
            forall|j: int|
                0 <= j < k ==> names_m(s@, names@)[j] != s@.subrange(a as int, b as int),
        decreases names.len() - k,
    {
        let (c, d) = names[k];
        if sub_eq(s, c, d, a, b) {
            assert(names_m(s@, names@)[k as int] == s@.subrange(a as int, b as int));
            return true;
        }
        k = k + 1;
    }
    false
}

pub fn parse_arguments(s: &Vec<char>, p: usize, lv: usize, named: bool) -> (r: Result<
    (usize, Vec<Expr>),
    PErr,
>)
    requires
        p <= s.len(),
    ensures
        res_bounds(r, p as int, s.len() as int),
        sr_exprs(r) == arguments_p(s@, p as int, lv as int, named),
        r matches Ok((j, _)) ==> p < j,
    decreases max_level() - lv, s.len() - p, 0int,
{
    if lv >= 128 {
        return Err(hard(p, Msg::Plain));
    }
    let q = skip_ws_exec(s, p);
    if !has_char(s, q, '(') {
        return Err(soft(q));
    }
    let a = skip_ws_exec(s, q + 1);
    let l1 = lv + 1;
    let mut names: Vec<(usize, usize)> = Vec::new();
    let mut list: Vec<Expr> = Vec::new();
    let k;
    assert(names_m(s@, names@) =~= seq![]);
    match parse_elem(s, a, l1, named, p, &names) {
        Ok((j, (e, nm))) => {
            let ghost names2 = added(s@, seq![], nm);
            list.push(e);
            match nm {
                Some(sp) => {
                    names.push(sp);
                },
                None => {},
            }
            assert(names_m(s@, names@) =~= names2);
            proof {
                lemma_exprs_push(seq![], e);
                assert(seq![e] =~= Seq::<Expr>::empty().push(e));
                assert(list@ =~= seq![e]);
            }
            let mut i = skip_ws_exec(s, j);
            let ghost i0 = i;
            loop
                invariant
                    a <= i0 <= i <= s.len(),
                    p < a,
                    lv < 128,
                    l1 == lv + 1,
                    spans_ok(names@, s.len() as int),
                    args_rest(
                        s@,
                        i as int,
                        l1 as int,
                        named,
                        p as int,
                        names_m(s@, names@),
                        exprs_m(list@),
                    ) == args_rest(s@, i0 as int, l1 as int, named, p as int, names2, seq![expr_m(e)]),
                    arguments_p(s@, p as int, lv as int, named) == match args_rest(
                        s@,
                        i0 as int,
                        l1 as int,
                        named,
                        p as int,
                        names2,
                        seq![expr_m(e)],
                    ) {
                        SR::Parsed(k, v) => args_close(s@, k, v),
                        other => other,
                    },
                ensures
                    a <= i <= s.len(),
                    args_rest(s@, i0 as int, l1 as int, named, p as int, names2, seq![expr_m(e)])
                        == SR::Parsed(i as int, exprs_m(list@)),
                decreases s.len() - i,
            {
                if !has_char(s, i, ',') {
                    break;
                }
                let k2 = skip_ws_exec(s, i + 1);
                match parse_elem(s, k2, l1, named, p, &names) {
                    Ok((j2, (e2, nm2))) => {
                        let ghost old_names = names@;
                        let ghost old_list = list@;
                        list.push(e2);
                        match nm2 {
                            Some(sp) => {
                                names.push(sp);
                            },
                            None => {},
                        }
                        assert(names_m(s@, names@) =~= added(s@, names_m(s@, old_names), nm2));
                        proof {
                            lemma_exprs_push(old_list, e2);
                        }
                        i = skip_ws_exec(s, j2);
                    },
                    Err(x) => {
                        if x.fatal {
                            return Err(x);
                        }
                        break;
                    },
                }
            }
            k = i;
        },
        Err(x) => {
            if x.fatal {
                return Err(x);
            }
            k = a;
            proof {
                lemma_exprs_len(list@);
            }
        },
    }
    let q3 = skip_ws_exec(s, k);
    let k2 = if has_char(s, q3, ',') {
        skip_ws_exec(s, q3 + 1)
    } else {
        k
    };
    if has_char(s, k2, ')') {
        Ok((k2 + 1, list))
    } else {
        Err(hard(k2, Msg::Plain))
    }
}

fn is_named(e: &Expr) -> (r: bool)
    ensures
        r == (expr_m(*e) is NamedArgument),
{
    match e {
        Expr::NamedArgument(_, _) => true,
        _ => false,
    }
}

fn parse_elem(
    s: &Vec<char>,
    k: usize,
    lv: usize,
    named: bool,
    start: usize,
    names: &Vec<(usize, usize)>,
) -> (r: Result<(usize, (Expr, Option<(usize, usize)>)), PErr>)
    requires
        k <= s.len(),
        start <= s.len(),
        spans_ok(names@, s.len() as int),
    ensures
        res_bounds(r, k as int, s.len() as int),
        sr_elem(s@, names_m(s@, names@), r) == elem_p(
            s@,
            k as int,
            lv as int,
            named,
            start as int,
            names_m(s@, names@),
        ),
        r matches Ok((_, (_, Some(sp)))) ==> sp.0 <= sp.1 <= s.len(),
    decreases max_level() - lv, s.len() - k, 2int,
{
    let has_named = names.len() > 0;
    let r = match parse_named_arg(s, k, lv, named, start, names) {
        Ok(x) => Ok(x),
        Err(x) => {
            if x.fatal {
                Err(x)
            } else {
                match parse_expr(s, k, lv) {
                    Ok((j, e)) => Ok((j, (e, None))),
                    Err(y) => Err(y),
                }
            }
        },
    };
    match r {
        Ok((j, (e, nm))) => {
            if has_named && !is_named(&e) {
                Err(hard(start, Msg::NamedArgsLast))
            } else {
                Ok((j, (e, nm)))
            }
        },
        Err(x) => Err(x),
    }
}

fn parse_named_arg(
    s: &Vec<char>,
    k: usize,
    lv: usize,
    named: bool,
    start: usize,
    names: &Vec<(usize, usize)>,
) -> (r: Result<(usize, (Expr, Option<(usize, usize)>)), PErr>)
    requires
        k <= s.len(),
        start <= s.len(),
        spans_ok(names@, s.len() as int),
    ensures
        res_bounds(r, k as int, s.len() as int),
        sr_elem(s@, names_m(s@, names@), r) == named_arg_p(
            s@,
            k as int,
            lv as int,
            named,
            start as int,
            names_m(s@, names@),
        ),
        r matches Ok((_, (_, nm))) ==> nm matches Some(sp) && sp.0 <= sp.1 <= s.len(),
    decreases max_level() - lv, s.len() - k, 1int,
{
    if !named {
        return Err(soft(k));
    }
    if lv >= 128 {
        return Err(hard(k, Msg::Plain));
    }
    let e = match ident_exec(s, k) {
        None => {
            return Err(soft(k));
        },
        Some(e) => e,
    };
    let q = skip_ws_exec(s, e);
    if !has_char(s, q, '=') {
        return Err(soft(q));
    }
    let q2 = skip_ws_exec(s, q + 1);
    match parse_expr(s, q2, lv + 1) {
        Ok((j, v)) => {
            if names_contain(s, names, k, e) {
                Err(hard(start, Msg::NamedArgTwice(k, e)))
            } else {
                let name = sub_string(s, k, e);
                Ok((j, (Expr::NamedArgument(name, Box::new(v)), Some((k, e)))))
            }
        },
        Err(x) => Err(x),
    }
}

fn chars_are(v: &Vec<char>, t: &[char]) -> (r: bool)
    ensures
        r == (v@ == t@),
{
    if v.len() != t.len() {
        return false;
    }
    let b = has_tag(v, 0, t);
    assert(v@.subrange(0, t@.len() as int) =~= v@);
    b
}

fn parse_single(s: &Vec<char>, p: usize, lv: usize) -> (r: Result<(usize, Expr), PErr>)
    requires
        p <= s.len(),
    ensures
        res_bounds(r, p as int, s.len() as int),
        sr_expr(r) == single_p(s@, p as int, lv as int),
    decreases max_level() - lv, s.len() - p, 0int,
{
    if lv >= 128 {
        return Err(hard(p, Msg::Plain));
    }
    match num_lit_exec(s, p) {
        Some(e) => {
            return Ok((e, Expr::NumLit(sub_string(s, p, e))));
        },
        None => {},
    }
    match str_lit_exec(s, p) {
        Ok(e) => {
            return Ok((e + 1, Expr::StrLit(sub_string(s, p + 1, e))));
        },
        Err(_) => {},
    }
    match char_lit_exec(s, p) {
        Ok((i, e)) => {
            return Ok((i, Expr::CharLit(sub_string(s, p + 1, e))));
        },
        Err(x) => {
            if x.fatal {
                return Err(x);
            }
        },
    }
    match poi_exec(s, p) {
        Some((e, is_path, v)) => {
            if is_path {
                return Ok((e, Expr::Path(v)));
            }
            let mut v = v;
            let ghost v0 = v@;
            let n = v.pop().unwrap();
            assert(n == v0[0]);
            let cs = str_to_chars(n.as_str());
            if chars_are(&cs, &['t', 'r', 'u', 'e']) || chars_are(&cs, &['f', 'a', 'l', 's', 'e']) {
                return Ok((e, Expr::BoolLit(n)));
            }
            return Ok((e, Expr::Var(n)));
        },
        None => {},
    }
    match parse_array(s, p, lv + 1) {
        Ok(x) => {
            return Ok(x);
        },
        Err(x) => {
            if x.fatal {
                return Err(x);
            }
        },
    }
    parse_group(s, p, lv + 1)
}

fn parse_comma_rest(s: &Vec<char>, i: usize, lv: usize, acc: Vec<Expr>) -> (r: Result<
    (usize, Vec<Expr>),
    PErr,
>)
    requires
        i <= s.len(),
    ensures
        res_bounds(r, i as int, s.len() as int),
        sr_exprs(r) == comma_rest(s@, i as int, lv as int, exprs_m(acc@)),
    decreases max_level() - lv, s.len() - i, 0int,
{
    let mut list = acc;
    let mut k = i;
    loop
        invariant
            i <= k <= s.len(),
            comma_rest(s@, k as int, lv as int, exprs_m(list@)) == comma_rest(
                s@,
                i as int,
                lv as int,
                exprs_m(acc@),
            ),
        decreases s.len() - k,
    {
        if !has_char(s, k, ',') {
            return Ok((k, list));
        }
        let a = skip_ws_exec(s, k + 1);
        match parse_expr(s, a, lv) {
            Ok((j, e)) => {
                let ghost old_list = list@;
                list.push(e);
                proof {
                    lemma_exprs_push(old_list, e);
                }
                k = skip_ws_exec(s, j);
            },
            Err(x) => {
                if x.fatal {
                    return Err(x);
                }
                return Ok((k, list));
            },
        }
    }
}

fn parse_array(s: &Vec<char>, p: usize, lv: usize) -> (r: Result<(usize, Expr), PErr>)
    requires
        p <= s.len(),
    ensures
        res_bounds(r, p as int, s.len() as int),
        sr_expr(r) == array_p(s@, p as int, lv as int),
    decreases max_level() - lv, s.len() - p, 0int,
{
    if lv >= 128 {
        return Err(hard(p, Msg::Plain));
    }
    let q = skip_ws_exec(s, p);
    if !has_char(s, q, '[') {
        return Err(soft(q));
    }
    let a = skip_ws_exec(s, q + 1);
    match parse_expr(s, a, lv + 1) {
        Err(x) => {
            if x.fatal {
                Err(x)
            } else if has_char(s, a, ']') {
                let v: Vec<Expr> = Vec::new();
                assert(exprs_m(v@) =~= seq![]) by {
                    lemma_exprs_len(v@);
                }
                Ok((a + 1, Expr::Array(v)))
            } else {
                Err(hard(a, Msg::Plain))
            }
        },
        Ok((j, e)) => {
            let mut list: Vec<Expr> = Vec::new();
            list.push(e);
            proof {
                lemma_exprs_push(seq![], e);
                assert(list@ =~= Seq::<Expr>::empty().push(e));
                assert(exprs_m(Seq::<Expr>::empty()) =~= seq![]);
                assert(exprs_m(list@) =~= seq![expr_m(e)]);
            }
            let j2 = skip_ws_exec(s, j);
            match parse_comma_rest(s, j2, lv + 1, list) {
                Ok((k, v)) => {
                    if has_char(s, k, ']') {
                        Ok((k + 1, Expr::Array(v)))
                    } else {
                        Err(hard(k, Msg::Plain))
                    }
                },
                Err(x) => Err(x),
            }
        },
    }
}

fn parse_group(s: &Vec<char>, p: usize, lv: usize) -> (r: Result<(usize, Expr), PErr>)
    requires
        p <= s.len(),
    ensures
        res_bounds(r, p as int, s.len() as int),
        sr_expr(r) == group_p(s@, p as int, lv as int),
    decreases max_level() - lv, s.len() - p, 0int,
{
    if lv >= 128 {
        return Err(hard(p, Msg::Plain));
    }
    let q = skip_ws_exec(s, p);
    if !has_char(s, q, '(') {
        return Err(soft(q));
    }
    let a = skip_ws_exec(s, q + 1);
    match parse_expr(s, a, lv + 1) {
        Err(x) => {
            if x.fatal {
                Err(x)
            } else if has_char(s, a, ')') {
                let v: Vec<Expr> = Vec::new();
                assert(exprs_m(v@) =~= seq![]) by {
                    lemma_exprs_len(v@);
                }
                Ok((a + 1, Expr::Tuple(v)))
            } else {
                Err(soft(a))
            }
        },
        Ok((i, e)) => {
            let i1 = skip_ws_exec(s, i);
            if has_char(s, i1, ',') {
                let mut list: Vec<Expr> = Vec::new();
                list.push(e);
                proof {
                    lemma_exprs_push(seq![], e);
                    assert(list@ =~= Seq::<Expr>::empty().push(e));
                    assert(exprs_m(Seq::<Expr>::empty()) =~= seq![]);
                    assert(exprs_m(list@) =~= seq![expr_m(e)]);
                }
                match parse_comma_rest(s, i1, lv + 1, list) {
                    Ok((k, v)) => {
                        let q3 = skip_ws_exec(s, k);
                        let k2 = if has_char(s, q3, ',') {
                            skip_ws_exec(s, q3 + 1)
                        } else {
                            q3
                        };
                        if has_char(s, k2, ')') {
                            Ok((k2 + 1, Expr::Tuple(v)))
                        } else {
                            Err(soft(k2))
                        }
                    },
                    Err(x) => Err(x),
                }
            } else if has_char(s, i1, ')') {
                Ok((i1 + 1, Expr::Group(Box::new(e))))
            } else {
                Err(soft(i1))
            }
        },
    }
}

} // verus!
