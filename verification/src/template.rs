//! The executable template parser, proved to compute the grammar of
//! `node_parser` exactly.

use vstd::prelude::*;
use crate::ast::{
    BlockDef, Call, Comment, CommentM, Cond, CondM, CondTest, CondTestM, Extends, Filter,
    FilterBlock, FilterM, If, Import, Include, Let, Lit, Loop, Macro, Match, Node, NodeM, Raw,
    Target, When, WhenM, Whitespace, Ws, expr_m, exprs_m, filter_m, lemma_conds_push,
    lemma_exprs_prepend, lemma_nodes_push, lemma_whens_push, lit_m, node_m, nodes_m, opt_expr_m,
    opt_target_m, strs_m, target_m, conds_m,
};
use crate::lex::{
    EndKind, Msg, PErr, SR, Class, after_mark, err_sr, hard, has_char, has_tag, ident_exec,
    keyword_exec, res_bounds, run, run_exec, skip_ws, skip_ws_exec, soft, str_lit_exec,
    sub_chars, sub_string, tag_at, ws_keyword_exec, ws_mark, ws_mark_exec, is_ws, lemma_run,
};
use crate::expr_parser::{max_level, parse_arguments, parse_expr, parse_filter};
use crate::ast::Expr;
use crate::target_parser::parse_target;
use crate::node_parser::{
    Delims, delims_ok, rtrim_ws, split_ws, start_at, find_start, lit_p, find_ctag, comment_scan,
    mark_of, comment_p, expr_node_p, end_tag_p, end_name_p, params_p, param_rest, skip_comments,
    endraw_at, find_endraw, condtest_p, fb_filters, nodes_p, block_p, kinds_p, call_k, let_k,
    if_k, cond_p, conds_p, loop_k, loop_mid, loop_end, else_block_p, match_k, match_end, when_p,
    else_arm_p, whens_rest, extends_k, include_k, import_k, blockdef_k, macro_k, raw_k, jump_k,
    filterblock_k, template_p, block_end_at,
};

verus! {

/// The six delimiters of a template syntax.
pub struct Delimiters {
    pub bs: Vec<char>,
    pub be: Vec<char>,
    pub es: Vec<char>,
    pub ee: Vec<char>,
    pub cs: Vec<char>,
    pub ce: Vec<char>,
}

impl View for Delimiters {
    type V = Delims;

    open spec fn view(&self) -> Delims {
        Delims {
            bs: self.bs@,
            be: self.be@,
            es: self.es@,
            ee: self.ee@,
            cs: self.cs@,
            ce: self.ce@,
        }
    }
}

pub open spec fn sr_node(r: Result<(usize, Node), PErr>) -> SR<NodeM> {
    match r {
        Ok((i, n)) => SR::Parsed(i as int, node_m(n)),
        Err(x) => err_sr(x),
    }
}

pub open spec fn sr_nodes(r: Result<(usize, Vec<Node>), PErr>) -> SR<Seq<NodeM>> {
    match r {
        Ok((i, v)) => SR::Parsed(i as int, nodes_m(v@)),
        Err(x) => err_sr(x),
    }
}

pub open spec fn comment_view(c: Comment) -> CommentM {
    CommentM { ws: c.ws, content: c.content@ }
}

pub open spec fn sr_comment(r: Result<(usize, Comment), PErr>) -> SR<CommentM> {
    match r {
        Ok((i, c)) => SR::Parsed(i as int, comment_view(c)),
        Err(x) => err_sr(x),
    }
}

pub open spec fn condtest_view(t: CondTest) -> CondTestM {
    CondTestM { target: opt_target_m(t.target), expr: expr_m(t.expr) }
}

pub open spec fn cond_view(c: Cond) -> CondM {
    CondM {
        ws: c.ws,
        cond: match c.cond {
            Some(t) => Some(CondTestM { target: opt_target_m(t.target), expr: expr_m(t.expr) }),
            None => None,
        },
        nodes: nodes_m(c.nodes@),
    }
}

pub open spec fn when_view(w: When) -> WhenM {
    WhenM { ws: w.ws, target: target_m(w.target), nodes: nodes_m(w.nodes@) }
}

pub open spec fn sr_condtest(r: Result<(usize, CondTest), PErr>) -> SR<CondTestM> {
    match r {
        Ok((i, c)) => SR::Parsed(i as int, condtest_view(c)),
        Err(x) => err_sr(x),
    }
}

pub open spec fn sr_cond(r: Result<(usize, Cond), PErr>) -> SR<CondM> {
    match r {
        Ok((i, c)) => SR::Parsed(i as int, cond_view(c)),
        Err(x) => err_sr(x),
    }
}

pub open spec fn sr_when(r: Result<(usize, When), PErr>) -> SR<WhenM> {
    match r {
        Ok((i, w)) => SR::Parsed(i as int, when_view(w)),
        Err(x) => err_sr(x),
    }
}

pub open spec fn sr_mark(r: Result<(usize, Option<Whitespace>), PErr>) -> SR<Option<Whitespace>> {
    match r {
        Ok((i, w)) => SR::Parsed(i as int, w),
        Err(x) => err_sr(x),
    }
}

pub open spec fn sr_unit(r: Result<usize, PErr>) -> SR<()> {
    match r {
        Ok(i) => SR::Parsed(i as int, ()),
        Err(x) => err_sr(x),
    }
}

pub open spec fn ok_at<T>(r: Result<(usize, T), PErr>, i: int) -> bool {
    r matches Ok((j, _)) ==> i < j
}


// ---------------------------------------------------------------------------
// Literal text and comments.
// ---------------------------------------------------------------------------

/// Splits `s[a..b]` into leading whitespace, value and trailing whitespace.
pub fn split_lit(s: &Vec<char>, a: usize, b: usize) -> (r: Lit)
    requires
        a <= b <= s.len(),
    ensures
        lit_m(r) == split_ws(s@.subrange(a as int, b as int)),
{
    let c = sub_chars(s, a, b);
    let x = run_exec(&c, 0, &Class::Ws);
    let mut y = c.len();
    while y > x && (c[y - 1] == ' ' || c[y - 1] == '\t' || c[y - 1] == '\r' || c[y - 1] == '\n')
        invariant
            x <= y <= c.len(),
            rtrim_ws(c@, y as int, x as int) == rtrim_ws(c@, c.len() as int, x as int),
        decreases y,
    {
        y = y - 1;
    }
    Lit { lws: sub_string(&c, 0, x), val: sub_string(&c, x, y), rws: sub_string(&c, y, c.len()) }
}

fn find_start_exec(s: &Vec<char>, d: &Delimiters, k: usize) -> (r: Option<usize>)
    requires
        k <= s.len(),
    ensures
        r matches Some(m) ==> find_start(s@, d@, k as int) == Some(m as int) && k <= m <= s.len(),
        r is None ==> find_start(s@, d@, k as int) is None,
{
    let mut m = k;
    loop
        invariant
            k <= m <= s.len(),
            find_start(s@, d@, m as int) == find_start(s@, d@, k as int),
        decreases s.len() - m,
    {
        if has_tag(s, m, d.bs.as_slice()) || has_tag(s, m, d.cs.as_slice()) || has_tag(
            s,
            m,
            d.es.as_slice(),
        ) {
            return Some(m);
        }
        if m == s.len() {
            return None;
        }
        m = m + 1;
    }
}

fn lit_exec(s: &Vec<char>, d: &Delimiters, i: usize) -> (r: Option<(usize, Lit)>)
    requires
        i <= s.len(),
    ensures
        r matches Some((j, l)) ==> lit_p(s@, d@, i as int) == SR::Parsed(j as int, lit_m(l)) && i
            < j <= s.len(),
        r is None ==> lit_p(s@, d@, i as int) is Backtrack,
{
    if i >= s.len() {
        return None;
    }
    match find_start_exec(s, d, i) {
        Some(k) => {
            if k == i {
                None
            } else {
                Some((k, split_lit(s, i, k)))
            }
        },
        None => Some((s.len(), split_lit(s, i, s.len()))),
    }
}

fn find_ctag_exec(s: &Vec<char>, d: &Delimiters, k: usize) -> (r: Option<(usize, bool)>)
    requires
        k <= s.len(),
    ensures
        r matches Some((m, o)) ==> find_ctag(s@, d@, k as int) == Some((m as int, o)) && k <= m
            <= s.len() && (o ==> tag_at(s@, m as int, d@.cs)) && (!o ==> tag_at(
            s@,
            m as int,
            d@.ce,
        )),
        r is None ==> find_ctag(s@, d@, k as int) is None,
{
    let mut m = k;
    loop
        invariant
            k <= m <= s.len(),
            find_ctag(s@, d@, m as int) == find_ctag(s@, d@, k as int),
        decreases s.len() - m,
    {
        if has_tag(s, m, d.cs.as_slice()) {
            return Some((m, true));
        }
        if has_tag(s, m, d.ce.as_slice()) {
            return Some((m, false));
        }
        if m == s.len() {
            return None;
        }
        m = m + 1;
    }
}

fn comment_scan_exec(s: &Vec<char>, d: &Delimiters, c0: usize) -> (r: Result<usize, PErr>)
    requires
        c0 <= s.len(),
        delims_ok(d@),
    ensures
        sr_unit(r) == comment_scan(s@, d@, c0 as int, 0),
        r matches Ok(e) ==> c0 + d@.ce.len() <= e <= s.len(),
        r matches Err(x) ==> x.pos <= s.len() && x.fatal && crate::lex::msg_ok(x.msg, s.len() as int),
{
    let mut k = c0;
    let mut depth: usize = 0;
    loop
        invariant
            c0 <= k <= s.len(),
            delims_ok(d@),
            comment_scan(s@, d@, k as int, depth as int) == comment_scan(s@, d@, c0 as int, 0),
        decreases s.len() - k,
    {
        match find_ctag_exec(s, d, k) {
            None => {
                return Err(hard(s.len(), Msg::Plain));
            },
            Some((m, open)) => {
                if open {
                    if depth == usize::MAX {
                        return Err(hard(k, Msg::CommentsTooDeep));
                    }
                    depth = depth + 1;
                    k = m + d.cs.len();
                } else {
                    if depth == 0 {
                        return Ok(m + d.ce.len());
                    }
                    depth = depth - 1;
                    k = m + d.ce.len();
                }
            },
        }
    }
}

fn mark_of_exec(c: char) -> (r: Option<Whitespace>)
    ensures
        r == mark_of(c),
{
    if c == '-' {
        Some(Whitespace::Suppress)
    } else if c == '+' {
        Some(Whitespace::Preserve)
    } else if c == '~' {
        Some(Whitespace::Minimize)
    } else {
        None
    }
}

fn comment_exec(s: &Vec<char>, d: &Delimiters, i: usize) -> (r: Result<(usize, Comment), PErr>)
    requires
        i <= s.len(),
        delims_ok(d@),
    ensures
        res_bounds(r, i as int, s.len() as int),
        sr_comment(r) == comment_p(s@, d@, i as int),
        ok_at(r, i as int),
{
    if !has_tag(s, i, d.cs.as_slice()) {
        return Err(soft(i));
    }
    let a = i + d.cs.len();
    let (pws, c0) = ws_mark_exec(s, a);
    match comment_scan_exec(s, d, c0) {
        Ok(end) => {
            let cut_at = end - d.ce.len();
            let nws = if cut_at > c0 {
                mark_of_exec(s[cut_at - 1])
            } else {
                None
            };
            proof {
                let st = s@.subrange(c0 as int, cut_at as int);
                if cut_at > c0 {
                    assert(st.last() == s@[cut_at - 1]);
                }
            }
            Ok((end, Comment { ws: Ws(pws, nws), content: sub_string(s, c0, end) }))
        },
        Err(x) => Err(x),
    }
}

// ---------------------------------------------------------------------------
// Expression tags and pieces of block tags.
// ---------------------------------------------------------------------------

fn expr_node_exec(s: &Vec<char>, d: &Delimiters, i: usize, lv: usize) -> (r: Result<(usize, Node), PErr>)
    requires
        i <= s.len(),
        delims_ok(d@),
    ensures
        res_bounds(r, i as int, s.len() as int),
        sr_node(r) == expr_node_p(s@, d@, i as int, lv as int),
        ok_at(r, i as int),
{
    if !has_tag(s, i, d.es.as_slice()) {
        return Err(soft(i));
    }
    let a = i + d.es.len();
    let (pws, a2) = ws_mark_exec(s, a);
    let q = skip_ws_exec(s, a2);
    match parse_expr(s, q, lv) {
        Ok((j, e)) => {
            let j2 = skip_ws_exec(s, j);
            let (nws, j3) = ws_mark_exec(s, j2);
            if has_tag(s, j3, d.ee.as_slice()) {
                Ok((j3 + d.ee.len(), Node::Expr(Ws(pws, nws), e)))
            } else {
                Err(hard(j3, Msg::Plain))
            }
        },
        Err(x) => Err(hard(x.pos, if x.fatal {
            x.msg
        } else {
            Msg::Plain
        })),
    }
}

fn end_tag_exec(s: &Vec<char>, d: &Delimiters, k: usize, kw: &[char]) -> (r: Result<
    (usize, Option<Whitespace>),
    PErr,
>)
    requires
        k <= s.len(),
    ensures
        res_bounds(r, k as int, s.len() as int),
        sr_mark(r) == end_tag_p(s@, d@, k as int, kw@),
        r matches Err(x) ==> x.fatal,
{
    if !has_tag(s, k, d.bs.as_slice()) {
        return Err(hard(k, Msg::Plain));
    }
    let a = k + d.bs.len();
    let (pws, a2) = ws_mark_exec(s, a);
    match ws_keyword_exec(s, a2, kw) {
        Some(r) => Ok((r, pws)),
        None => Err(hard(skip_ws_exec(s, a2), Msg::Plain)),
    }
}

fn block_end_exec(s: &Vec<char>, d: &Delimiters, k: usize) -> (r: Result<usize, PErr>)
    requires
        k <= s.len(),
    ensures
        sr_unit(r) == block_end_at(s@, d@, k as int),
        r matches Ok(j) ==> k <= j <= s.len(),
        r matches Err(x) ==> x.pos <= s.len() && x.fatal && crate::lex::msg_ok(x.msg, s.len() as int),
{
    if has_tag(s, k, d.be.as_slice()) {
        Ok(k + d.be.len())
    } else {
        Err(hard(k, Msg::Plain))
    }
}

fn end_name_exec(s: &Vec<char>, before: usize, kind: EndKind, a: usize, b: usize) -> (r: Result<
    usize,
    PErr,
>)
    requires
        before <= s.len(),
        a <= b <= s.len(),
    ensures
        sr_unit(r) == end_name_p(s@, before as int, kind, a as int, b as int),
        r matches Ok(j) ==> before <= j <= s.len(),
        r matches Err(x) ==> x.pos <= s.len() && x.fatal && crate::lex::msg_ok(x.msg, s.len() as int),
{
    let q = skip_ws_exec(s, before);
    match ident_exec(s, q) {
        None => Ok(before),
        Some(e) => {
            if crate::expr_parser::sub_eq(s, q, e, a, b) {
                Ok(skip_ws_exec(s, e))
            } else {
                Err(hard(before, Msg::EndName(kind, a, b, q, e)))
            }
        },
    }
}

fn params_exec(s: &Vec<char>, p: usize) -> (r: Option<(usize, Vec<String>)>)
    requires
        p <= s.len(),
    ensures
        r matches Some((j, v)) ==> params_p(s@, p as int) == Some((j as int, strs_m(v@))) && p < j
            <= s.len(),
        r is None ==> params_p(s@, p as int) is None,
{
    let q = skip_ws_exec(s, p);
    if !has_char(s, q, '(') {
        return None;
    }
    let a = skip_ws_exec(s, q + 1);
    let mut names: Vec<String> = Vec::new();
    let k;
    match ident_exec(s, a) {
        Some(e) => {
            names.push(sub_string(s, a, e));
            assert(strs_m(names@) =~= seq![s@.subrange(a as int, e as int)]);
            let mut i = skip_ws_exec(s, e);
            let ghost i0 = i;
            loop
                invariant
                    a < e <= i0 <= i <= s.len(),
                    param_rest(s@, i as int, strs_m(names@)) == param_rest(
                        s@,
                        i0 as int,
                        seq![s@.subrange(a as int, e as int)],
                    ),
                ensures
                    a < i <= s.len(),
                    param_rest(s@, i0 as int, seq![s@.subrange(a as int, e as int)]) == (
                        i as int,
                        strs_m(names@),
                    ),
                decreases s.len() - i,
            {
                if !(i < s.len() && has_char(s, i, ',')) {
                    break;
                }
                let k2 = skip_ws_exec(s, i + 1);
                match ident_exec(s, k2) {
                    None => {
                        break;
                    },
                    Some(e2) => {
                        let ghost old = names@;
                        names.push(sub_string(s, k2, e2));
                        assert(strs_m(names@) =~= strs_m(old).push(
                            s@.subrange(k2 as int, e2 as int),
                        ));
                        i = skip_ws_exec(s, e2);
                    },
                }
            }
            k = i;
        },
        None => {
            assert(strs_m(names@) =~= seq![]);
            k = a;
        },
    }
    let q4 = skip_ws_exec(s, k);
    let k2 = if has_char(s, q4, ',') {
        skip_ws_exec(s, q4 + 1)
    } else {
        k
    };
    if has_char(s, k2, ')') {
        Some((k2 + 1, names))
    } else {
        None
    }
}

fn skip_comments_exec(s: &Vec<char>, d: &Delimiters, k: usize) -> (r: Result<usize, PErr>)
    requires
        k <= s.len(),
        delims_ok(d@),
    ensures
        r matches Ok(x) ==> skip_comments(s@, d@, k as int) == SR::Parsed(x as int, x as int) && k
            <= x <= s.len(),
        r matches Err(e) ==> skip_comments(s@, d@, k as int) == err_sr::<int>(e) && e.pos
            <= s.len() && e.fatal && crate::lex::msg_ok(e.msg, s.len() as int),
{
    let mut i = k;
    loop
        invariant
            k <= i <= s.len(),
            delims_ok(d@),
            skip_comments(s@, d@, i as int) == skip_comments(s@, d@, k as int),
        decreases s.len() - i,
    {
        let q = skip_ws_exec(s, i);
        match comment_exec(s, d, q) {
            Ok((j, _)) => {
                i = skip_ws_exec(s, j);
            },
            Err(x) => {
                if x.fatal {
                    return Err(x);
                }
                return Ok(i);
            },
        }
    }
}

fn endraw_exec(s: &Vec<char>, d: &Delimiters, k: usize) -> (r: Option<(usize, Ws)>)
    requires
        k <= s.len(),
    ensures
        r matches Some((j, w)) ==> endraw_at(s@, d@, k as int) == Some((j as int, w)) && k <= j
            <= s.len(),
        r is None ==> endraw_at(s@, d@, k as int) is None,
{
    if !has_tag(s, k, d.bs.as_slice()) {
        return None;
    }
    let a = k + d.bs.len();
    let (pws, a2) = ws_mark_exec(s, a);
    match ws_keyword_exec(s, a2, &['e', 'n', 'd', 'r', 'a', 'w']) {
        Some(r) => {
            let (nws, r2) = ws_mark_exec(s, r);
            if has_tag(s, r2, d.be.as_slice()) {
                Some((r2, Ws(pws, nws)))
            } else {
                None
            }
        },
        None => None,
    }
}

fn find_endraw_exec(s: &Vec<char>, d: &Delimiters, k: usize) -> (r: Option<(usize, usize, Ws)>)
    requires
        k <= s.len(),
    ensures
        r matches Some((m, j, w)) ==> find_endraw(s@, d@, k as int) == Some((m as int, j as int, w))
            && k <= m <= j <= s.len(),
        r is None ==> find_endraw(s@, d@, k as int) is None,
{
    let mut m = k;
    loop
        invariant
            k <= m <= s.len(),
            find_endraw(s@, d@, m as int) == find_endraw(s@, d@, k as int),
        decreases s.len() - m,
    {
        match endraw_exec(s, d, m) {
            Some((j, w)) => {
                return Some((m, j, w));
            },
            None => {},
        }
        if m == s.len() {
            return None;
        }
        m = m + 1;
    }
}


// ---------------------------------------------------------------------------
// Conditions and filter chains.
// ---------------------------------------------------------------------------

pub open spec fn sr_filt(r: Result<(usize, Filter), PErr>) -> SR<FilterM> {
    match r {
        Ok((i, f)) => SR::Parsed(i as int, filter_m(f)),
        Err(x) => err_sr(x),
    }
}

fn soft_to_hard(x: PErr) -> (r: PErr)
    ensures
        r == (PErr { pos: x.pos, fatal: true, msg: if x.fatal { x.msg } else { Msg::Plain } }),
{
    hard(x.pos, if x.fatal {
        x.msg
    } else {
        Msg::Plain
    })
}

fn condtest_exec(s: &Vec<char>, c: usize, lv: usize) -> (r: Result<(usize, CondTest), PErr>)
    requires
        c <= s.len(),
    ensures
        res_bounds(r, c as int, s.len() as int),
        sr_condtest(r) == condtest_p(s@, c as int, lv as int),
        ok_at(r, c as int),
{
    let r0 = match ws_keyword_exec(s, c, &['i', 'f']) {
        None => {
            return Err(soft(skip_ws_exec(s, c)));
        },
        Some(r) => r,
    };
    let kw = match keyword_exec(s, r0, &['l', 'e', 't']) {
        Some(e) => Some(e),
        None => keyword_exec(s, r0, &['s', 'e', 't']),
    };
    let mut target: Option<Target> = None;
    let mut tpos = r0;
    match kw {
        Some(e) => match parse_target(s, skip_ws_exec(s, e), lv) {
            Ok((e2, t)) => {
                let q = skip_ws_exec(s, e2);
                if has_char(s, q, '=') {
                    tpos = skip_ws_exec(s, q + 1);
                    target = Some(t);
                }
            },
            Err(x) => {
                if x.fatal {
                    return Err(x);
                }
            },
        },
        None => {},
    }
    match parse_expr(s, tpos, lv) {
        Ok((j, e)) => Ok((skip_ws_exec(s, j), CondTest { target, expr: e })),
        Err(x) => Err(soft_to_hard(x)),
    }
}

fn fb_filters_exec(s: &Vec<char>, i: usize, lv: usize, acc: Filter) -> (r: Result<(usize, Filter), PErr>)
    requires
        i <= s.len(),
    ensures
        res_bounds(r, i as int, s.len() as int),
        sr_filt(r) == fb_filters(s@, i as int, lv as int, filter_m(acc)),
{
    let mut f = acc;
    let mut k = i;
    loop
        invariant
            i <= k <= s.len(),
            fb_filters(s@, k as int, lv as int, filter_m(f)) == fb_filters(
                s@,
                i as int,
                lv as int,
                filter_m(acc),
            ),
        decreases s.len() - k,
    {
        match parse_filter(s, k, lv) {
            Ok((j, (name, args))) => {
                let ghost old_args = args@;
                let wrapped = Expr::Filter(f);
                let ghost w = wrapped;
                let mut args = args;
                args.insert(0, wrapped);
                proof {
                    assert(args@ =~= seq![w] + old_args);
                    lemma_exprs_prepend(w, old_args);
                }
                f = Filter { name, arguments: args };
                k = j;
            },
            Err(x) => {
                if x.fatal {
                    return Err(x);
                }
                return Ok((k, f));
            },
        }
    }
}

// ---------------------------------------------------------------------------
// Nodes.
// ---------------------------------------------------------------------------

pub fn parse_nodes(s: &Vec<char>, d: &Delimiters, i: usize, lv: usize, lp: bool) -> (r: Result<
    (usize, Vec<Node>),
    PErr,
>)
    requires
        i <= s.len(),
        delims_ok(d@),
    ensures
        res_bounds(r, i as int, s.len() as int),
        sr_nodes(r) == nodes_p(s@, d@, i as int, lv as int, lp, seq![]),
    decreases max_level() - lv, s.len() - i, 1int,
{
    let mut acc: Vec<Node> = Vec::new();
    let mut k = i;
    assert(nodes_m(acc@) =~= seq![]);
    loop
        invariant
            i <= k <= s.len(),
            delims_ok(d@),
            nodes_p(s@, d@, k as int, lv as int, lp, nodes_m(acc@)) == nodes_p(
                s@,
                d@,
                i as int,
                lv as int,
                lp,
                seq![],
            ),
        decreases s.len() - k,
    {
        let ghost old = acc@;
        match lit_exec(s, d, k) {
            Some((j, l)) => {
                let n = Node::Lit(l);
                let ghost gn = n;
                acc.push(n);
                proof {
                    lemma_nodes_push(old, gn);
                }
                k = j;
                continue ;
            },
            None => {},
        }
        match comment_exec(s, d, k) {
            Ok((j, c)) => {
                let n = Node::Comment(c);
                let ghost gn = n;
                acc.push(n);
                proof {
                    lemma_nodes_push(old, gn);
                }
                k = j;
                continue ;
            },
            Err(x) => {
                if x.fatal {
                    return Err(x);
                }
            },
        }
        match expr_node_exec(s, d, k, lv) {
            Ok((j, n)) => {
                let ghost gn = n;
                acc.push(n);
                proof {
                    lemma_nodes_push(old, gn);
                }
                k = j;
                continue ;
            },
            Err(x) => {
                if x.fatal {
                    return Err(x);
                }
            },
        }
        match parse_block(s, d, k, lv, lp) {
            Ok((j, n)) => {
                let ghost gn = n;
                acc.push(n);
                proof {
                    lemma_nodes_push(old, gn);
                }
                k = j;
            },
            Err(x) => {
                if x.fatal {
                    return Err(x);
                }
                return Ok((k, acc));
            },
        }
    }
}

fn parse_block(s: &Vec<char>, d: &Delimiters, i: usize, lv: usize, lp: bool) -> (r: Result<
    (usize, Node),
    PErr,
>)
    requires
        i <= s.len(),
        delims_ok(d@),
    ensures
        res_bounds(r, i as int, s.len() as int),
        sr_node(r) == block_p(s@, d@, i as int, lv as int, lp),
        ok_at(r, i as int),
    decreases max_level() - lv, s.len() - i, 0int,
{
    if lv >= 128 {
        return Err(hard(i, Msg::Plain));
    }
    if !has_tag(s, i, d.bs.as_slice()) {
        return Err(soft(i));
    }
    match parse_kinds(s, d, i + d.bs.len(), lv + 1, lp) {
        Ok((j, n)) => {
            if has_tag(s, j, d.be.as_slice()) {
                Ok((j + d.be.len(), n))
            } else {
                Err(hard(j, Msg::Plain))
            }
        },
        Err(x) => Err(x),
    }
}

fn parse_kinds(s: &Vec<char>, d: &Delimiters, b: usize, lv: usize, lp: bool) -> (r: Result<
    (usize, Node),
    PErr,
>)
    requires
        b <= s.len(),
        delims_ok(d@),
    ensures
        res_bounds(r, b as int, s.len() as int),
        sr_node(r) == kinds_p(s@, d@, b as int, lv as int, lp),
    decreases max_level() - lv, s.len() - b, 3int,
{
    match call_exec(s, b, lv) {
        Ok(x) => {
            return Ok(x);
        },
        Err(x) => {
            if x.fatal {
                return Err(x);
            }
        },
    }
    match let_exec(s, b, lv) {
        Ok(x) => {
            return Ok(x);
        },
        Err(x) => {
            if x.fatal {
                return Err(x);
            }
        },
    }
    match if_exec(s, d, b, lv, lp) {
        Ok(x) => {
            return Ok(x);
        },
        Err(x) => {
            if x.fatal {
                return Err(x);
            }
        },
    }
    match loop_exec(s, d, b, lv, lp) {
        Ok(x) => {
            return Ok(x);
        },
        Err(x) => {
            if x.fatal {
                return Err(x);
            }
        },
    }
    match match_exec(s, d, b, lv, lp) {
        Ok(x) => {
            return Ok(x);
        },
        Err(x) => {
            if x.fatal {
                return Err(x);
            }
        },
    }
    match extends_exec(s, b) {
        Ok(x) => {
            return Ok(x);
        },
        Err(x) => {
            if x.fatal {
                return Err(x);
            }
        },
    }
    match include_exec(s, b) {
        Ok(x) => {
            return Ok(x);
        },
        Err(x) => {
            if x.fatal {
                return Err(x);
            }
        },
    }
    match import_exec(s, b) {
        Ok(x) => {
            return Ok(x);
        },
        Err(x) => {
            if x.fatal {
                return Err(x);
            }
        },
    }
    match blockdef_exec(s, d, b, lv, lp) {
        Ok(x) => {
            return Ok(x);
        },
        Err(x) => {
            if x.fatal {
                return Err(x);
            }
        },
    }
    match macro_exec(s, d, b, lv, lp) {
        Ok(x) => {
            return Ok(x);
        },
        Err(x) => {
            if x.fatal {
                return Err(x);
            }
        },
    }
    match raw_exec(s, d, b) {
        Ok(x) => {
            return Ok(x);
        },
        Err(x) => {
            if x.fatal {
                return Err(x);
            }
        },
    }
    match jump_exec(s, b, lp, true) {
        Ok(x) => {
            return Ok(x);
        },
        Err(x) => {
            if x.fatal {
                return Err(x);
            }
        },
    }
    match jump_exec(s, b, lp, false) {
        Ok(x) => {
            return Ok(x);
        },
        Err(x) => {
            if x.fatal {
                return Err(x);
            }
        },
    }
    filterblock_exec(s, d, b, lv, lp)
}

fn call_exec(s: &Vec<char>, b: usize, lv: usize) -> (r: Result<(usize, Node), PErr>)
    requires
        b <= s.len(),
    ensures
        res_bounds(r, b as int, s.len() as int),
        sr_node(r) == call_k(s@, b as int, lv as int),
{
    let (pws, c) = ws_mark_exec(s, b);
    let r = match ws_keyword_exec(s, c, &['c', 'a', 'l', 'l']) {
        None => {
            return Err(soft(skip_ws_exec(s, c)));
        },
        Some(r) => r,
    };
    let mut pos = r;
    let mut scope: Option<String> = None;
    match ident_exec(s, r) {
        Some(e) => {
            let q = skip_ws_exec(s, e);
            if has_tag(s, q, &[':', ':']) {
                pos = skip_ws_exec(s, q + 2);
                scope = Some(sub_string(s, r, e));
            }
        },
        None => {},
    }
    let q4 = skip_ws_exec(s, pos);
    let e4 = match ident_exec(s, q4) {
        None => {
            return Err(hard(q4, Msg::Plain));
        },
        Some(e) => e,
    };
    let q5 = skip_ws_exec(s, e4);
    let (args, pos7) = match parse_arguments(s, q5, lv, true) {
        Ok((j, a)) => (a, skip_ws_exec(s, j)),
        Err(x) => {
            if x.fatal {
                return Err(x);
            }
            let v: Vec<Expr> = Vec::new();
            assert(exprs_m(v@) =~= seq![]);
            (v, q5)
        },
    };
    let (nws, end) = ws_mark_exec(s, pos7);
    Ok((end, Node::Call(Call { ws: Ws(pws, nws), scope, name: sub_string(s, q4, e4), args })))
}

fn let_exec(s: &Vec<char>, b: usize, lv: usize) -> (r: Result<(usize, Node), PErr>)
    requires
        b <= s.len(),
    ensures
        res_bounds(r, b as int, s.len() as int),
        sr_node(r) == let_k(s@, b as int, lv as int),
{
    let (pws, c) = ws_mark_exec(s, b);
    let q = skip_ws_exec(s, c);
    let kw = match keyword_exec(s, q, &['l', 'e', 't']) {
        Some(e) => Some(e),
        None => keyword_exec(s, q, &['s', 'e', 't']),
    };
    let e = match kw {
        None => {
            return Err(soft(q));
        },
        Some(e) => e,
    };
    let (e1, t) = match parse_target(s, skip_ws_exec(s, e), lv) {
        Ok(x) => x,
        Err(x) => {
            return Err(soft_to_hard(x));
        },
    };
    let q2 = skip_ws_exec(s, e1);
    let mut val: Option<Expr> = None;
    let mut pos = q2;
    if has_char(s, q2, '=') {
        match parse_expr(s, skip_ws_exec(s, q2 + 1), lv) {
            Ok((j, v)) => {
                val = Some(v);
                pos = skip_ws_exec(s, j);
            },
            Err(x) => {
                if x.fatal {
                    return Err(x);
                }
            },
        }
    }
    let (nws, end) = ws_mark_exec(s, pos);
    Ok((end, Node::Let(Let { ws: Ws(pws, nws), var: t, val })))
}

fn parse_conds(s: &Vec<char>, d: &Delimiters, k: usize, lv: usize, lp: bool, acc: Vec<Cond>) -> (r: Result<
    (usize, Vec<Cond>),
    PErr,
>)
    requires
        k <= s.len(),
        delims_ok(d@),
    ensures
        res_bounds(r, k as int, s.len() as int),
        match r {
            Ok((i, v)) => SR::Parsed(i as int, conds_m(v@)),
            Err(x) => err_sr(x),
        } == conds_p(s@, d@, k as int, lv as int, lp, conds_m(acc@)),
    decreases max_level() - lv, s.len() - k, 1int,
{
    let mut list = acc;
    let mut i = k;
    loop
        invariant
            k <= i <= s.len(),
            delims_ok(d@),
            conds_p(s@, d@, i as int, lv as int, lp, conds_m(list@)) == conds_p(
                s@,
                d@,
                k as int,
                lv as int,
                lp,
                conds_m(acc@),
            ),
        decreases s.len() - i,
    {
        match parse_cond(s, d, i, lv, lp) {
            Ok((j, c)) => {
                let ghost old = list@;
                let ghost gc = c;
                list.push(c);
                proof {
                    lemma_conds_push(old, gc);
                }
                i = j;
            },
            Err(x) => {
                if x.fatal {
                    return Err(x);
                }
                return Ok((i, list));
            },
        }
    }
}

fn if_exec(s: &Vec<char>, d: &Delimiters, b: usize, lv: usize, lp: bool) -> (r: Result<
    (usize, Node),
    PErr,
>)
    requires
        b <= s.len(),
        delims_ok(d@),
    ensures
        res_bounds(r, b as int, s.len() as int),
        sr_node(r) == if_k(s@, d@, b as int, lv as int, lp),
    decreases max_level() - lv, s.len() - b, 0int,
{
    let (pws, c) = ws_mark_exec(s, b);
    let (i, ct) = match condtest_exec(s, c, lv) {
        Ok(x) => x,
        Err(x) => {
            return Err(x);
        },
    };
    let (nws1, i2) = ws_mark_exec(s, i);
    let i3 = match block_end_exec(s, d, i2) {
        Ok(x) => x,
        Err(x) => {
            return Err(x);
        },
    };
    let (j, nodes) = match parse_nodes(s, d, i3, lv, lp) {
        Ok(x) => x,
        Err(x) => {
            return Err(soft_to_hard(x));
        },
    };
    let mut branches: Vec<Cond> = Vec::new();
    let first = Cond { ws: Ws(pws, nws1), cond: Some(ct), nodes };
    let ghost gf = first;
    branches.push(first);
    proof {
        lemma_conds_push(seq![], gf);
        assert(branches@ =~= Seq::<Cond>::empty().push(gf));
        assert(conds_m(Seq::<Cond>::empty()) =~= seq![]);
    }
    let (k, branches) = match parse_conds(s, d, j, lv, lp, branches) {
        Ok(x) => x,
        Err(x) => {
            return Err(soft_to_hard(x));
        },
    };
    match end_tag_exec(s, d, k, &['e', 'n', 'd', 'i', 'f']) {
        Ok((r, pws2)) => {
            let (nws2, end) = ws_mark_exec(s, r);
            Ok((end, Node::If(If { ws: Ws(pws2, nws2), branches })))
        },
        Err(x) => Err(x),
    }
}

fn parse_cond(s: &Vec<char>, d: &Delimiters, k: usize, lv: usize, lp: bool) -> (r: Result<
    (usize, Cond),
    PErr,
>)
    requires
        k <= s.len(),
        delims_ok(d@),
    ensures
        res_bounds(r, k as int, s.len() as int),
        sr_cond(r) == cond_p(s@, d@, k as int, lv as int, lp),
        ok_at(r, k as int),
    decreases max_level() - lv, s.len() - k, 0int,
{
    if !has_tag(s, k, d.bs.as_slice()) {
        return Err(soft(k));
    }
    let a = k + d.bs.len();
    let (pws, a2) = ws_mark_exec(s, a);
    let q = skip_ws_exec(s, a2);
    let e = match keyword_exec(s, q, &['e', 'l', 's', 'e']) {
        None => {
            if keyword_exec(s, q, &['e', 'l', 'i', 'f']).is_some() {
                return Err(hard(q, Msg::UnknownElif));
            }
            return Err(soft(q));
        },
        Some(e) => e,
    };
    let r = skip_ws_exec(s, e);
    let mut cond: Option<CondTest> = None;
    let mut pos = r;
    match condtest_exec(s, r, lv) {
        Ok((i, ct)) => {
            cond = Some(ct);
            pos = i;
        },
        Err(x) => {
            if x.fatal {
                return Err(x);
            }
        },
    }
    let (nws, pos2) = ws_mark_exec(s, pos);
    let p3 = match block_end_exec(s, d, pos2) {
        Ok(x) => x,
        Err(x) => {
            return Err(x);
        },
    };
    match parse_nodes(s, d, p3, lv, lp) {
        Ok((j, nodes)) => Ok((j, Cond { ws: Ws(pws, nws), cond, nodes })),
        Err(x) => Err(soft_to_hard(x)),
    }
}


fn loop_exec(s: &Vec<char>, d: &Delimiters, b: usize, lv: usize, lp: bool) -> (r: Result<
    (usize, Node),
    PErr,
>)
    requires
        b <= s.len(),
        delims_ok(d@),
    ensures
        res_bounds(r, b as int, s.len() as int),
        sr_node(r) == loop_k(s@, d@, b as int, lv as int, lp),
    decreases max_level() - lv, s.len() - b, 2int,
{
    let (pws1, c) = ws_mark_exec(s, b);
    let r = match ws_keyword_exec(s, c, &['f', 'o', 'r']) {
        None => {
            return Err(soft(skip_ws_exec(s, c)));
        },
        Some(r) => r,
    };
    let (e1, var) = match parse_target(s, r, lv) {
        Ok(x) => x,
        Err(x) => {
            return Err(soft_to_hard(x));
        },
    };
    let r1 = skip_ws_exec(s, e1);
    let r2 = match ws_keyword_exec(s, r1, &['i', 'n']) {
        None => {
            return Err(hard(skip_ws_exec(s, r1), Msg::Plain));
        },
        Some(r2) => r2,
    };
    let (j, iter) = match parse_expr(s, r2, lv) {
        Ok(x) => x,
        Err(x) => {
            return Err(soft_to_hard(x));
        },
    };
    let r3 = skip_ws_exec(s, j);
    let mut cond: Option<Expr> = None;
    let mut pos = r3;
    match ws_keyword_exec(s, r3, &['i', 'f']) {
        Some(q5) => match parse_expr(s, q5, lv) {
            Ok((j5, cnd)) => {
                cond = Some(cnd);
                pos = skip_ws_exec(s, j5);
            },
            Err(x) => {
                return Err(soft_to_hard(x));
            },
        },
        None => {},
    }
    loop_mid_exec(s, d, b, lv, lp, var, iter, cond, pos)
}

fn loop_mid_exec(
    s: &Vec<char>,
    d: &Delimiters,
    b: usize,
    lv: usize,
    lp: bool,
    var: Target,
    iter: Expr,
    cond: Option<Expr>,
    pos: usize,
) -> (r: Result<(usize, Node), PErr>)
    requires
        b <= pos <= s.len(),
        delims_ok(d@),
    ensures
        res_bounds(r, b as int, s.len() as int),
        sr_node(r) == loop_mid(
            s@,
            d@,
            b as int,
            lv as int,
            lp,
            target_m(var),
            expr_m(iter),
            opt_expr_m(cond),
            pos as int,
        ),
    decreases max_level() - lv, s.len() - b, 1int,
{
    let (_, pos2) = ws_mark_exec(s, pos);
    let p3 = match block_end_exec(s, d, pos2) {
        Ok(x) => x,
        Err(x) => {
            return Err(x);
        },
    };
    if !(b < p3) {
        return Err(soft(b));
    }
    match parse_nodes(s, d, p3, lv, true) {
        Ok((j6, body)) => loop_end_exec(s, d, b, lv, lp, var, iter, cond, pos, body, j6),
        Err(x) => Err(soft_to_hard(x)),
    }
}

#[verifier::rlimit(80)]
fn loop_end_exec(
    s: &Vec<char>,
    d: &Delimiters,
    b: usize,
    lv: usize,
    lp: bool,
    var: Target,
    iter: Expr,
    cond: Option<Expr>,
    pos: usize,
    body: Vec<Node>,
    j6: usize,
) -> (r: Result<(usize, Node), PErr>)
    requires
        b <= pos <= s.len(),
        b <= j6 <= s.len(),
        delims_ok(d@),
    ensures
        res_bounds(r, b as int, s.len() as int),
        sr_node(r) == loop_end(
            s@,
            d@,
            b as int,
            lv as int,
            lp,
            target_m(var),
            expr_m(iter),
            opt_expr_m(cond),
            pos as int,
            nodes_m(body@),
            j6 as int,
        ),
    decreases max_level() - lv, s.len() - b, 0int,
{
    if !has_tag(s, j6, d.bs.as_slice()) {
        return Err(hard(j6, Msg::Plain));
    }
    let a = j6 + d.bs.len();
    let (pws2, a2) = ws_mark_exec(s, a);
    if !(b < a2) {
        return Err(soft(b));
    }
    let mut nws3: Option<Whitespace> = None;
    let mut pws3: Option<Whitespace> = None;
    let mut else_nodes: Vec<Node> = Vec::new();
    let mut pos8 = a2;
    assert(nodes_m(else_nodes@) =~= seq![]);
    match else_block_exec(s, d, a2, lv, lp) {
        Ok((x, (w1, en, w3))) => {
            nws3 = w1;
            else_nodes = en;
            pws3 = w3;
            pos8 = x;
        },
        Err(x) => {
            if x.fatal {
                return Err(x);
            }
        },
    }
    let (_, pws1_end) = ws_mark_exec(s, b);
    let r10 = match ws_keyword_exec(s, pos8, &['e', 'n', 'd', 'f', 'o', 'r']) {
        None => {
            return Err(hard(skip_ws_exec(s, pos8), Msg::Plain));
        },
        Some(r10) => r10,
    };
    let (nws2, end) = ws_mark_exec(s, r10);
    let (pws1, _) = ws_mark_exec(s, b);
    let (nws1, _) = ws_mark_exec(s, pos);
    Ok(
        (
            end,
            Node::Loop(
                Box::new(
                    Loop {
                        ws1: Ws(pws1, nws1),
                        var,
                        iter,
                        cond,
                        body,
                        ws2: Ws(pws2, nws3),
                        else_nodes,
                        ws3: Ws(pws3, nws2),
                    },
                ),
            ),
        ),
    )
}

fn else_block_exec(s: &Vec<char>, d: &Delimiters, a2: usize, lv: usize, lp: bool) -> (r: Result<
    (usize, (Option<Whitespace>, Vec<Node>, Option<Whitespace>)),
    PErr,
>)
    requires
        a2 <= s.len(),
        delims_ok(d@),
    ensures
        res_bounds(r, a2 as int, s.len() as int),
        match r {
            Ok((i, (w1, v, w3))) => SR::Parsed(i as int, (w1, nodes_m(v@), w3)),
            Err(x) => err_sr(x),
        } == else_block_p(s@, d@, a2 as int, lv as int, lp),
    decreases max_level() - lv, s.len() - a2, 0int,
{
    let r6 = match ws_keyword_exec(s, a2, &['e', 'l', 's', 'e']) {
        None => {
            return Err(soft(skip_ws_exec(s, a2)));
        },
        Some(r6) => r6,
    };
    let (w1, r7) = ws_mark_exec(s, r6);
    let p8 = match block_end_exec(s, d, r7) {
        Ok(x) => x,
        Err(x) => {
            return Err(x);
        },
    };
    if !(a2 < p8) {
        return Err(soft(a2));
    }
    match parse_nodes(s, d, p8, lv, lp) {
        Ok((j8, en)) => {
            if has_tag(s, j8, d.bs.as_slice()) {
                let (w3, end) = ws_mark_exec(s, j8 + d.bs.len());
                Ok((end, (w1, en, w3)))
            } else {
                Err(hard(j8, Msg::Plain))
            }
        },
        Err(x) => Err(soft_to_hard(x)),
    }
}

fn match_exec(s: &Vec<char>, d: &Delimiters, b: usize, lv: usize, lp: bool) -> (r: Result<
    (usize, Node),
    PErr,
>)
    requires
        b <= s.len(),
        delims_ok(d@),
    ensures
        res_bounds(r, b as int, s.len() as int),
        sr_node(r) == match_k(s@, d@, b as int, lv as int, lp),
    decreases max_level() - lv, s.len() - b, 1int,
{
    let (_, c) = ws_mark_exec(s, b);
    let r = match ws_keyword_exec(s, c, &['m', 'a', 't', 'c', 'h']) {
        None => {
            return Err(soft(skip_ws_exec(s, c)));
        },
        Some(r) => r,
    };
    let (j, e) = match parse_expr(s, r, lv) {
        Ok(x) => x,
        Err(x) => {
            return Err(soft_to_hard(x));
        },
    };
    let r1 = skip_ws_exec(s, j);
    let (_, r2) = ws_mark_exec(s, r1);
    let r3 = match block_end_exec(s, d, r2) {
        Ok(x) => x,
        Err(x) => {
            return Err(x);
        },
    };
    let k0 = match skip_comments_exec(s, d, skip_ws_exec(s, r3)) {
        Ok(x) => x,
        Err(x) => {
            return Err(x);
        },
    };
    let k1 = skip_ws_exec(s, k0);
    if !(b < k1) {
        return Err(soft(b));
    }
    let (j1, w) = match parse_when(s, d, k1, lv, lp) {
        Ok(x) => x,
        Err(x) => {
            return Err(soft_to_hard(x));
        },
    };
    let mut arms: Vec<When> = Vec::new();
    let ghost gw = w;
    arms.push(w);
    proof {
        lemma_whens_push(seq![], gw);
        assert(arms@ =~= Seq::<When>::empty().push(gw));
        assert(crate::ast::whens_m(Seq::<When>::empty()) =~= seq![]);
    }
    let (k2, arms) = match parse_whens(s, d, j1, lv, lp, arms) {
        Ok(x) => x,
        Err(x) => {
            return Err(soft_to_hard(x));
        },
    };
    match_end_exec(s, d, b, lv, lp, e, r1, arms, k2)
}

fn match_end_exec(
    s: &Vec<char>,
    d: &Delimiters,
    b: usize,
    lv: usize,
    lp: bool,
    e: Expr,
    r1: usize,
    arms: Vec<When>,
    k2: usize,
) -> (r: Result<(usize, Node), PErr>)
    requires
        b <= k2 <= s.len(),
        r1 <= s.len(),
        delims_ok(d@),
    ensures
        res_bounds(r, b as int, s.len() as int),
        sr_node(r) == match_end(
            s@,
            d@,
            b as int,
            lv as int,
            lp,
            expr_m(e),
            r1 as int,
            crate::ast::whens_m(arms@),
            k2 as int,
        ),
    decreases max_level() - lv, s.len() - b, 0int,
{
    if !(b < k2) {
        return Err(soft(b));
    }
    let mut arms = arms;
    let mut pos = k2;
    match parse_else_arm(s, d, k2, lv, lp) {
        Ok((x, w2)) => {
            let ghost old = arms@;
            let ghost gw = w2;
            arms.push(w2);
            proof {
                lemma_whens_push(old, gw);
            }
            pos = x;
        },
        Err(x) => {
            if x.fatal {
                return Err(x);
            }
        },
    }
    let q = skip_ws_exec(s, pos);
    if !has_tag(s, q, d.bs.as_slice()) {
        return Err(hard(q, Msg::Plain));
    }
    let a = skip_ws_exec(s, q + d.bs.len());
    let (pws2, a2) = ws_mark_exec(s, a);
    let r9 = match ws_keyword_exec(s, a2, &['e', 'n', 'd', 'm', 'a', 't', 'c', 'h']) {
        None => {
            return Err(hard(skip_ws_exec(s, a2), Msg::Plain));
        },
        Some(r9) => r9,
    };
    let (nws2, end) = ws_mark_exec(s, r9);
    let (pws1, _) = ws_mark_exec(s, b);
    let (nws1, _) = ws_mark_exec(s, r1);
    Ok((end, Node::Match(Match { ws1: Ws(pws1, nws1), expr: e, arms, ws2: Ws(pws2, nws2) })))
}

fn parse_when(s: &Vec<char>, d: &Delimiters, k: usize, lv: usize, lp: bool) -> (r: Result<
    (usize, When),
    PErr,
>)
    requires
        k <= s.len(),
        delims_ok(d@),
    ensures
        res_bounds(r, k as int, s.len() as int),
        sr_when(r) == when_p(s@, d@, k as int, lv as int, lp),
        ok_at(r, k as int),
    decreases max_level() - lv, s.len() - k, 0int,
{
    if !has_tag(s, k, d.bs.as_slice()) {
        return Err(soft(k));
    }
    let a = k + d.bs.len();
    let (pws, a2) = ws_mark_exec(s, a);
    let r = match ws_keyword_exec(s, a2, &['w', 'h', 'e', 'n']) {
        None => {
            return Err(soft(skip_ws_exec(s, a2)));
        },
        Some(r) => r,
    };
    let (e1, t) = match parse_target(s, r, lv) {
        Ok(x) => x,
        Err(x) => {
            return Err(soft_to_hard(x));
        },
    };
    let r1 = skip_ws_exec(s, e1);
    let (nws, r2) = ws_mark_exec(s, r1);
    let r3 = match block_end_exec(s, d, r2) {
        Ok(x) => x,
        Err(x) => {
            return Err(x);
        },
    };
    match parse_nodes(s, d, r3, lv, lp) {
        Ok((j, nodes)) => Ok((j, When { ws: Ws(pws, nws), target: t, nodes })),
        Err(x) => Err(soft_to_hard(x)),
    }
}

fn parse_else_arm(s: &Vec<char>, d: &Delimiters, k: usize, lv: usize, lp: bool) -> (r: Result<
    (usize, When),
    PErr,
>)
    requires
        k <= s.len(),
        delims_ok(d@),
    ensures
        res_bounds(r, k as int, s.len() as int),
        sr_when(r) == else_arm_p(s@, d@, k as int, lv as int, lp),
    decreases max_level() - lv, s.len() - k, 0int,
{
    if !has_tag(s, k, d.bs.as_slice()) {
        return Err(soft(k));
    }
    let a = k + d.bs.len();
    let (pws, a2) = ws_mark_exec(s, a);
    let r = match ws_keyword_exec(s, a2, &['e', 'l', 's', 'e']) {
        None => {
            return Err(soft(skip_ws_exec(s, a2)));
        },
        Some(r) => r,
    };
    let (nws, r2) = ws_mark_exec(s, r);
    let r3 = match block_end_exec(s, d, r2) {
        Ok(x) => x,
        Err(x) => {
            return Err(x);
        },
    };
    match parse_nodes(s, d, r3, lv, lp) {
        Ok((j, nodes)) => Ok((j, When { ws: Ws(pws, nws), target: Target::Placeholder, nodes })),
        Err(x) => Err(soft_to_hard(x)),
    }
}

fn parse_whens(s: &Vec<char>, d: &Delimiters, k: usize, lv: usize, lp: bool, acc: Vec<When>) -> (r: Result<
    (usize, Vec<When>),
    PErr,
>)
    requires
        k <= s.len(),
        delims_ok(d@),
    ensures
        res_bounds(r, k as int, s.len() as int),
        match r {
            Ok((i, v)) => SR::Parsed(i as int, crate::ast::whens_m(v@)),
            Err(x) => err_sr(x),
        } == whens_rest(s@, d@, k as int, lv as int, lp, crate::ast::whens_m(acc@)),
    decreases max_level() - lv, s.len() - k, 1int,
{
    let mut list = acc;
    let mut i = k;
    loop
        invariant
            k <= i <= s.len(),
            delims_ok(d@),
            whens_rest(s@, d@, i as int, lv as int, lp, crate::ast::whens_m(list@)) == whens_rest(
                s@,
                d@,
                k as int,
                lv as int,
                lp,
                crate::ast::whens_m(acc@),
            ),
        decreases s.len() - i,
    {
        match parse_when(s, d, i, lv, lp) {
            Ok((j, w)) => {
                let ghost old = list@;
                let ghost gw = w;
                list.push(w);
                proof {
                    lemma_whens_push(old, gw);
                }
                i = j;
            },
            Err(x) => {
                if x.fatal {
                    return Err(x);
                }
                return Ok((i, list));
            },
        }
    }
}

fn extends_exec(s: &Vec<char>, b: usize) -> (r: Result<(usize, Node), PErr>)
    requires
        b <= s.len(),
    ensures
        res_bounds(r, b as int, s.len() as int),
        sr_node(r) == extends_k(s@, b as int),
{
    let (pws, c) = ws_mark_exec(s, b);
    let r = match ws_keyword_exec(s, c, &['e', 'x', 't', 'e', 'n', 'd', 's']) {
        None => {
            return Err(soft(skip_ws_exec(s, c)));
        },
        Some(r) => r,
    };
    match str_lit_exec(s, r) {
        Err(x) => Err(hard(x, Msg::Plain)),
        Ok(e) => {
            let r1 = skip_ws_exec(s, e + 1);
            let (nws, end) = ws_mark_exec(s, r1);
            if pws.is_some() || nws.is_some() {
                Err(hard(b, Msg::ExtendsWs))
            } else {
                Ok((end, Node::Extends(Extends { path: sub_string(s, r + 1, e) })))
            }
        },
    }
}

fn include_exec(s: &Vec<char>, b: usize) -> (r: Result<(usize, Node), PErr>)
    requires
        b <= s.len(),
    ensures
        res_bounds(r, b as int, s.len() as int),
        sr_node(r) == include_k(s@, b as int),
{
    let (pws, c) = ws_mark_exec(s, b);
    let r = match ws_keyword_exec(s, c, &['i', 'n', 'c', 'l', 'u', 'd', 'e']) {
        None => {
            return Err(soft(skip_ws_exec(s, c)));
        },
        Some(r) => r,
    };
    match str_lit_exec(s, r) {
        Err(x) => Err(hard(x, Msg::Plain)),
        Ok(e) => {
            let r1 = skip_ws_exec(s, e + 1);
            let (nws, end) = ws_mark_exec(s, r1);
            Ok((end, Node::Include(Include { ws: Ws(pws, nws), path: sub_string(s, r + 1, e) })))
        },
    }
}

fn import_exec(s: &Vec<char>, b: usize) -> (r: Result<(usize, Node), PErr>)
    requires
        b <= s.len(),
    ensures
        res_bounds(r, b as int, s.len() as int),
        sr_node(r) == import_k(s@, b as int),
{
    let (pws, c) = ws_mark_exec(s, b);
    let r = match ws_keyword_exec(s, c, &['i', 'm', 'p', 'o', 'r', 't']) {
        None => {
            return Err(soft(skip_ws_exec(s, c)));
        },
        Some(r) => r,
    };
    let e = match str_lit_exec(s, r) {
        Err(x) => {
            return Err(hard(x, Msg::Plain));
        },
        Ok(e) => e,
    };
    let r1 = skip_ws_exec(s, e + 1);
    let r2 = match ws_keyword_exec(s, r1, &['a', 's']) {
        None => {
            return Err(hard(skip_ws_exec(s, r1), Msg::Plain));
        },
        Some(r2) => r2,
    };
    let e3 = match ident_exec(s, r2) {
        None => {
            return Err(hard(r2, Msg::Plain));
        },
        Some(e3) => e3,
    };
    let r3 = skip_ws_exec(s, e3);
    let (nws, end) = ws_mark_exec(s, r3);
    Ok(
        (
            end,
            Node::Import(
                Import {
                    ws: Ws(pws, nws),
                    path: sub_string(s, r + 1, e),
                    scope: sub_string(s, r2, e3),
                },
            ),
        ),
    )
}

fn blockdef_exec(s: &Vec<char>, d: &Delimiters, b: usize, lv: usize, lp: bool) -> (r: Result<
    (usize, Node),
    PErr,
>)
    requires
        b <= s.len(),
        delims_ok(d@),
    ensures
        res_bounds(r, b as int, s.len() as int),
        sr_node(r) == blockdef_k(s@, d@, b as int, lv as int, lp),
    decreases max_level() - lv, s.len() - b, 0int,
{
    let (pws1, c) = ws_mark_exec(s, b);
    let r = match ws_keyword_exec(s, c, &['b', 'l', 'o', 'c', 'k']) {
        None => {
            return Err(soft(skip_ws_exec(s, c)));
        },
        Some(r) => r,
    };
    let e1 = match ident_exec(s, r) {
        None => {
            return Err(hard(r, Msg::Plain));
        },
        Some(e1) => e1,
    };
    let r1 = skip_ws_exec(s, e1);
    let (nws1, r2) = ws_mark_exec(s, r1);
    let r3 = match block_end_exec(s, d, r2) {
        Ok(x) => x,
        Err(x) => {
            return Err(x);
        },
    };
    let (j, nodes) = match parse_nodes(s, d, r3, lv, lp) {
        Ok(x) => x,
        Err(x) => {
            return Err(soft_to_hard(x));
        },
    };
    let (before, pws2) = match end_tag_exec(s, d, j, &['e', 'n', 'd', 'b', 'l', 'o', 'c', 'k']) {
        Ok(x) => x,
        Err(x) => {
            return Err(x);
        },
    };
    let pos = match end_name_exec(s, before, EndKind::Block, r, e1) {
        Ok(x) => x,
        Err(x) => {
            return Err(x);
        },
    };
    let (nws2, end) = ws_mark_exec(s, pos);
    Ok(
        (
            end,
            Node::BlockDef(
                BlockDef {
                    ws1: Ws(pws1, nws1),
                    name: sub_string(s, r, e1),
                    nodes,
                    ws2: Ws(pws2, nws2),
                },
            ),
        ),
    )
}

#[verifier::rlimit(100)]
#[verifier::spinoff_prover]
fn macro_exec(s: &Vec<char>, d: &Delimiters, b: usize, lv: usize, lp: bool) -> (r: Result<
    (usize, Node),
    PErr,
>)
    requires
        b <= s.len(),
        delims_ok(d@),
    ensures
        res_bounds(r, b as int, s.len() as int),
        sr_node(r) == macro_k(s@, d@, b as int, lv as int, lp),
    decreases max_level() - lv, s.len() - b, 0int,
{
    let (pws1, c) = ws_mark_exec(s, b);
    let r = match ws_keyword_exec(s, c, &['m', 'a', 'c', 'r', 'o']) {
        None => {
            return Err(soft(skip_ws_exec(s, c)));
        },
        Some(r) => r,
    };
    let e1 = match ident_exec(s, r) {
        None => {
            return Err(hard(r, Msg::Plain));
        },
        Some(e1) => e1,
    };
    let r1 = skip_ws_exec(s, e1);
    let (params, pos) = match params_exec(s, r1) {
        Some((j, ps)) => (ps, skip_ws_exec(s, j)),
        None => {
            let v: Vec<String> = Vec::new();
            assert(strs_m(v@) =~= seq![]);
            (v, r1)
        },
    };
    let (nws1, pos2) = ws_mark_exec(s, pos);
    let r3 = match block_end_exec(s, d, pos2) {
        Ok(x) => x,
        Err(x) => {
            return Err(x);
        },
    };
    let (j, nodes) = match parse_nodes(s, d, r3, lv, lp) {
        Ok(x) => x,
        Err(x) => {
            return Err(soft_to_hard(x));
        },
    };
    let (before, pws2) = match end_tag_exec(s, d, j, &['e', 'n', 'd', 'm', 'a', 'c', 'r', 'o']) {
        Ok(x) => x,
        Err(x) => {
            return Err(x);
        },
    };
    let pos3 = match end_name_exec(s, before, EndKind::Macro, r, e1) {
        Ok(x) => x,
        Err(x) => {
            return Err(x);
        },
    };
    let (nws2, end) = ws_mark_exec(s, pos3);
    let ghost nm = s@.subrange(r as int, e1 as int);
    let is_super = e1 - r == 5 && has_tag(s, r, &['s', 'u', 'p', 'e', 'r']);
    assert(nm == seq!['s', 'u', 'p', 'e', 'r'] ==> nm.len() == 5);
    if is_super {
        return Err(hard(end, Msg::Plain));
    }
    Ok(
        (
            end,
            Node::Macro(
                Macro {
                    ws1: Ws(pws1, nws1),
                    name: sub_string(s, r, e1),
                    args: params,
                    nodes,
                    ws2: Ws(pws2, nws2),
                },
            ),
        ),
    )
}

fn raw_exec(s: &Vec<char>, d: &Delimiters, b: usize) -> (r: Result<(usize, Node), PErr>)
    requires
        b <= s.len(),
        delims_ok(d@),
    ensures
        res_bounds(r, b as int, s.len() as int),
        sr_node(r) == raw_k(s@, d@, b as int),
{
    let (pws1, c0) = ws_mark_exec(s, b);
    let r = match ws_keyword_exec(s, c0, &['r', 'a', 'w']) {
        None => {
            return Err(soft(skip_ws_exec(s, c0)));
        },
        Some(r) => r,
    };
    let (nws1, r2) = ws_mark_exec(s, r);
    let c = match block_end_exec(s, d, r2) {
        Ok(x) => x,
        Err(x) => {
            return Err(x);
        },
    };
    match find_endraw_exec(s, d, c) {
        None => Err(hard(s.len(), Msg::Plain)),
        Some((k, j, ws2)) => Ok(
            (j, Node::Raw(Raw { ws1: Ws(pws1, nws1), lit: split_lit(s, c, k), ws2 })),
        ),
    }
}

fn jump_exec(s: &Vec<char>, b: usize, lp: bool, brk: bool) -> (r: Result<(usize, Node), PErr>)
    requires
        b <= s.len(),
    ensures
        res_bounds(r, b as int, s.len() as int),
        sr_node(r) == jump_k(s@, b as int, lp, brk),
{
    let (pws, c) = ws_mark_exec(s, b);
    let found = if brk {
        ws_keyword_exec(s, c, &['b', 'r', 'e', 'a', 'k'])
    } else {
        ws_keyword_exec(s, c, &['c', 'o', 'n', 't', 'i', 'n', 'u', 'e'])
    };
    let r = match found {
        None => {
            return Err(soft(skip_ws_exec(s, c)));
        },
        Some(r) => r,
    };
    if !lp {
        return Err(hard(b, Msg::Plain));
    }
    let (nws, end) = ws_mark_exec(s, r);
    if brk {
        Ok((end, Node::Break(Ws(pws, nws))))
    } else {
        Ok((end, Node::Continue(Ws(pws, nws))))
    }
}

fn filterblock_exec(s: &Vec<char>, d: &Delimiters, b: usize, lv: usize, lp: bool) -> (r: Result<
    (usize, Node),
    PErr,
>)
    requires
        b <= s.len(),
        delims_ok(d@),
    ensures
        res_bounds(r, b as int, s.len() as int),
        sr_node(r) == filterblock_k(s@, d@, b as int, lv as int, lp),
    decreases max_level() - lv, s.len() - b, 0int,
{
    let (pws1, c) = ws_mark_exec(s, b);
    let r = match ws_keyword_exec(s, c, &['f', 'i', 'l', 't', 'e', 'r']) {
        None => {
            return Err(soft(skip_ws_exec(s, c)));
        },
        Some(r) => r,
    };
    let e1 = match ident_exec(s, r) {
        None => {
            return Err(hard(r, Msg::Plain));
        },
        Some(e1) => e1,
    };
    let r1 = skip_ws_exec(s, e1);
    let (args, pos) = match parse_arguments(s, r1, lv, false) {
        Ok((j, a)) => (a, j),
        Err(x) => {
            if x.fatal {
                return Err(x);
            }
            let v: Vec<Expr> = Vec::new();
            assert(exprs_m(v@) =~= seq![]);
            (v, r1)
        },
    };
    let f0 = Filter { name: sub_string(s, r, e1), arguments: args };
    let (pos2, filters) = match fb_filters_exec(s, pos, lv, f0) {
        Ok(x) => x,
        Err(x) => {
            return Err(soft_to_hard(x));
        },
    };
    let pos3 = skip_ws_exec(s, pos2);
    let (nws1, pos4) = ws_mark_exec(s, pos3);
    let r5 = match block_end_exec(s, d, pos4) {
        Ok(x) => x,
        Err(x) => {
            return Err(x);
        },
    };
    let (j, nodes) = match parse_nodes(s, d, r5, lv, lp) {
        Ok(x) => x,
        Err(x) => {
            return Err(soft_to_hard(x));
        },
    };
    let (r9, pws2) = match end_tag_exec(s, d, j, &['e', 'n', 'd', 'f', 'i', 'l', 't', 'e', 'r']) {
        Ok(x) => x,
        Err(x) => {
            return Err(x);
        },
    };
    let (nws2, end) = ws_mark_exec(s, r9);
    Ok(
        (
            end,
            Node::FilterBlock(
                FilterBlock { ws1: Ws(pws1, nws1), filters, nodes, ws2: Ws(pws2, nws2) },
            ),
        ),
    )
}

} // verus!
