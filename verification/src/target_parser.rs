//! The grammar of binding patterns (`let` targets, loop variables, `when`
//! arms): literals, names, tuples, tuple and named structs, paths, and
//! `or`-chains.

use vstd::prelude::*;
use crate::ast::{
    Target, TargetM, lemma_named_targets_len, lemma_named_targets_push, lemma_targets_len,
    lemma_targets_push, named_targets_m, strs_m, target_m, targets_m,
};
use crate::lex::{
    Msg, PErr, Poi, SR, char_at, char_lit, char_lit_exec, err_sr, hard, has_char, has_tag, ident,
    ident_exec, keyword, keyword_exec, lemma_ident, lemma_skip_ws, num_lit, num_lit_exec, poi,
    poi_exec, res_bounds, skip_ws, skip_ws_exec, soft, str_lit, str_lit_exec, sub_string,
};
use crate::expr_parser::{max_level, not_parsed};

verus! {

pub open spec fn sr_target(r: Result<(usize, Target), PErr>) -> SR<TargetM> {
    match r {
        Ok((i, t)) => SR::Parsed(i as int, target_m(t)),
        Err(x) => err_sr(x),
    }
}

pub open spec fn sr_targets(r: Result<(usize, Vec<Target>), PErr>) -> SR<Seq<TargetM>> {
    match r {
        Ok((i, v)) => SR::Parsed(i as int, targets_m(v@)),
        Err(x) => err_sr(x),
    }
}

pub open spec fn sr_named(r: Result<(usize, (String, Target)), PErr>) -> SR<(Seq<char>, TargetM)> {
    match r {
        Ok((i, (n, t))) => SR::Parsed(i as int, (n@, target_m(t))),
        Err(x) => err_sr(x),
    }
}

pub open spec fn sr_named_list(r: Result<(usize, Vec<(String, Target)>), PErr>) -> SR<
    Seq<(Seq<char>, TargetM)>,
> {
    match r {
        Ok((i, v)) => SR::Parsed(i as int, named_targets_m(v@)),
        Err(x) => err_sr(x),
    }
}

/// Names that cannot be bound in a template.
pub open spec fn is_reserved(n: Seq<char>) -> bool {
    n == seq!['s', 'e', 'l', 'f'] || n == seq!['w', 'r', 'i', 't', 'e', 'r']
}

/// The identifier `p..e` as a binding name; the reserved names fail fatally.
pub open spec fn verify_name(s: Seq<char>, p: int, e: int) -> SR<TargetM> {
    if is_reserved(s.subrange(p, e)) {
        SR::Fail(p, Msg::CannotUseName(p as usize, e as usize))
    } else {
        SR::Parsed(e, TargetM::Name(s.subrange(p, e)))
    }
}

/// The closing delimiter `close` of a list ending at `k`, after an optional
/// trailing comma; the position after it and its trailing whitespace.
pub open spec fn close_list(s: Seq<char>, k: int, close: char) -> Option<int> {
    let q4 = skip_ws(s, k);
    let k2 = if char_at(s, q4, ',') {
        skip_ws(s, q4 + 1)
    } else {
        k
    };
    if char_at(s, skip_ws(s, k2), close) {
        Some(skip_ws(s, skip_ws(s, k2) + 1))
    } else {
        None
    }
}

/// Where `close_list` fails.
pub open spec fn close_list_err(s: Seq<char>, k: int) -> int {
    let q4 = skip_ws(s, k);
    let k2 = if char_at(s, q4, ',') {
        skip_ws(s, q4 + 1)
    } else {
        k
    };
    skip_ws(s, k2)
}

/// Targets separated by `or`; a single target stands alone, several form an
/// `OrChain`.  Each alternative counts as one nesting level.
pub open spec fn target_p(s: Seq<char>, p: int, lv: int) -> SR<TargetM>
    decreases max_level() - lv, s.len() - p, 3int,
{
    match one_p(s, p, lv) {
        SR::Parsed(i, t) => if p <= i <= s.len() {
            match or_rest(s, i, lv, seq![t]) {
                SR::Parsed(j, ts) => SR::Parsed(
                    j,
                    if ts.len() == 1 {
                        ts[0]
                    } else {
                        TargetM::OrChain(ts)
                    },
                ),
                other => not_parsed(other),
            }
        } else {
            SR::Backtrack(p)
        },
        other => other,
    }
}

pub open spec fn one_p(s: Seq<char>, p: int, lv: int) -> SR<TargetM>
    decreases max_level() - lv, s.len() - p, 2int,
{
    if lv >= max_level() {
        SR::Fail(p, Msg::Plain)
    } else {
        one_inner_p(s, p, lv + 1)
    }
}

pub open spec fn or_rest(s: Seq<char>, i: int, lv: int, acc: Seq<TargetM>) -> SR<Seq<TargetM>>
    decreases max_level() - lv, s.len() - i, 0int,
{
    let q = skip_ws(s, i);
    let q2 = skip_ws(s, q + 2);
    if !(0 <= i <= s.len()) || !(char_at(s, q, 'o') && char_at(s, q + 1, 'r')) {
        SR::Parsed(i, acc)
    } else {
        proof {
            lemma_skip_ws(s, i);
            lemma_skip_ws(s, q + 2);
        }
        match one_p(s, q2, lv) {
            SR::Parsed(j, t) => if q2 <= j <= s.len() {
                or_rest(s, j, lv, acc.push(t))
            } else {
                SR::Parsed(i, acc)
            },
            SR::Backtrack(_) => SR::Parsed(i, acc),
            SR::Fail(x, m) => SR::Fail(x, m),
        }
    }
}

/// One target: a literal, a parenthesised target or tuple, a path (possibly
/// a tuple or named struct pattern), or a plain name.
pub open spec fn one_inner_p(s: Seq<char>, p: int, lv: int) -> SR<TargetM>
    decreases max_level() - lv, s.len() - p, 1int,
{
    if !(0 <= p <= s.len()) {
        SR::Backtrack(p)
    } else {
        match str_lit(s, p) {
            Some(e) => SR::Parsed(e + 1, TargetM::StrLit(s.subrange(p + 1, e))),
            None => match char_lit(s, p) {
                SR::Parsed(i, e) => SR::Parsed(i, TargetM::CharLit(s.subrange(p + 1, e))),
                SR::Fail(x, m) => SR::Fail(x, m),
                SR::Backtrack(_) => match num_lit(s, p) {
                    Some(e) => SR::Parsed(e, TargetM::NumLit(s.subrange(p, e))),
                    None => match keyword(s, p, seq!['f', 'a', 'l', 's', 'e']) {
                        Some(e) => SR::Parsed(e, TargetM::BoolLit(s.subrange(p, e))),
                        None => match keyword(s, p, seq!['t', 'r', 'u', 'e']) {
                            Some(e) => SR::Parsed(e, TargetM::BoolLit(s.subrange(p, e))),
                            None => if char_at(s, skip_ws(s, p), '(') {
                                paren_target_p(s, p, lv)
                            } else {
                                match poi(s, p) {
                                    Some((i, Poi::Path(v))) => path_target_p(s, p, lv, v, i),
                                    _ => match ident(s, p) {
                                        None => SR::Backtrack(p),
                                        Some(e) => verify_name(s, p, e),
                                    },
                                }
                            },
                        },
                    },
                },
            },
        }
    }
}

/// `()`, `(target)` or a tuple `(a, b, ...)`.
pub open spec fn paren_target_p(s: Seq<char>, p: int, lv: int) -> SR<TargetM>
    decreases max_level() - lv, s.len() - p, 0int,
{
    let q = skip_ws(s, p);
    let i = skip_ws(s, q + 1);
    if !(0 <= p <= s.len()) || !char_at(s, q, '(') {
        SR::Backtrack(q)
    } else if char_at(s, i, ')') {
        SR::Parsed(skip_ws(s, i + 1), TargetM::Tuple(seq![], seq![]))
    } else {
        proof {
            lemma_skip_ws(s, p);
            lemma_skip_ws(s, q + 1);
        }
        match target_p(s, i, lv) {
            SR::Parsed(i1, first) => if i <= i1 <= s.len() {
                let q3 = skip_ws(s, i1);
                if char_at(s, q3, ')') {
                    SR::Parsed(skip_ws(s, q3 + 1), first)
                } else {
                    match tuple_tail(s, i1, lv, seq![first]) {
                        SR::Parsed(k, ts) => match close_list(s, k, ')') {
                            Some(e) => SR::Parsed(e, TargetM::Tuple(seq![], ts)),
                            None => SR::Fail(close_list_err(s, k), Msg::Plain),
                        },
                        other => not_parsed(other),
                    }
                }
            } else {
                SR::Backtrack(p)
            },
            other => other,
        }
    }
}

/// `, target` pairs after a first target.
pub open spec fn tuple_tail(s: Seq<char>, k: int, lv: int, acc: Seq<TargetM>) -> SR<Seq<TargetM>>
    decreases max_level() - lv, s.len() - k, 0int,
{
    let q = skip_ws(s, k);
    let q2 = skip_ws(s, q + 1);
    if !(0 <= k <= s.len()) || !char_at(s, q, ',') {
        SR::Parsed(k, acc)
    } else {
        proof {
            lemma_skip_ws(s, k);
            lemma_skip_ws(s, q + 1);
        }
        match target_p(s, q2, lv) {
            SR::Parsed(j, t) => if q2 <= j <= s.len() {
                tuple_tail(s, j, lv, acc.push(t))
            } else {
                SR::Parsed(k, acc)
            },
            SR::Backtrack(_) => SR::Parsed(k, acc),
            SR::Fail(x, m) => SR::Fail(x, m),
        }
    }
}

/// After a path ending at `i`: an optional `with`, then `( ... )` for a
/// tuple struct, `{ ... }` for a named struct, or else the bare path.
pub open spec fn path_target_p(s: Seq<char>, p: int, lv: int, path: Seq<Seq<char>>, i: int) -> SR<TargetM>
    decreases max_level() - lv, s.len() - p, 0int,
{
    let q = skip_ws(s, i);
    let i2 = match keyword(s, q, seq!['w', 'i', 't', 'h']) {
        Some(e) => skip_ws(s, e),
        None => i,
    };
    let q2 = skip_ws(s, i2);
    let i3 = skip_ws(s, q2 + 1);
    if !(0 <= p < i <= s.len()) {
        SR::Backtrack(p)
    } else if char_at(s, q2, '(') {
        proof {
            lemma_skip_ws(s, i);
            if keyword(s, q, seq!['w', 'i', 't', 'h']) is Some {
                lemma_ident(s, q);
                lemma_skip_ws(s, keyword(s, q, seq!['w', 'i', 't', 'h'])->0);
            }
            lemma_skip_ws(s, i2);
            lemma_skip_ws(s, q2 + 1);
        }
        if char_at(s, i3, ')') {
            SR::Parsed(i3 + 1, TargetM::Tuple(path, seq![]))
        } else {
            match target_p(s, i3, lv) {
                SR::Parsed(j, t) => if i3 <= j <= s.len() {
                    match tuple_tail(s, j, lv, seq![t]) {
                        SR::Parsed(k, ts) => match close_list(s, k, ')') {
                            Some(e) => SR::Parsed(e, TargetM::Tuple(path, ts)),
                            None => SR::Fail(close_list_err(s, k), Msg::Plain),
                        },
                        other => not_parsed(other),
                    }
                } else {
                    SR::Backtrack(p)
                },
                SR::Backtrack(x) => SR::Fail(x, Msg::Plain),
                SR::Fail(x, m) => SR::Fail(x, m),
            }
        }
    } else if char_at(s, q2, '{') {
        proof {
            lemma_skip_ws(s, i);
            if keyword(s, q, seq!['w', 'i', 't', 'h']) is Some {
                lemma_ident(s, q);
                lemma_skip_ws(s, keyword(s, q, seq!['w', 'i', 't', 'h'])->0);
            }
            lemma_skip_ws(s, i2);
            lemma_skip_ws(s, q2 + 1);
        }
        if char_at(s, i3, '}') {
            SR::Parsed(i3 + 1, TargetM::Struct(path, seq![]))
        } else {
            match named_p(s, i3, lv) {
                SR::Parsed(j, nt) => if i3 <= j <= s.len() {
                    match named_tail(s, j, lv, seq![nt]) {
                        SR::Parsed(k, ts) => match close_list(s, k, '}') {
                            Some(e) => SR::Parsed(e, TargetM::Struct(path, ts)),
                            None => SR::Fail(close_list_err(s, k), Msg::Plain),
                        },
                        other => not_parsed(other),
                    }
                } else {
                    SR::Backtrack(p)
                },
                SR::Backtrack(x) => SR::Fail(x, Msg::Plain),
                SR::Fail(x, m) => SR::Fail(x, m),
            }
        }
    } else {
        SR::Parsed(i, TargetM::Path(path))
    }
}

/// `field` or `field: target` in a named struct pattern.
pub open spec fn named_p(s: Seq<char>, p: int, lv: int) -> SR<(Seq<char>, TargetM)>
    decreases max_level() - lv, s.len() - p, 0int,
{
    match ident(s, p) {
        None => SR::Backtrack(p),
        Some(e) => {
            let name = s.subrange(p, e);
            let q = skip_ws(s, e);
            let r = if 0 <= p <= s.len() && char_at(s, q, ':') {
                proof {
                    lemma_ident(s, p);
                    lemma_skip_ws(s, e);
                    lemma_skip_ws(s, q + 1);
                }
                target_p(s, skip_ws(s, q + 1), lv)
            } else {
                SR::Backtrack(q)
            };
            match r {
                SR::Parsed(j, t) => SR::Parsed(j, (name, t)),
                SR::Fail(x, m) => SR::Fail(x, m),
                SR::Backtrack(_) => match verify_name(s, p, e) {
                    SR::Parsed(k, t) => SR::Parsed(k, (name, t)),
                    other => not_parsed(other),
                },
            }
        },
    }
}

pub open spec fn named_tail(s: Seq<char>, k: int, lv: int, acc: Seq<(Seq<char>, TargetM)>) -> SR<
    Seq<(Seq<char>, TargetM)>,
>
    decreases max_level() - lv, s.len() - k, 0int,
{
    let q = skip_ws(s, k);
    let q2 = skip_ws(s, q + 1);
    if !(0 <= k <= s.len()) || !char_at(s, q, ',') {
        SR::Parsed(k, acc)
    } else {
        proof {
            lemma_skip_ws(s, k);
            lemma_skip_ws(s, q + 1);
        }
        match named_p(s, q2, lv) {
            SR::Parsed(j, t) => if q2 <= j <= s.len() {
                named_tail(s, j, lv, acc.push(t))
            } else {
                SR::Parsed(k, acc)
            },
            SR::Backtrack(_) => SR::Parsed(k, acc),
            SR::Fail(x, m) => SR::Fail(x, m),
        }
    }
}


// ---------------------------------------------------------------------------
// The executable parser.
// ---------------------------------------------------------------------------

fn name_target(s: &Vec<char>, p: usize, e: usize) -> (r: Result<(usize, Target), PErr>)
    requires
        p < e <= s.len(),
    ensures
        res_bounds(r, p as int, s.len() as int),
        sr_target(r) == verify_name(s@, p as int, e as int),
        r matches Ok((j, _)) ==> j == e,
{
    let ghost n = s@.subrange(p as int, e as int);
    let is_self = e - p == 4 && has_tag(s, p, &['s', 'e', 'l', 'f']);
    let is_writer = e - p == 6 && has_tag(s, p, &['w', 'r', 'i', 't', 'e', 'r']);
    assert(n == seq!['s', 'e', 'l', 'f'] ==> n.len() == 4);
    assert(n == seq!['w', 'r', 'i', 't', 'e', 'r'] ==> n.len() == 6);
    if is_self || is_writer {
        Err(hard(p, Msg::CannotUseName(p, e)))
    } else {
        Ok((e, Target::Name(sub_string(s, p, e))))
    }
}

fn close_list_exec(s: &Vec<char>, k: usize, close: char) -> (r: Result<usize, usize>)
    requires
        k <= s.len(),
    ensures
        r matches Ok(e) ==> close_list(s@, k as int, close) == Some(e as int) && k < e <= s.len(),
        r matches Err(x) ==> close_list(s@, k as int, close) is None && x == close_list_err(
            s@,
            k as int,
        ) && x <= s.len(),
{
    let q4 = skip_ws_exec(s, k);
    let k2 = if has_char(s, q4, ',') {
        skip_ws_exec(s, q4 + 1)
    } else {
        k
    };
    let q5 = skip_ws_exec(s, k2);
    if has_char(s, q5, close) {
        Ok(skip_ws_exec(s, q5 + 1))
    } else {
        Err(q5)
    }
}

pub fn parse_target(s: &Vec<char>, p: usize, lv: usize) -> (r: Result<(usize, Target), PErr>)
    requires
        p <= s.len(),
    ensures
        res_bounds(r, p as int, s.len() as int),
        sr_target(r) == target_p(s@, p as int, lv as int),
    decreases max_level() - lv, s.len() - p, 3int,
{
    let (i0, t0) = match parse_one(s, p, lv) {
        Ok(x) => x,
        Err(e) => {
            return Err(e);
        },
    };
    let mut list: Vec<Target> = Vec::new();
    list.push(t0);
    proof {
        lemma_targets_push(seq![], t0);
        assert(list@ =~= Seq::<Target>::empty().push(t0));
        assert(targets_m(Seq::<Target>::empty()) =~= seq![]);
        assert(targets_m(list@) =~= seq![target_m(t0)]);
    }
    let mut i = i0;
    loop
        invariant
            p <= i0 <= i <= s.len(),
            list@.len() >= 1,
            or_rest(s@, i as int, lv as int, targets_m(list@)) == or_rest(
                s@,
                i0 as int,
                lv as int,
                seq![target_m(t0)],
            ),
            target_p(s@, p as int, lv as int) == match or_rest(
                s@,
                i0 as int,
                lv as int,
                seq![target_m(t0)],
            ) {
                SR::Parsed(j, ts) => SR::Parsed(
                    j,
                    if ts.len() == 1 {
                        ts[0]
                    } else {
                        TargetM::OrChain(ts)
                    },
                ),
                other => not_parsed(other),
            },
        ensures
            p <= i <= s.len(),
            list@.len() >= 1,
            or_rest(s@, i0 as int, lv as int, seq![target_m(t0)]) == SR::Parsed(
                i as int,
                targets_m(list@),
            ),
            target_p(s@, p as int, lv as int) == match or_rest(
                s@,
                i0 as int,
                lv as int,
                seq![target_m(t0)],
            ) {
                SR::Parsed(j, ts) => SR::Parsed(
                    j,
                    if ts.len() == 1 {
                        ts[0]
                    } else {
                        TargetM::OrChain(ts)
                    },
                ),
                other => not_parsed(other),
            },
        decreases s.len() - i,
    {
        let q = skip_ws_exec(s, i);
        if !(has_char(s, q, 'o') && has_char(s, q + 1, 'r')) {
            break;
        }
        let q2 = skip_ws_exec(s, q + 2);
        match parse_one(s, q2, lv) {
            Ok((j, t)) => {
                let ghost old_list = list@;
                list.push(t);
                proof {
                    lemma_targets_push(old_list, t);
                }
                i = j;
            },
            Err(x) => {
                if x.fatal {
                    return Err(x);
                }
                break;
            },
        }
    }
    proof {
        lemma_targets_len(list@);
    }
    if list.len() == 1 {
        let ghost l = list@;
        let t = list.pop().unwrap();
        proof {
            assert(l.drop_last() =~= Seq::<Target>::empty());
            assert(targets_m(Seq::<Target>::empty()) =~= seq![]);
            assert(targets_m(l) == targets_m(l.drop_last()).push(target_m(l.last())));
        }
        Ok((i, t))
    } else {
        Ok((i, Target::OrChain(list)))
    }
}

fn parse_one(s: &Vec<char>, p: usize, lv: usize) -> (r: Result<(usize, Target), PErr>)
    requires
        p <= s.len(),
    ensures
        res_bounds(r, p as int, s.len() as int),
        sr_target(r) == one_p(s@, p as int, lv as int),
    decreases max_level() - lv, s.len() - p, 2int,
{
    if lv >= 128 {
        return Err(hard(p, Msg::Plain));
    }
    parse_one_inner(s, p, lv + 1)
}

fn parse_one_inner(s: &Vec<char>, p: usize, lv: usize) -> (r: Result<(usize, Target), PErr>)
    requires
        p <= s.len(),
    ensures
        res_bounds(r, p as int, s.len() as int),
        sr_target(r) == one_inner_p(s@, p as int, lv as int),
    decreases max_level() - lv, s.len() - p, 1int,
{
    match str_lit_exec(s, p) {
        Ok(e) => {
            return Ok((e + 1, Target::StrLit(sub_string(s, p + 1, e))));
        },
        Err(_) => {},
    }
    match char_lit_exec(s, p) {
        Ok((i, e)) => {
            return Ok((i, Target::CharLit(sub_string(s, p + 1, e))));
        },
        Err(x) => {
            if x.fatal {
                return Err(x);
            }
        },
    }
    match num_lit_exec(s, p) {
        Some(e) => {
            return Ok((e, Target::NumLit(sub_string(s, p, e))));
        },
        None => {},
    }
    match keyword_exec(s, p, &['f', 'a', 'l', 's', 'e']) {
        Some(e) => {
            return Ok((e, Target::BoolLit(sub_string(s, p, e))));
        },
        None => {},
    }
    match keyword_exec(s, p, &['t', 'r', 'u', 'e']) {
        Some(e) => {
            return Ok((e, Target::BoolLit(sub_string(s, p, e))));
        },
        None => {},
    }
    let q = skip_ws_exec(s, p);
    if has_char(s, q, '(') {
        return parse_paren_target(s, p, lv);
    }
    match poi_exec(s, p) {
        Some((i, is_path, v)) => {
            if is_path {
                return parse_path_target(s, p, lv, v, i);
            }
        },
        None => {},
    }
    match ident_exec(s, p) {
        None => Err(soft(p)),
        Some(e) => name_target(s, p, e),
    }
}

fn parse_paren_target(s: &Vec<char>, p: usize, lv: usize) -> (r: Result<(usize, Target), PErr>)
    requires
        p <= s.len(),
    ensures
        res_bounds(r, p as int, s.len() as int),
        sr_target(r) == paren_target_p(s@, p as int, lv as int),
    decreases max_level() - lv, s.len() - p, 0int,
{
    let q = skip_ws_exec(s, p);
    if !has_char(s, q, '(') {
        return Err(soft(q));
    }
    let i = skip_ws_exec(s, q + 1);
    if has_char(s, i, ')') {
        let a: Vec<String> = Vec::new();
        let b: Vec<Target> = Vec::new();
        assert(strs_m(a@) =~= seq![]);
        assert(targets_m(b@) =~= seq![]);
        return Ok((skip_ws_exec(s, i + 1), Target::Tuple(a, b)));
    }
    let (i1, first) = match parse_target(s, i, lv) {
        Ok(x) => x,
        Err(x) => {
            return Err(x);
        },
    };
    let q3 = skip_ws_exec(s, i1);
    if has_char(s, q3, ')') {
        return Ok((skip_ws_exec(s, q3 + 1), first));
    }
    let mut v: Vec<Target> = Vec::new();
    v.push(first);
    proof {
        lemma_targets_push(seq![], first);
        assert(v@ =~= Seq::<Target>::empty().push(first));
        assert(targets_m(Seq::<Target>::empty()) =~= seq![]);
        assert(targets_m(v@) =~= seq![target_m(first)]);
    }
    match parse_tuple_tail(s, i1, lv, v) {
        Ok((k, ts)) => match close_list_exec(s, k, ')') {
            Ok(e) => {
                let a: Vec<String> = Vec::new();
                assert(strs_m(a@) =~= seq![]);
                Ok((e, Target::Tuple(a, ts)))
            },
            Err(x) => Err(hard(x, Msg::Plain)),
        },
        Err(x) => Err(x),
    }
}

fn parse_tuple_tail(s: &Vec<char>, k: usize, lv: usize, acc: Vec<Target>) -> (r: Result<
    (usize, Vec<Target>),
    PErr,
>)
    requires
        k <= s.len(),
    ensures
        res_bounds(r, k as int, s.len() as int),
        sr_targets(r) == tuple_tail(s@, k as int, lv as int, targets_m(acc@)),
    decreases max_level() - lv, s.len() - k, 0int,
{
    let mut list = acc;
    let mut i = k;
    loop
        invariant
            k <= i <= s.len(),
            tuple_tail(s@, i as int, lv as int, targets_m(list@)) == tuple_tail(
                s@,
                k as int,
                lv as int,
                targets_m(acc@),
            ),
        decreases s.len() - i,
    {
        let q = skip_ws_exec(s, i);
        if !has_char(s, q, ',') {
            return Ok((i, list));
        }
        let q2 = skip_ws_exec(s, q + 1);
        match parse_target(s, q2, lv) {
            Ok((j, t)) => {
                let ghost old_list = list@;
                list.push(t);
                proof {
                    lemma_targets_push(old_list, t);
                }
                i = j;
            },
            Err(x) => {
                if x.fatal {
                    return Err(x);
                }
                return Ok((i, list));
            },
        }
    }
}

fn parse_named(s: &Vec<char>, p: usize, lv: usize) -> (r: Result<(usize, (String, Target)), PErr>)
    requires
        p <= s.len(),
    ensures
        res_bounds(r, p as int, s.len() as int),
        sr_named(r) == named_p(s@, p as int, lv as int),
    decreases max_level() - lv, s.len() - p, 0int,
{
    let e = match ident_exec(s, p) {
        None => {
            return Err(soft(p));
        },
        Some(e) => e,
    };
    let q = skip_ws_exec(s, e);
    if has_char(s, q, ':') {
        let q2 = skip_ws_exec(s, q + 1);
        match parse_target(s, q2, lv) {
            Ok((j, t)) => {
                return Ok((j, (sub_string(s, p, e), t)));
            },
            Err(x) => {
                if x.fatal {
                    return Err(x);
                }
            },
        }
    }
    match name_target(s, p, e) {
        Ok((k, t)) => Ok((k, (sub_string(s, p, e), t))),
        Err(x) => Err(x),
    }
}

fn parse_named_tail(s: &Vec<char>, k: usize, lv: usize, acc: Vec<(String, Target)>) -> (r: Result<
    (usize, Vec<(String, Target)>),
    PErr,
>)
    requires
        k <= s.len(),
    ensures
        res_bounds(r, k as int, s.len() as int),
        sr_named_list(r) == named_tail(s@, k as int, lv as int, named_targets_m(acc@)),
    decreases max_level() - lv, s.len() - k, 0int,
{
    let mut list = acc;
    let mut i = k;
    loop
        invariant
            k <= i <= s.len(),
            named_tail(s@, i as int, lv as int, named_targets_m(list@)) == named_tail(
                s@,
                k as int,
                lv as int,
                named_targets_m(acc@),
            ),
        decreases s.len() - i,
    {
        let q = skip_ws_exec(s, i);
        if !has_char(s, q, ',') {
            return Ok((i, list));
        }
        let q2 = skip_ws_exec(s, q + 1);
        match parse_named(s, q2, lv) {
            Ok((j, t)) => {
                let ghost old_list = list@;
                list.push(t);
                proof {
                    lemma_named_targets_push(old_list, t);
                }
                i = j;
            },
            Err(x) => {
                if x.fatal {
                    return Err(x);
                }
                return Ok((i, list));
            },
        }
    }
}

fn parse_path_target(s: &Vec<char>, p: usize, lv: usize, path: Vec<String>, i: usize) -> (r: Result<
    (usize, Target),
    PErr,
>)
    requires
        p < i <= s.len(),
    ensures
        res_bounds(r, p as int, s.len() as int),
        sr_target(r) == path_target_p(s@, p as int, lv as int, strs_m(path@), i as int),
    decreases max_level() - lv, s.len() - p, 0int,
{
    let q = skip_ws_exec(s, i);
    let i2 = match keyword_exec(s, q, &['w', 'i', 't', 'h']) {
        Some(e) => skip_ws_exec(s, e),
        None => i,
    };
    let q2 = skip_ws_exec(s, i2);
    if has_char(s, q2, '(') {
        let i3 = skip_ws_exec(s, q2 + 1);
        if has_char(s, i3, ')') {
            let b: Vec<Target> = Vec::new();
            assert(targets_m(b@) =~= seq![]);
            return Ok((i3 + 1, Target::Tuple(path, b)));
        }
        match parse_target(s, i3, lv) {
            Ok((j, t)) => {
                let mut v: Vec<Target> = Vec::new();
                v.push(t);
                proof {
                    lemma_targets_push(seq![], t);
                    assert(v@ =~= Seq::<Target>::empty().push(t));
                    assert(targets_m(Seq::<Target>::empty()) =~= seq![]);
                    assert(targets_m(v@) =~= seq![target_m(t)]);
                }
                match parse_tuple_tail(s, j, lv, v) {
                    Ok((k, ts)) => match close_list_exec(s, k, ')') {
                        Ok(e) => Ok((e, Target::Tuple(path, ts))),
                        Err(x) => Err(hard(x, Msg::Plain)),
                    },
                    Err(x) => Err(x),
                }
            },
            Err(x) => Err(hard(x.pos, if x.fatal {
                x.msg
            } else {
                Msg::Plain
            })),
        }
    } else if has_char(s, q2, '{') {
        let i3 = skip_ws_exec(s, q2 + 1);
        if has_char(s, i3, '}') {
            let b: Vec<(String, Target)> = Vec::new();
            assert(named_targets_m(b@) =~= seq![]);
            return Ok((i3 + 1, Target::Struct(path, b)));
        }
        match parse_named(s, i3, lv) {
            Ok((j, nt)) => {
                let mut v: Vec<(String, Target)> = Vec::new();
                v.push(nt);
                proof {
                    lemma_named_targets_push(seq![], nt);
                    assert(v@ =~= Seq::<(String, Target)>::empty().push(nt));
                    assert(named_targets_m(Seq::<(String, Target)>::empty()) =~= seq![]);
                    assert(named_targets_m(v@) =~= seq![(nt.0@, target_m(nt.1))]);
                }
                match parse_named_tail(s, j, lv, v) {
                    Ok((k, ts)) => match close_list_exec(s, k, '}') {
                        Ok(e) => Ok((e, Target::Struct(path, ts))),
                        Err(x) => Err(hard(x, Msg::Plain)),
                    },
                    Err(x) => Err(x),
                }
            },
            Err(x) => Err(hard(x.pos, if x.fatal {
                x.msg
            } else {
                Msg::Plain
            })),
        }
    } else {
        Ok((i, Target::Path(path)))
    }
}

} // verus!
