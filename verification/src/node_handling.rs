//! Generating code for a list of nodes: literals and whitespace, comments,
//! expression tags, raw blocks, `break` and `continue`, `if`, `match` and
//! `for` blocks, macro calls, and the tags that only stand at a template's
//! top level (`macro`, `import`, `extends`). Expression values are held
//! back and written together when a tag forces them out; the code of each
//! expression is given, in the order the generator asks for it.

use vstd::prelude::*;
use crate::ast::{Call, Cond, Expr, If, Lit, Loop, Macro, Match, Node, Target, When, Whitespace, Ws};
use crate::heritage::Context;
use crate::macro_call::{bind_macro_args, find_macro, lemma_binding_in_range, macro_binding, macro_target, names_m};
use crate::text::{str_eq, string_push_str};
use crate::config::{CompileError, WhitespaceHandling};
use crate::generator::{loop_iter_line, loop_iter_text, median, median_of, sorted_version, spaces, target_code, written, Buffer, MapChain};
use crate::parse::debug_str;
use crate::writables::{
    all_lits, batch, byte_len, codes_m, expr_count, flush_m, handle_m, lit_m, lits_text,
    prepare_m, trim_of, write_call_text, writable_m, lemma_batch_counts, Generator, PendingM,
    Writable, WritableM,
};

verus! {

/// Where the nodes stand: at the template's top level, in a block, or
/// nested in another tag.
#[derive(Clone, Copy, Debug, PartialEq, Eq, Structural)]
pub enum AstLevel {
    Top,
    Block,
    Nested,
}

/// The generator's state as plain values: what is pending, how many
/// expressions were named, the code written so far with its indentation
/// and whether a line was just begun, and how many expression codes were
/// used.
pub ghost struct GenM {
    pub pend: PendingM,
    pub named: nat,
    pub out: Seq<char>,
    pub indent: u8,
    pub start: bool,
    pub k: nat,
}

/// The outcome of generating code: the new state, an error, or a stop
/// (the generator's own assertions fail, the expression codes run out, or
/// a count leaves the machine's range).
pub ghost enum GenR {
    Done(GenM),
    Failed(Seq<char>),
    Stopped,
}

/// Whether what is held back can be written: codes for its expressions are
/// left and the counts stay in range.
pub open spec fn flush_ok(g: GenM, ncodes: nat) -> bool {
    let w = g.pend.writables;
    &&& g.k + expr_count(w) <= ncodes
    &&& g.named + expr_count(w) <= usize::MAX
    &&& byte_len(lits_text(w)) + 3 * expr_count(w) <= usize::MAX
    &&& g.indent < 255
}

/// Writing out what is held back (see `Generator::write_buf_writable`),
/// with the next codes of `codes`: nothing when nothing is held back; one
/// `write_str` call when only literals are; else one `write!` call.
pub open spec fn flush_gen(g: GenM, codes: Seq<(Seq<char>, bool)>, escaper: Seq<char>) -> GenM {
    let w = g.pend.writables;
    let p = PendingM { writables: seq![], ..g.pend };
    if w.len() == 0 {
        g
    } else if all_lits(w) {
        GenM {
            pend: p,
            out: g.out + written(
                g.start,
                g.indent,
                "writer.write_str("@ + debug_str(lits_text(w)) + ")?;"@,
            ) + seq!['\n'],
            start: true,
            ..g
        }
    } else {
        let b = batch(
            w,
            codes.subrange(g.k as int, (g.k + expr_count(w)) as int),
            escaper,
            (g.indent + 1) as u8,
            g.named,
        );
        GenM {
            pend: p,
            out: g.out + write_call_text(g.start, g.indent, b.format, b.exprs),
            start: true,
            named: b.named,
            k: g.k + expr_count(w),
            ..g
        }
    }
}

/// The size of what `flush_gen` writes out, as `write_buf_writable`
/// counts it.
pub open spec fn flush_size(g: GenM, codes: Seq<(Seq<char>, bool)>, escaper: Seq<char>) -> nat {
    let w = g.pend.writables;
    if w.len() == 0 {
        0
    } else if all_lits(w) {
        byte_len(lits_text(w))
    } else {
        batch(
            w,
            codes.subrange(g.k as int, (g.k + expr_count(w)) as int),
            escaper,
            (g.indent + 1) as u8,
            g.named,
        ).size
    }
}

/// A line of code after what is written.
pub open spec fn line_gen(g: GenM, s: Seq<char>) -> GenM {
    GenM { out: g.out + written(g.start, g.indent, s) + seq!['\n'], start: true, ..g }
}

/// A tag's whitespace markers applied to the pending state.
pub open spec fn with_pend(g: GenM, p: PendingM) -> GenM {
    GenM { pend: p, ..g }
}

/// `break` or `continue`: the tag's whitespace, everything held back
/// written out, then the statement.
pub open spec fn jump_gen(
    g: GenM,
    ws: Ws,
    stmt: Seq<char>,
    codes: Seq<(Seq<char>, bool)>,
    escaper: Seq<char>,
    d: WhitespaceHandling,
) -> GenR {
    let g1 = with_pend(g, handle_m(g.pend, ws, d));
    if !flush_ok(g1, codes.len()) {
        GenR::Stopped
    } else {
        GenR::Done(line_gen(flush_gen(g1, codes, escaper), stmt))
    }
}

/// What code generation works with besides the state: the contexts of
/// all templates by path, the code of each expression in order, the
/// escaper, and the configured whitespace handling.
pub ghost struct Env<'a> {
    pub contexts: Seq<(String, Context<'a>)>,
    pub codes: Seq<(Seq<char>, bool)>,
    pub escaper: Seq<char>,
    pub d: WhitespaceHandling,
}

/// The environment as plain values.
pub open spec fn env_of<'a>(
    contexts: Seq<(String, Context<'a>)>,
    codes: Seq<(String, bool)>,
    escaper: Seq<char>,
    d: WhitespaceHandling,
) -> Env<'a> {
    Env { contexts, codes: codes_m(codes), escaper, d }
}

/// A line of code written at the current level (not `}` and not ending
/// in `{`).
pub open spec fn out_line(g: GenM, s: Seq<char>) -> GenM {
    line_gen(g, s)
}

/// A line ending in `{`: written, then one level deeper; stops past the
/// deepest level.
pub open spec fn open_line(g: GenM, s: Seq<char>) -> Option<GenM> {
    if g.indent >= 255 {
        None
    } else {
        Some(GenM {
            out: g.out + written(g.start, g.indent, s) + seq!['\n'],
            indent: (g.indent + 1) as u8,
            start: true,
            ..g
        })
    }
}

/// The line `}`: one level less deep, then written; an error at the
/// outermost level.
pub open spec fn close_line(g: GenM) -> Result<GenM, Seq<char>> {
    if g.indent == 0 {
        Err("dedent() called while indentation == 0"@)
    } else {
        Ok(GenM {
            out: g.out + written(g.start, (g.indent - 1) as u8, "}"@) + seq!['\n'],
            indent: (g.indent - 1) as u8,
            start: true,
            ..g
        })
    }
}

/// What is held back written out, with its size added to `n`; `None`
/// where codes run out or a count leaves the machine's range.
pub open spec fn flush_add<'a>(g: GenM, n: nat, e: Env<'a>) -> Option<(GenM, nat)> {
    if !flush_ok(g, e.codes.len()) || n + flush_size(g, e.codes, e.escaper) > usize::MAX {
        None
    } else {
        Some((flush_gen(g, e.codes, e.escaper), n + flush_size(g, e.codes, e.escaper)))
    }
}

/// The head of an `if` branch, after the code written so far: `if` (or
/// `} else if` after the first branch) and the condition, whose code is
/// the next one (`*(&(CODE) as &bool)`, or `let TARGET = &(CODE)`), or
/// `} else` for the last branch.
pub open spec fn branch_head(c: Cond, j: int, code: Seq<char>) -> Seq<char> {
    match c.cond {
        Some(t) => (if j == 0 {
            "if "@
        } else {
            "} else if "@
        }) + match t.target {
            Some(tt) => "let "@ + target_code(tt, true) + " = &("@ + code + ")"@,
            None => "*(&("@ + code + ") as &bool)"@,
        },
        None => "} else"@,
    }
}

/// What an `if` gathers branch by branch: the state, the size of what was
/// written out between branches, each branch's size, and whether there
/// was an `else`.
pub ghost struct IfAcc {
    pub g: GenM,
    pub flushed: nat,
    pub sizes: Seq<usize>,
    pub has_else: bool,
}

pub ghost enum IfR {
    Done(IfAcc),
    Failed(Seq<char>),
    Stopped,
}

/// Whether a branch's head starts by closing the previous branch.
pub open spec fn branch_dedents(c: Cond, j: int) -> bool {
    j > 0 || c.cond is None
}

/// One branch of an `if`, the `j`-th: its tag's whitespace, what is held
/// back written out, the head (dedented after the first branch) followed
/// by ` {`, then its nodes.
pub open spec fn if_step<'a>(acc: IfAcc, c: Cond, j: int, ctx: Context<'a>, e: Env<'a>, depth: nat) -> IfR
    decreases depth, c, 0int,
{
    let g1 = with_pend(acc.g, handle_m(acc.g.pend, c.ws, e.d));
    match flush_add(g1, acc.flushed, e) {
        None => IfR::Stopped,
        Some((g2, fl)) => {
            let takes_code = c.cond is Some;
            if takes_code && g2.k >= e.codes.len() {
                IfR::Stopped
            } else if branch_dedents(c, j) && g2.indent == 0 {
                IfR::Failed("dedent() called while indentation == 0"@)
            } else {
                let ind: u8 = if branch_dedents(c, j) {
                    (g2.indent - 1) as u8
                } else {
                    g2.indent
                };
                let code = if takes_code {
                    e.codes[g2.k as int].0
                } else {
                    seq![]
                };
                if ind >= 255 {
                    IfR::Stopped
                } else {
                    let g4 = GenM {
                        out: g2.out + written(g2.start, ind, branch_head(c, j, code) + " {"@) + seq!['\n'],
                        indent: (ind + 1) as u8,
                        start: true,
                        k: if takes_code {
                            g2.k + 1
                        } else {
                            g2.k
                        },
                        ..g2
                    };
                    match nodes_gen(g4, c.nodes@, AstLevel::Nested, ctx, e, depth) {
                        (GenR::Done(g5), n) => if n > usize::MAX {
                            IfR::Stopped
                        } else {
                            IfR::Done(
                                IfAcc {
                                    g: g5,
                                    flushed: fl,
                                    sizes: acc.sizes.push(n as usize),
                                    has_else: acc.has_else || c.cond is None,
                                },
                            )
                        },
                        (GenR::Failed(m), _) => IfR::Failed(m),
                        (GenR::Stopped, _) => IfR::Stopped,
                    }
                }
            }
        },
    }
}

/// The branches of an `if` from the `j`-th on (see `if_step`).
pub open spec fn if_branches<'a>(
    acc: IfAcc,
    bs: Seq<Cond>,
    j: int,
    ctx: Context<'a>,
    e: Env<'a>,
    depth: nat,
) -> IfR
    decreases depth, bs, bs.len() - j,
{
    if j < 0 || j >= bs.len() {
        IfR::Done(acc)
    } else {
        match if_step(acc, bs[j], j, ctx, e, depth) {
            IfR::Done(acc2) => if_branches(acc2, bs, j + 1, ctx, e, depth),
            other => other,
        }
    }
}

/// The sizes of an `if`'s branches, with 0 for the missing `else`.
pub open spec fn if_sizes(acc: IfAcc) -> Seq<usize> {
    if acc.has_else {
        acc.sizes
    } else {
        acc.sizes.push(0)
    }
}

/// Whether the median of `s` can be computed: `s` is not empty and the
/// two middle values of an even count add up within range.
pub open spec fn median_ok(s: Seq<usize>) -> bool {
    &&& s.len() > 0
    &&& s.len() % 2 == 0 ==> sorted_version(s)[s.len() / 2 - 1] + sorted_version(s)[(s.len()
        / 2) as int] <= usize::MAX
}

/// An `if` block: its branches, then the whitespace before `endif`, what
/// is held back written out, and `}`. The size hint is what was written
/// out plus the median of the branches' sizes.
pub open spec fn if_gen<'a>(g: GenM, i: If, ctx: Context<'a>, e: Env<'a>, depth: nat) -> (GenR, nat)
    decreases depth, i, 1int,
{
    match if_branches(
        IfAcc { g, flushed: 0, sizes: seq![], has_else: false },
        i.branches@,
        0,
        ctx,
        e,
        depth,
    ) {
        IfR::Stopped => (GenR::Stopped, 0),
        IfR::Failed(m) => (GenR::Failed(m), 0),
        IfR::Done(acc) => {
            let g1 = with_pend(acc.g, handle_m(acc.g.pend, i.ws, e.d));
            match flush_add(g1, acc.flushed, e) {
                None => (GenR::Stopped, 0),
                Some((g2, fl)) => match close_line(g2) {
                    Err(m) => (GenR::Failed(m), 0),
                    Ok(g3) => {
                        let s = if_sizes(acc);
                        if !median_ok(s) || fl + median_of(sorted_version(s)) > usize::MAX {
                            (GenR::Stopped, 0)
                        } else {
                            (GenR::Done(g3), (fl + median_of(sorted_version(s))) as nat)
                        }
                    },
                },
            }
        },
    }
}

/// What a `match` gathers arm by arm: the state, the sizes of the arms
/// already closed, and the size of the open one.
pub ghost struct MatchAcc {
    pub g: GenM,
    pub sizes: Seq<usize>,
    pub arm: nat,
}

pub ghost enum MatchR {
    Done(MatchAcc),
    Failed(Seq<char>),
    Stopped,
}

/// Closing the previous arm: what is held back written out, its size added
/// to the arm's, and `}`.
pub open spec fn arm_close<'a>(g1: GenM, arm: nat, e: Env<'a>) -> Option<Result<(GenM, nat), Seq<char>>> {
    match flush_add(g1, arm, e) {
        None => None,
        Some((gf, s)) => match close_line(gf) {
            Err(m) => Some(Err(m)),
            Ok(gc) => Some(Ok((gc, s))),
        },
    }
}

/// One arm of a `match`, the `j`-th: its tag's whitespace; after the first
/// arm, what is held back written out (counted to the previous arm) and
/// that arm closed; then the pattern and ` => {`, and its nodes.
pub open spec fn match_step<'a>(acc: MatchAcc, w: When, j: int, ctx: Context<'a>, e: Env<'a>, depth: nat) -> MatchR
    decreases depth, w, 0int,
{
    let g1 = with_pend(acc.g, handle_m(acc.g.pend, w.ws, e.d));
    let closed: Option<Result<(GenM, Seq<usize>), Seq<char>>> = if j > 0 {
        match arm_close(g1, acc.arm, e) {
            None => None,
            Some(Err(m)) => Some(Err(m)),
            Some(Ok((gc, s))) => Some(Ok((gc, acc.sizes.push(s as usize)))),
        }
    } else {
        Some(Ok((g1, acc.sizes)))
    };
    match closed {
        None => MatchR::Stopped,
        Some(Err(m)) => MatchR::Failed(m),
        Some(Ok((g2, sizes))) => match open_line(g2, target_code(w.target, true) + " => {"@) {
            None => MatchR::Stopped,
            Some(g3) => match nodes_gen(g3, w.nodes@, AstLevel::Nested, ctx, e, depth) {
                (GenR::Done(g4), n) => MatchR::Done(MatchAcc { g: g4, sizes, arm: n }),
                (GenR::Failed(m), _) => MatchR::Failed(m),
                (GenR::Stopped, _) => MatchR::Stopped,
            },
        },
    }
}

/// The arms of a `match` from the `j`-th on (see `match_step`).
pub open spec fn match_arms<'a>(acc: MatchAcc, ws: Seq<When>, j: int, ctx: Context<'a>, e: Env<'a>, depth: nat) -> MatchR
    decreases depth, ws, ws.len() - j,
{
    if j < 0 || j >= ws.len() {
        MatchR::Done(acc)
    } else {
        match match_step(acc, ws[j], j, ctx, e, depth) {
            MatchR::Done(acc2) => match_arms(acc2, ws, j + 1, ctx, e, depth),
            other => other,
        }
    }
}

/// A `match` block: the whitespace before it, what is held back written
/// out, `match &CODE {` with the next code, the arms, then the whitespace
/// before `endmatch`, what is held back written out (counted to the last
/// arm), and two `}`. The size hint is what was written out first plus the
/// median of the arms' sizes.
pub open spec fn match_gen<'a>(g: GenM, m: Match, ctx: Context<'a>, e: Env<'a>, depth: nat) -> (GenR, nat)
    decreases depth, m, 1int,
{
    let g1 = with_pend(g, flush_m(g.pend, m.ws1, e.d));
    match flush_add(g1, 0, e) {
        None => (GenR::Stopped, 0),
        Some((g2, fl)) => if g2.k >= e.codes.len() {
            (GenR::Stopped, 0)
        } else {
            match open_line(GenM { k: g2.k + 1, ..g2 }, "match &"@ + e.codes[g2.k as int].0 + " {"@) {
                None => (GenR::Stopped, 0),
                Some(g3) => match match_arms(MatchAcc { g: g3, sizes: seq![], arm: 0 }, m.arms@, 0, ctx, e, depth) {
                    MatchR::Stopped => (GenR::Stopped, 0),
                    MatchR::Failed(x) => (GenR::Failed(x), 0),
                    MatchR::Done(acc) => {
                        let g4 = with_pend(acc.g, handle_m(acc.g.pend, m.ws2, e.d));
                        match flush_add(g4, acc.arm, e) {
                            None => (GenR::Stopped, 0),
                            Some((g5, s)) => {
                                let sizes = acc.sizes.push(s as usize);
                                match close_line(g5) {
                                    Err(x) => (GenR::Failed(x), 0),
                                    Ok(g6) => match close_line(g6) {
                                        Err(x) => (GenR::Failed(x), 0),
                                        Ok(g7) => if !median_ok(sizes) || fl + median_of(sorted_version(sizes))
                                            > usize::MAX {
                                            (GenR::Stopped, 0)
                                        } else {
                                            (GenR::Done(g7), (fl + median_of(sorted_version(sizes))) as nat)
                                        },
                                    },
                                }
                            },
                        }
                    },
                },
            }
        },
    }
}

/// The `for` line of a loop over `var`.
pub open spec fn for_line(var: Target) -> Seq<char> {
    "for ("@ + target_code(var, true) + ", _loop_item) in ::askama::helpers::TemplateLoop::new(_iter) {"@
}

/// The line that keeps the items passing a loop's condition, whose code is
/// `code`.
pub open spec fn filter_line(var: Target, code: Seq<char>) -> Seq<char> {
    "let _iter = _iter.filter(|"@ + target_code(var, true) + "| -> bool {"@ + code + "});"@
}

/// The start of a loop, up to and with its `for` line: the tag's
/// whitespace, the iterated expression's code (the next one), what is held
/// back written out (its size returned), `{`, the flag for an `else`, the
/// `_iter` line, the condition's filter (with the next code), and `for`.
pub open spec fn loop_head<'a>(g: GenM, l: Loop, e: Env<'a>) -> Option<(GenM, nat)> {
    let g1 = with_pend(g, handle_m(g.pend, l.ws1, e.d));
    if g1.k >= e.codes.len() {
        None
    } else {
        let code = e.codes[g1.k as int].0;
        let has_else = l.else_nodes@.len() > 0;
        match flush_add(GenM { k: g1.k + 1, ..g1 }, 0, e) {
            None => None,
            Some((g2, fl)) => match open_line(g2, "{"@) {
                None => None,
                Some(g3) => {
                    let g4 = if has_else {
                        out_line(g3, "let mut _did_loop = false;"@)
                    } else {
                        g3
                    };
                    let g5 = out_line(g4, loop_iter_text(l.iter, code));
                    let g6: Option<GenM> = match l.cond {
                        Some(_) => if g5.k >= e.codes.len() {
                            None
                        } else {
                            Some(out_line(GenM { k: g5.k + 1, ..g5 }, filter_line(l.var, e.codes[g5.k as int].0)))
                        },
                        None => Some(g5),
                    };
                    match g6 {
                        None => None,
                        Some(g6) => match open_line(g6, for_line(l.var)) {
                            None => None,
                            Some(g7) => Some(
                                (
                                    if has_else {
                                        out_line(g7, "_did_loop = true;"@)
                                    } else {
                                        g7
                                    },
                                    fl,
                                ),
                            ),
                        },
                    }
                },
            },
        }
    }
}

/// The end of a loop after its body (of size `s1`): the whitespace before
/// `else` or `endfor`, what is held back written out, `}`; then the `else`
/// nodes in `if !_did_loop { .. }` when there are any; then the closing
/// `}`. The size hint is `fl` plus half of three times the body's size and
/// the `else` part's.
pub open spec fn loop_tail<'a>(g9: GenM, s1: nat, fl: nat, l: Loop, ctx: Context<'a>, e: Env<'a>, depth: nat) -> (
    GenR,
    nat,
)
    decreases depth, l, 0int,
{
    let g10 = with_pend(g9, handle_m(g9.pend, l.ws2, e.d));
    match flush_add(g10, s1, e) {
        None => (GenR::Stopped, 0),
        Some((g11, s1b)) => match close_line(g11) {
            Err(m) => (GenR::Failed(m), 0),
            Ok(g12) => {
                let rest: (GenR, nat) = if l.else_nodes@.len() > 0 {
                    match open_line(g12, "if !_did_loop {"@) {
                        None => (GenR::Stopped, 0),
                        Some(g13) => match nodes_gen(g13, l.else_nodes@, AstLevel::Nested, ctx, e, depth) {
                            (GenR::Done(g14), s2) => {
                                let g15 = with_pend(g14, handle_m(g14.pend, l.ws3, e.d));
                                match flush_add(g15, s2, e) {
                                    None => (GenR::Stopped, 0),
                                    Some((g16, s2b)) => match close_line(g16) {
                                        Err(m) => (GenR::Failed(m), 0),
                                        Ok(g17) => (GenR::Done(g17), s2b),
                                    },
                                }
                            },
                            other => other,
                        },
                    }
                } else {
                    let g15 = with_pend(g12, handle_m(g12.pend, l.ws3, e.d));
                    match flush_add(g15, 0, e) {
                        None => (GenR::Stopped, 0),
                        Some((g17, s2b)) => (GenR::Done(g17), s2b),
                    }
                };
                match rest {
                    (GenR::Done(g17), s2b) => match close_line(g17) {
                        Err(m) => (GenR::Failed(m), 0),
                        Ok(g18) => if s1b * 3 + s2b > usize::MAX || fl + (s1b * 3 + s2b) / 2 > usize::MAX {
                            (GenR::Stopped, 0)
                        } else {
                            (GenR::Done(g18), fl + (s1b * 3 + s2b) / 2)
                        },
                    },
                    other => other,
                }
            },
        },
    }
}

/// A `for` loop (see `loop_head` and `loop_tail`), its body at the nested
/// level.
pub open spec fn loop_gen<'a>(g: GenM, l: Loop, ctx: Context<'a>, e: Env<'a>, depth: nat) -> (GenR, nat)
    decreases depth, l, 1int,
{
    match loop_head(g, l, e) {
        None => (GenR::Stopped, 0),
        Some((g8, fl)) => match nodes_gen(g8, l.body@, AstLevel::Nested, ctx, e, depth) {
            (GenR::Done(g9), s1) => loop_tail(g9, s1, fl, l, ctx, e, depth),
            other => other,
        },
    }
}

/// The code for one node: literals, comments, expression tags, raw
/// blocks, `break` and `continue`, `if` blocks, macro calls, and the tags
/// that only stand at the top level; with the size hint of what it
/// wrote. Other kinds stop the generator.
pub open spec fn node_gen<'a>(
    g: GenM,
    n: Node,
    level: AstLevel,
    ctx: Context<'a>,
    e: Env<'a>,
    depth: nat,
) -> (GenR, nat)
    decreases depth, n, 2int,
{
    match n {
        Node::Lit(l) => match lit_m(g.pend, l.lws@, l.val@, l.rws@) {
            Some(p) => (GenR::Done(with_pend(g, p)), 0),
            None => (GenR::Stopped, 0),
        },
        Node::Comment(c) => (GenR::Done(with_pend(g, handle_m(g.pend, c.ws, e.d))), 0),
        Node::Expr(ws, x) => {
            let p = handle_m(g.pend, ws, e.d);
            (GenR::Done(with_pend(g, PendingM { writables: p.writables.push(WritableM::Expr(x)), ..p })), 0)
        },
        Node::Macro(m) => if level != AstLevel::Top {
            (GenR::Failed("macro blocks only allowed at the top level"@), 0)
        } else {
            (GenR::Done(with_pend(g, prepare_m(flush_m(g.pend, m.ws1, e.d), m.ws2, e.d))), 0)
        },
        Node::Raw(r) => match lit_m(handle_m(g.pend, r.ws1, e.d), r.lit.lws@, r.lit.val@, r.lit.rws@) {
            Some(p) => (GenR::Done(with_pend(g, handle_m(p, r.ws2, e.d))), 0),
            None => (GenR::Stopped, 0),
        },
        Node::Import(i) => if level != AstLevel::Top {
            (GenR::Failed("import blocks only allowed at the top level"@), 0)
        } else {
            (GenR::Done(with_pend(g, handle_m(g.pend, i.ws, e.d))), 0)
        },
        Node::Extends(_) => if level != AstLevel::Top {
            (GenR::Failed("extend blocks only allowed at the top level"@), 0)
        } else {
            (GenR::Done(g), 0)
        },
        Node::Break(ws) => (jump_gen(g, ws, "break;"@, e.codes, e.escaper, e.d), 0),
        Node::Continue(ws) => (jump_gen(g, ws, "continue;"@, e.codes, e.escaper, e.d), 0),
        Node::If(i) => if_gen(g, i, ctx, e, depth),
        Node::Match(m) => match_gen(g, m, ctx, e, depth),
        Node::Loop(l) => loop_gen(g, *l, ctx, e, depth),
        Node::Call(c) => call_gen(g, ctx, c, e, depth),
        _ => (GenR::Stopped, 0),
    }
}

/// The code for the nodes from the `i`-th on, one after the other, with
/// their size hints added up; the first error or stop ends it.
pub open spec fn nodes_gen_from<'a>(
    g: GenM,
    nodes: Seq<Node>,
    i: int,
    level: AstLevel,
    ctx: Context<'a>,
    e: Env<'a>,
    depth: nat,
    acc: nat,
) -> (GenR, nat)
    decreases depth, nodes, nodes.len() - i,
{
    if i >= nodes.len() || i < 0 {
        (GenR::Done(g), acc)
    } else {
        match node_gen(g, nodes[i], level, ctx, e, depth) {
            (GenR::Done(g1), n) => if acc + n > usize::MAX {
                (GenR::Stopped, 0)
            } else {
                nodes_gen_from(g1, nodes, i + 1, level, ctx, e, depth, acc + n)
            },
            other => other,
        }
    }
}

/// The code for `nodes` at `level`, and the size hint: that of the nodes,
/// and at the top level also of what is left pending, written out at the
/// end.
pub open spec fn nodes_gen<'a>(
    g: GenM,
    nodes: Seq<Node>,
    level: AstLevel,
    ctx: Context<'a>,
    e: Env<'a>,
    depth: nat,
) -> (GenR, nat)
    decreases depth, nodes, nodes.len() + 1,
{
    match nodes_gen_from(g, nodes, 0, level, ctx, e, depth, 0) {
        (GenR::Done(g1), n) => if level == AstLevel::Top {
            match flush_add(top_end(g1, e.d), n, e) {
                None => (GenR::Stopped, 0),
                Some((g2, m)) => (GenR::Done(g2), m),
            }
        } else {
            (GenR::Done(g1), n)
        },
        other => other,
    }
}

/// After the macro's nodes: the whitespace before `endmacro`, what is held
/// back written out, and the block closed; the call's own right marker
/// then applies.
pub open spec fn call_close<'a>(g6: GenM, n1: nat, def: Macro, call: Call, e: Env<'a>) -> (GenR, nat) {
    let g7 = with_pend(g6, flush_m(g6.pend, def.ws2, e.d));
    match flush_add(g7, n1, e) {
        None => (GenR::Stopped, 0),
        Some((g8, n)) => match close_line(g8) {
            Err(m) => (GenR::Failed(m), 0),
            Ok(g9) => (GenR::Done(with_pend(g9, prepare_m(g9.pend, call.ws, e.d))), n),
        },
    }
}

/// Inside the block: the arguments bound (`macro_binding`), those that need
/// it in one `let`, then the macro's nodes in the macro's own context, one
/// call deeper, then `call_close`.
pub open spec fn call_inside<'a>(
    g4: GenM,
    def: Macro,
    mctx: Context<'a>,
    call: Call,
    e: Env<'a>,
    depth: nat,
) -> (GenR, nat)
    decreases depth, Node::Call(call), 0int,
{
    match macro_binding(call.name@, names_m(def.args@), call.args@) {
        Err(m) => (GenR::Failed(m), 0),
        Ok(b) => {
            let bv = bound_values(names_m(def.args@), call.args@, b, e.codes, g4.k, b.len() as int);
            if bv.2 > e.codes.len() || depth == 0 {
                (GenR::Stopped, 0)
            } else {
                let g4k = GenM { k: bv.2, ..g4 };
                let g5 = if bv.0.len() == 0 {
                    g4k
                } else {
                    line_gen(g4k, "let ("@ + bv.0 + ") = ("@ + bv.1 + ");"@)
                };
                match nodes_gen(g5, def.nodes@, AstLevel::Nested, mctx, e, (depth - 1) as nat) {
                    (GenR::Done(g6), n1) => call_close(g6, n1, def, call, e),
                    other => other,
                }
            }
        },
    }
}

/// The code for a call of a macro (see `Generator::write_call`): `super`
/// is refused outside a block; the macro is looked up (`macro_target`);
/// then what is held back is written out, a block is opened and the
/// macro's whitespace marker after its name applies, and `call_inside`
/// follows. The size hint is that of the macro's nodes and of what is
/// written out at the end. `depth` bounds how deeply calls nest.
pub open spec fn call_gen<'a>(g: GenM, ctx: Context<'a>, call: Call, e: Env<'a>, depth: nat) -> (GenR, nat)
    decreases depth, Node::Call(call), 1int,
{
    if call.name@ == "super"@ {
        (GenR::Failed("cannot call 'super()' outside block"@), 0)
    } else {
        match macro_target(
            ctx,
            e.contexts,
            match call.scope {
                Some(s) => Some(s@),
                None => None,
            },
            call.name@,
        ) {
            Err(m) => (GenR::Failed(m), 0),
            Ok((def, mctx)) => {
                let g1 = with_pend(g, flush_m(g.pend, call.ws, e.d));
                match flush_add(g1, 0, e) {
                    None => (GenR::Stopped, 0),
                    Some((g2, _)) => match open_line(g2, "{"@) {
                        None => (GenR::Stopped, 0),
                        Some(g3) => call_inside(
                            with_pend(g3, prepare_m(g3.pend, def.ws1, e.d)),
                            def,
                            mctx,
                            call,
                            e,
                            depth,
                        ),
                    },
                }
            },
        }
    }
}

/// The whitespace handling that the marker for `h` stands for.
pub open spec fn marker_of(h: WhitespaceHandling) -> Whitespace {
    match h {
        WhitespaceHandling::Suppress => Whitespace::Suppress,
        WhitespaceHandling::Preserve => Whitespace::Preserve,
        WhitespaceHandling::Minimize => Whitespace::Minimize,
    }
}

/// At the top level, after the nodes: whitespace still pending is written
/// as the last tag asked, then everything held back.
pub open spec fn top_end(g: GenM, d: WhitespaceHandling) -> GenM {
    if g.pend.next_ws is Some {
        with_pend(g, flush_m(g.pend, Ws(Some(marker_of(g.pend.skip_ws)), None), d))
    } else {
        g
    }
}

/// The generator and the buffer as plain values.
pub open spec fn gen_m<'a>(g: Generator<'a>, buf: Buffer, k: nat) -> GenM {
    GenM { pend: g@, named: g.named as nat, out: buf.buf@, indent: buf.indent, start: buf.start, k }
}

/// Only literals: no expression is held back.
proof fn lemma_all_lits_count(w: Seq<WritableM>)
    requires
        all_lits(w),
    ensures
        expr_count(w) == 0,
    decreases w.len(),
{
    if w.len() > 0 {
        assert(all_lits(w.drop_last())) by {
            assert forall|i: int| 0 <= i < w.drop_last().len() implies w.drop_last()[i] is Lit by {
                assert(w.drop_last()[i] == w[i]);
            }
        }
        lemma_all_lits_count(w.drop_last());
        assert(w[w.len() - 1] is Lit);
    }
}

/// The codes `codes[lo..hi]`.
fn codes_slice(codes: &Vec<(String, bool)>, lo: usize, hi: usize) -> (r: Vec<(String, bool)>)
    requires
        lo <= hi <= codes@.len(),
    ensures
        codes_m(r@) == codes_m(codes@).subrange(lo as int, hi as int),
{
    let mut out: Vec<(String, bool)> = Vec::new();
    let mut i = lo;
    while i < hi
        invariant
            lo <= i <= hi <= codes@.len(),
            out@.len() == i - lo,
            codes_m(out@) == codes_m(codes@).subrange(lo as int, i as int),
        decreases hi - i,
    {
        let s = codes[i].0.clone();
        let ghost before = out@;
        out.push((s, codes[i].1));
        assert(out@ == before.push((s, codes@[i as int].1)));
        assert(codes_m(out@) =~= codes_m(codes@).subrange(lo as int, i + 1)) by {
            assert(codes_m(out@)[i - lo] == (codes@[i as int].0@, codes@[i as int].1));
            assert forall|j: int| 0 <= j < i - lo implies codes_m(out@)[j] == codes_m(before)[j] by {
                assert(out@[j] == before[j]);
            }
        }
        i = i + 1;
    }
    out
}

impl<'a> Generator<'a> {
    /// How many expressions are held back.
    fn held_exprs(&self) -> (r: usize)
        ensures
            r == expr_count(self@.writables),
    {
        let ghost w = self@.writables;
        let mut n: usize = 0;
        let mut i: usize = 0;
        while i < self.buf_writable.len()
            invariant
                i <= self.buf_writable@.len(),
                w == self@.writables,
                w.len() == self.buf_writable@.len(),
                n == expr_count(w.subrange(0, i as int)),
                n <= i,
            decreases self.buf_writable.len() - i,
        {
            assert(w.subrange(0, i + 1).drop_last() =~= w.subrange(0, i as int));
            assert(w[i as int] == writable_m(self.buf_writable@[i as int]));
            match &self.buf_writable[i] {
                Writable::Expr(_) => {
                    n = n + 1;
                },
                Writable::Lit(_) => {},
            }
            i = i + 1;
        }
        assert(w.subrange(0, i as int) =~= w);
        n
    }

    /// Writes out what is held back, taking its codes from `codes` at `k`.
    fn flush_held(
        &mut self,
        buf: &mut Buffer,
        codes: &Vec<(String, bool)>,
        k: usize,
        escaper: &str,
    ) -> (r: (usize, usize))
        requires
            flush_ok(gen_m(*old(self), *old(buf), k as nat), codes@.len()),
        ensures
            gen_m(*final(self), *final(buf), r.0 as nat) == flush_gen(
                gen_m(*old(self), *old(buf), k as nat),
                codes_m(codes@),
                escaper@,
            ),
            r.1 == flush_size(gen_m(*old(self), *old(buf), k as nat), codes_m(codes@), escaper@),
            final(self).whitespace == old(self).whitespace,
    {
        let n = self.held_exprs();
        let ghost g = gen_m(*self, *buf, k as nat);
        assert(g.pend.writables == self@.writables);
        assert(n == expr_count(g.pend.writables));
        let cl = codes.len();
        assert(k + n <= cl);
        let ghost cs = codes_m(codes@);
        let part = codes_slice(codes, k, k + n);
        assert(part@.len() == codes_m(part@).len());
        let size = match self.write_buf_writable(buf, &part, escaper) {
            Ok(s) => s,
            Err(_) => {
                return (k, 0);
            },
        };
        proof {
            assert(self@.writables =~= Seq::<WritableM>::empty());
            assert(self@ == PendingM { writables: seq![], ..g.pend });
            let w = g.pend.writables;
            if w.len() == 0 {
                assert(n == 0);
                assert(w =~= Seq::<WritableM>::empty());
                assert(gen_m(*self, *buf, (k + n) as nat) == flush_gen(g, cs, escaper@));
            } else if all_lits(w) {
                assert(expr_count(w) == 0) by {
                    lemma_all_lits_count(w);
                }
                assert(gen_m(*self, *buf, (k + n) as nat) == flush_gen(g, cs, escaper@));
            } else {
                assert(codes_m(part@) == cs.subrange(k as int, (k + expr_count(w)) as int));
                lemma_batch_counts(w, codes_m(part@), escaper@, (buf.indent + 1) as u8, g.named);
                assert(gen_m(*self, *buf, (k + n) as nat) == flush_gen(g, cs, escaper@));
            }
        }
        (k + n, size)
    }
}

/// Whether a macro argument needs a variable of its own: a variable other
/// than `self`, or a field of one, is used in place.
pub open spec fn needs_value(e: Expr) -> bool {
    match e {
        Expr::Var(n) => n@ == "self"@,
        Expr::Attr(..) => false,
        _ => true,
    }
}

/// The names and values bound for the first `n` parameters, and where the
/// expression codes continue: each parameter whose argument needs a value
/// is named, and its value is the next code in parentheses, all separated
/// by `, `.
pub open spec fn bound_values(
    params: Seq<Seq<char>>,
    args: Seq<Expr>,
    b: Seq<int>,
    codes: Seq<(Seq<char>, bool)>,
    k: nat,
    n: int,
) -> (Seq<char>, Seq<char>, nat)
    decreases n,
{
    if n <= 0 {
        (seq![], seq![], k)
    } else {
        let prev = bound_values(params, args, b, codes, k, n - 1);
        if needs_value(args[b[n - 1]]) {
            let sep = if prev.2 == k {
                seq![]
            } else {
                ", "@
            };
            (prev.0 + sep + params[n - 1], prev.1 + sep + "("@ + codes[prev.2 as int].0 + ")"@, prev.2 + 1)
        } else {
            prev
        }
    }
}

impl<'a> Generator<'a> {
    /// The names and values bound to the macro's parameters (see
    /// `bound_values`), and where the codes continue.
    fn bind_values(
        params: &Vec<String>,
        args: &Vec<Expr>,
        b: &Vec<usize>,
        codes: &Vec<(String, bool)>,
        k0: usize,
    ) -> (r: Option<(String, String, usize)>)
        requires
            b@.len() == params@.len(),
            forall|i: int| 0 <= i < b@.len() ==> b@[i] < args@.len(),
            k0 <= codes@.len(),
        ensures
            ({
                let bv = bound_values(
                    names_m(params@),
                    args@,
                    b@.map_values(|x: usize| x as int),
                    codes_m(codes@),
                    k0 as nat,
                    b@.len() as int,
                );
                if bv.2 > codes@.len() {
                    r is None
                } else {
                    r matches Some(t) && t.0@ == bv.0 && t.1@ == bv.1 && t.2 == bv.2
                }
            }),
    {
        let ghost bi = b@.map_values(|x: usize| x as int);
        let ghost ps = names_m(params@);
        let ghost cs = codes_m(codes@);
        let mut names = String::new();
        let mut values = String::new();
        let mut k = k0;
        let mut i: usize = 0;
        while i < b.len()
            invariant
                i <= b@.len(),
                b@.len() == params@.len(),
                forall|j: int| 0 <= j < b@.len() ==> b@[j] < args@.len(),
                bi == b@.map_values(|x: usize| x as int),
                ps == names_m(params@),
                cs == codes_m(codes@),
                k0 <= k <= codes@.len(),
                ({
                    let bv = bound_values(ps, args@, bi, cs, k0 as nat, i as int);
                    names@ == bv.0 && values@ == bv.1 && k == bv.2
                }),
            decreases b.len() - i,
        {
            let e = &args[b[i]];
            assert(bi[i as int] == b@[i as int] as int);
            let needs = match e {
                Expr::Var(n) => str_eq(n.as_str(), "self"),
                Expr::Attr(..) => false,
                _ => true,
            };
            if needs {
                if k >= codes.len() {
                    proof {
                        lemma_bound_values_grow(ps, args@, bi, cs, k0 as nat, i + 1, b@.len() as int);
                    }
                    return None;
                }
                if k > k0 {
                    string_push_str(&mut names, ", ");
                    string_push_str(&mut values, ", ");
                }
                assert(ps[i as int] == params@[i as int]@);
                string_push_str(&mut names, params[i].as_str());
                string_push_str(&mut values, "(");
                string_push_str(&mut values, codes[k].0.as_str());
                string_push_str(&mut values, ")");
                assert(cs[k as int].0 == codes@[k as int].0@);
                k = k + 1;
            }
            i = i + 1;
        }
        Some((names, values, k))
    }
}

/// The codes used only grow.
proof fn lemma_bound_values_grow(
    params: Seq<Seq<char>>,
    args: Seq<Expr>,
    b: Seq<int>,
    codes: Seq<(Seq<char>, bool)>,
    k: nat,
    m: int,
    n: int,
)
    requires
        0 <= m <= n,
    ensures
        bound_values(params, args, b, codes, k, m).2 <= bound_values(params, args, b, codes, k, n).2,
    decreases n - m,
{
    if m < n {
        lemma_bound_values_grow(params, args, b, codes, k, m, n - 1);
    }
}


/// Whether `r` is the outcome `res` describes, with `fs` and `fb` the
/// generator and buffer afterwards and `ncodes` the number of codes.
pub open spec fn matches_outcome<'a>(
    res: (GenR, nat),
    r: Result<(usize, usize), CompileError>,
    fs: Generator<'a>,
    fb: Buffer,
    ncodes: nat,
) -> bool {
    match res {
        (GenR::Done(g), n) => match r {
            Ok((k2, sz)) => sz == n && k2 == g.k && k2 <= ncodes && gen_m(fs, fb, g.k) == g,
            Err(_) => false,
        },
        (GenR::Failed(m), _) => match r {
            Ok(_) => false,
            Err(x) => x.msg@ == m,
        },
        (GenR::Stopped, _) => false,
    }
}

impl<'a> Generator<'a> {
    /// Generates the code for one node (see `node_gen`), taking expression
    /// codes from `codes` at `k`; returns where the next codes start and
    /// the size hint.
    #[verifier::rlimit(60)]
    #[verifier::spinoff_prover]
    fn handle_node(
        &mut self,
        ctx: &'a Context<'a>,
        contexts: &'a Vec<(String, Context<'a>)>,
        n: &'a Node,
        buf: &mut Buffer,
        level: AstLevel,
        codes: &Vec<(String, bool)>,
        k: usize,
        escaper: &str,
        depth: usize,
    ) -> (r: Result<(usize, usize), CompileError>)
        requires
            k <= codes@.len(),
            !(node_gen(
                gen_m(*old(self), *old(buf), k as nat),
                *n,
                level,
                *ctx,
                env_of(contexts@, codes@, escaper@, old(self).whitespace),
                depth as nat,
            ).0 is Stopped),
        ensures
            final(self).whitespace == old(self).whitespace,
            matches_outcome(
                node_gen(
                    gen_m(*old(self), *old(buf), k as nat),
                    *n,
                    level,
                    *ctx,
                    env_of(contexts@, codes@, escaper@, old(self).whitespace),
                    depth as nat,
                ),
                r,
                *final(self),
                *final(buf),
                codes@.len(),
            ),
        decreases depth, *n, 2int,
    {
        match n {
            Node::Lit(l) => {
                self.visit_lit(l);
                Ok((k, 0))
            },
            Node::Comment(c) => {
                self.write_comment(c);
                Ok((k, 0))
            },
            Node::Expr(ws, e) => {
                self.write_expr(*ws, e);
                Ok((k, 0))
            },
            Node::Macro(m) => {
                if level != AstLevel::Top {
                    return Err(CompileError { msg: "macro blocks only allowed at the top level".to_owned() });
                }
                self.flush_ws(m.ws1);
                self.prepare_ws(m.ws2);
                Ok((k, 0))
            },
            Node::Raw(raw) => {
                self.handle_ws(raw.ws1);
                self.visit_lit(&raw.lit);
                self.handle_ws(raw.ws2);
                Ok((k, 0))
            },
            Node::Import(imp) => {
                if level != AstLevel::Top {
                    return Err(CompileError { msg: "import blocks only allowed at the top level".to_owned() });
                }
                self.handle_ws(imp.ws);
                Ok((k, 0))
            },
            Node::Extends(_) => {
                if level != AstLevel::Top {
                    return Err(CompileError { msg: "extend blocks only allowed at the top level".to_owned() });
                }
                Ok((k, 0))
            },
            Node::Break(ws) => {
                self.handle_ws(*ws);
                let (k2, _) = self.flush_held(buf, codes, k, escaper);
                proof {
                    reveal_strlit("break;");
                    reveal_strlit("}");
                }
                let _ = buf.writeln("break;");
                Ok((k2, 0))
            },
            Node::Continue(ws) => {
                self.handle_ws(*ws);
                let (k2, _) = self.flush_held(buf, codes, k, escaper);
                proof {
                    reveal_strlit("continue;");
                    reveal_strlit("}");
                }
                let _ = buf.writeln("continue;");
                Ok((k2, 0))
            },
            Node::If(i) => self.write_if(ctx, contexts, i, buf, codes, k, escaper, depth),
            Node::Match(m) => self.write_match(ctx, contexts, m, buf, codes, k, escaper, depth),
            Node::Loop(l) => self.write_loop(ctx, contexts, l, buf, codes, k, escaper, depth),
            Node::Call(c) => self.write_call_from(ctx, contexts, buf, c, codes, k, escaper, depth),
            // Other kinds make `node_gen` stop, which the caller rules out.
            _ => Err(CompileError { msg: "node kind not handled by this generator".to_owned() }),
        }
    }

    /// The code for `nodes` (see `nodes_gen`), with the expression codes
    /// taken from `codes` at `k0`.
    fn handle_from(
        &mut self,
        ctx: &'a Context<'a>,
        contexts: &'a Vec<(String, Context<'a>)>,
        nodes: &'a [Node],
        buf: &mut Buffer,
        level: AstLevel,
        codes: &Vec<(String, bool)>,
        k0: usize,
        escaper: &str,
        depth: usize,
    ) -> (r: Result<(usize, usize), CompileError>)
        requires
            k0 <= codes@.len(),
            !(nodes_gen(
                gen_m(*old(self), *old(buf), k0 as nat),
                nodes@,
                level,
                *ctx,
                env_of(contexts@, codes@, escaper@, old(self).whitespace),
                depth as nat,
            ).0 is Stopped),
        ensures
            final(self).whitespace == old(self).whitespace,
            matches_outcome(
                nodes_gen(
                    gen_m(*old(self), *old(buf), k0 as nat),
                    nodes@,
                    level,
                    *ctx,
                    env_of(contexts@, codes@, escaper@, old(self).whitespace),
                    depth as nat,
                ),
                r,
                *final(self),
                *final(buf),
                codes@.len(),
            ),
        decreases depth, nodes@, nodes@.len() + 1,
    {
        let ghost e = env_of(contexts@, codes@, escaper@, self.whitespace);
        let ghost all = nodes@;
        let ghost g0 = gen_m(*self, *buf, k0 as nat);
        let ghost whole = nodes_gen_from(g0, all, 0, level, *ctx, e, depth as nat, 0);
        let mut k: usize = k0;
        let mut acc: usize = 0;
        let mut i: usize = 0;
        while i < nodes.len()
            invariant
                0 <= i <= all.len(),
                all == nodes@,
                e == env_of(contexts@, codes@, escaper@, old(self).whitespace),
                g0 == gen_m(*old(self), *old(buf), k0 as nat),
                self.whitespace == e.d,
                k <= codes@.len(),
                whole == nodes_gen_from(g0, all, 0, level, *ctx, e, depth as nat, 0),
                whole == nodes_gen_from(gen_m(*self, *buf, k as nat), all, i as int, level, *ctx, e, depth as nat, acc as nat),
                !(whole.0 is Stopped),
            decreases nodes.len() - i,
        {
            match self.handle_node(ctx, contexts, &nodes[i], buf, level, codes, k, escaper, depth) {
                Ok((k2, n)) => {
                    k = k2;
                    acc = acc + n;
                },
                Err(e) => {
                    return Err(e);
                },
            }
            i = i + 1;
        }
        if level == AstLevel::Top {
            if self.next_ws.is_some() {
                let m = self.skip_ws.to_whitespace();
                self.flush_ws(Ws(Some(m), None));
            }
            let (k2, size) = self.flush_held(buf, codes, k, escaper);
            Ok((k2, acc + size))
        } else {
            Ok((k, acc))
        }
    }

    /// Generates the code for `nodes` at `level` (see `nodes_gen`): `ctx` is
    /// the template's context and `contexts` those of all templates by
    /// path; `codes` holds, in order, the code of each expression that is
    /// written out, tested or bound, with whether it is already fit for
    /// display; `escaper` is the escaper for the others; `depth` bounds how
    /// deeply macro calls nest. Returns the size hint.
    pub fn handle(
        &mut self,
        ctx: &'a Context<'a>,
        contexts: &'a Vec<(String, Context<'a>)>,
        nodes: &'a [Node],
        buf: &mut Buffer,
        level: AstLevel,
        codes: &Vec<(String, bool)>,
        escaper: &str,
        depth: usize,
    ) -> (r: Result<usize, CompileError>)
        requires
            !(nodes_gen(
                gen_m(*old(self), *old(buf), 0),
                nodes@,
                level,
                *ctx,
                env_of(contexts@, codes@, escaper@, old(self).whitespace),
                depth as nat,
            ).0 is Stopped),
        ensures
            final(self).whitespace == old(self).whitespace,
            match nodes_gen(
                gen_m(*old(self), *old(buf), 0),
                nodes@,
                level,
                *ctx,
                env_of(contexts@, codes@, escaper@, old(self).whitespace),
                depth as nat,
            ) {
                (GenR::Done(g), size) => r == Ok::<usize, CompileError>(size as usize) && gen_m(
                    *final(self),
                    *final(buf),
                    g.k,
                ) == g,
                (GenR::Failed(m), _) => r matches Err(e) && e.msg@ == m,
                (GenR::Stopped, _) => false,
            },
    {
        match self.handle_from(ctx, contexts, nodes, buf, level, codes, 0, escaper, depth) {
            Ok((_, size)) => Ok(size),
            Err(e) => Err(e),
        }
    }
}

impl<'a> Generator<'a> {
    /// The text of a branch's head (see `branch_head`) with the code
    /// `code`.
    fn branch_head_text(c: &Cond, j: usize, code: &str) -> (r: String)
        ensures
            r@ == branch_head(*c, j as int, if c.cond is Some {
                code@
            } else {
                seq![]
            }),
    {
        let mut hb = Buffer::new(0);
        match &c.cond {
            Some(t) => {
                if j > 0 {
                    hb.write("} else if ");
                } else {
                    hb.write("if ");
                }
                match &t.target {
                    Some(tt) => {
                        hb.write("let ");
                        let mut scratch = MapChain::new();
                        scratch.visit_target(&mut hb, true, true, tt);
                        hb.write(" = &(");
                        hb.write(code);
                        hb.write(")");
                    },
                    None => {
                        hb.write("*(&(");
                        hb.write(code);
                        hb.write(") as &bool)");
                    },
                }
            },
            None => {
                hb.write("} else");
            },
        }
        assert(spaces(0) =~= Seq::<char>::empty());
        assert(hb.buf@ =~= branch_head(*c, j as int, if c.cond is Some {
            code@
        } else {
            seq![]
        }));
        hb.buf
    }

    /// Writes a branch's head (see `branch_head`) with the code `code`:
    /// dedented first where the branch closes the previous one.
    fn write_branch_head(buf: &mut Buffer, c: &Cond, j: usize, code: &str) -> (r: Result<(), CompileError>)
        ensures
            branch_dedents(*c, j as int) && old(buf).indent == 0 ==> (r matches Err(x) && x.msg@
                == "dedent() called while indentation == 0"@),
            !(branch_dedents(*c, j as int) && old(buf).indent == 0) ==> ({
                let ind: u8 = if branch_dedents(*c, j as int) {
                    (old(buf).indent - 1) as u8
                } else {
                    old(buf).indent
                };
                &&& r is Ok
                &&& final(buf).buf@ == old(buf).buf@ + written(
                    old(buf).start,
                    ind,
                    branch_head(*c, j as int, if c.cond is Some {
                        code@
                    } else {
                        seq![]
                    }),
                )
                &&& final(buf).indent == ind
                &&& !final(buf).start
            }),
    {
        let dedents = j > 0 || c.cond.is_none();
        if dedents {
            match buf.dedent() {
                Ok(()) => {},
                Err(x) => {
                    return Err(x);
                },
            }
        }
        let head = Self::branch_head_text(c, j, code);
        buf.write(head.as_str());
        Ok(())
    }

    /// One branch of an `if` (see `if_step`): returns where the codes
    /// continue, what was written out before it added to `flushed`, its
    /// size, and whether it was the `else`.
    #[verifier::rlimit(100)]
    #[verifier::spinoff_prover]
    fn write_branch(
        &mut self,
        ctx: &'a Context<'a>,
        contexts: &'a Vec<(String, Context<'a>)>,
        c: &'a Cond,
        j: usize,
        buf: &mut Buffer,
        codes: &Vec<(String, bool)>,
        k: usize,
        flushed: usize,
        has_else: bool,
        Ghost(sizes): Ghost<Seq<usize>>,
        escaper: &str,
        depth: usize,
    ) -> (r: Result<(usize, usize, usize, bool), CompileError>)
        requires
            k <= codes@.len(),
            !(if_step(
                IfAcc { g: gen_m(*old(self), *old(buf), k as nat), flushed: flushed as nat, sizes, has_else },
                *c,
                j as int,
                *ctx,
                env_of(contexts@, codes@, escaper@, old(self).whitespace),
                depth as nat,
            ) is Stopped),
        ensures
            final(self).whitespace == old(self).whitespace,
            match if_step(
                IfAcc { g: gen_m(*old(self), *old(buf), k as nat), flushed: flushed as nat, sizes, has_else },
                *c,
                j as int,
                *ctx,
                env_of(contexts@, codes@, escaper@, old(self).whitespace),
                depth as nat,
            ) {
                IfR::Done(acc) => match r {
                    Ok((k2, fl, n, he)) => k2 <= codes@.len() && acc == (IfAcc {
                        g: gen_m(*final(self), *final(buf), k2 as nat),
                        flushed: fl as nat,
                        sizes: sizes.push(n),
                        has_else: he,
                    }),
                    Err(_) => false,
                },
                IfR::Failed(m) => match r {
                    Ok(_) => false,
                    Err(x) => x.msg@ == m,
                },
                IfR::Stopped => false,
            },
        decreases depth, *c, 0int,
    {
        let ghost e = env_of(contexts@, codes@, escaper@, self.whitespace);
        let cl = codes.len();
        self.handle_ws(c.ws);
        let (k1, f) = self.flush_held(buf, codes, k, escaper);
        let fl = flushed + f;
        let ghost g2 = gen_m(*self, *buf, k1 as nat);
        let (code, k2): (&str, usize) = match &c.cond {
            Some(_) => (codes[k1].0.as_str(), k1 + 1),
            None => ("", k1),
        };
        match Self::write_branch_head(buf, c, j, code) {
            Ok(()) => {},
            Err(x) => {
                return Err(x);
            },
        }
        let ghost b1 = buf.buf@;
        proof {
            reveal_strlit(" {");
            reveal_strlit("}");
        }
        let _ = buf.writeln(" {");
        proof {
            let ind = if branch_dedents(*c, j as int) {
                (g2.indent - 1) as u8
            } else {
                g2.indent
            };
            let code_s = if c.cond is Some {
                e.codes[g2.k as int].0
            } else {
                seq![]
            };
            if c.cond is Some {
                assert(e.codes[k1 as int] == (codes@[k1 as int].0@, codes@[k1 as int].1));
                assert(code@ == code_s);
            }
            assert(buf.buf@ =~= g2.out + written(g2.start, ind, branch_head(*c, j as int, code_s) + " {"@)
                + seq!['\n']);
        }
        let (k3, n) = match self.handle_from(
            ctx,
            contexts,
            c.nodes.as_slice(),
            buf,
            AstLevel::Nested,
            codes,
            k2,
            escaper,
            depth,
        ) {
            Ok(p) => p,
            Err(x) => {
                return Err(x);
            },
        };
        let he = match &c.cond {
            Some(_) => has_else,
            None => true,
        };
        Ok((k3, fl, n, he))
    }

    /// Writes the code for an `if` block (see `if_gen`).
    #[verifier::rlimit(60)]
    #[verifier::spinoff_prover]
    fn write_if(
        &mut self,
        ctx: &'a Context<'a>,
        contexts: &'a Vec<(String, Context<'a>)>,
        i: &'a If,
        buf: &mut Buffer,
        codes: &Vec<(String, bool)>,
        k0: usize,
        escaper: &str,
        depth: usize,
    ) -> (r: Result<(usize, usize), CompileError>)
        requires
            k0 <= codes@.len(),
            !(if_gen(
                gen_m(*old(self), *old(buf), k0 as nat),
                *i,
                *ctx,
                env_of(contexts@, codes@, escaper@, old(self).whitespace),
                depth as nat,
            ).0 is Stopped),
        ensures
            final(self).whitespace == old(self).whitespace,
            matches_outcome(
                if_gen(
                    gen_m(*old(self), *old(buf), k0 as nat),
                    *i,
                    *ctx,
                    env_of(contexts@, codes@, escaper@, old(self).whitespace),
                    depth as nat,
                ),
                r,
                *final(self),
                *final(buf),
                codes@.len(),
            ),
        decreases depth, *i, 1int,
    {
        let ghost e = env_of(contexts@, codes@, escaper@, self.whitespace);
        let ghost bs = i.branches@;
        let ghost acc0 = IfAcc { g: gen_m(*self, *buf, k0 as nat), flushed: 0, sizes: seq![], has_else: false };
        let ghost whole = if_branches(acc0, bs, 0, *ctx, e, depth as nat);
        let mut sizes: Vec<usize> = Vec::new();
        let mut flushed: usize = 0;
        let mut has_else = false;
        let mut k: usize = k0;
        let mut j: usize = 0;
        while j < i.branches.len()
            invariant
                j <= bs.len(),
                bs == i.branches@,
                e == env_of(contexts@, codes@, escaper@, old(self).whitespace),
                self.whitespace == e.d,
                k <= codes@.len(),
                acc0 == (IfAcc { g: gen_m(*old(self), *old(buf), k0 as nat), flushed: 0, sizes: seq![], has_else: false }),
                whole == if_branches(acc0, bs, 0, *ctx, e, depth as nat),
                whole == if_branches(
                    IfAcc { g: gen_m(*self, *buf, k as nat), flushed: flushed as nat, sizes: sizes@, has_else },
                    bs,
                    j as int,
                    *ctx,
                    e,
                    depth as nat,
                ),
                !(whole is Stopped),
            decreases i.branches.len() - j,
        {
            let ghost sz = sizes@;
            proof {
                assert(bs[j as int] == i.branches@[j as int]);
            }
            match self.write_branch(
                ctx,
                contexts,
                &i.branches[j],
                j,
                buf,
                codes,
                k,
                flushed,
                has_else,
                Ghost(sz),
                escaper,
                depth,
            ) {
                Ok((k2, fl, n, he)) => {
                    k = k2;
                    flushed = fl;
                    has_else = he;
                    sizes.push(n);
                },
                Err(x) => {
                    return Err(x);
                },
            }
            j = j + 1;
        }
        self.handle_ws(i.ws);
        let (k3, f) = self.flush_held(buf, codes, k, escaper);
        flushed = flushed + f;
        proof {
            reveal_strlit("}");
        }
        match buf.writeln("}") {
            Ok(()) => {},
            Err(x) => {
                return Err(x);
            },
        }
        if !has_else {
            sizes.push(0);
        }
        let m = median(&mut sizes);
        Ok((k3, flushed + m))
    }
}

impl<'a> Generator<'a> {
    /// Closes a macro call (see `call_close`).
    fn call_close_exec(
        &mut self,
        buf: &mut Buffer,
        def: &'a Macro,
        call: &'a Call,
        codes: &Vec<(String, bool)>,
        k: usize,
        n1: usize,
        escaper: &str,
        contexts: &'a Vec<(String, Context<'a>)>,
    ) -> (r: Result<(usize, usize), CompileError>)
        requires
            k <= codes@.len(),
            !(call_close(
                gen_m(*old(self), *old(buf), k as nat),
                n1 as nat,
                *def,
                *call,
                env_of(contexts@, codes@, escaper@, old(self).whitespace),
            ).0 is Stopped),
        ensures
            final(self).whitespace == old(self).whitespace,
            matches_outcome(
                call_close(
                    gen_m(*old(self), *old(buf), k as nat),
                    n1 as nat,
                    *def,
                    *call,
                    env_of(contexts@, codes@, escaper@, old(self).whitespace),
                ),
                r,
                *final(self),
                *final(buf),
                codes@.len(),
            ),
    {
        self.flush_ws(def.ws2);
        let (k4, n2) = self.flush_held(buf, codes, k, escaper);
        proof {
            reveal_strlit("}");
        }
        match buf.writeln("}") {
            Ok(()) => {},
            Err(e) => {
                return Err(e);
            },
        }
        self.prepare_ws(call.ws);
        Ok((k4, n1 + n2))
    }

    /// Inside a macro call's block (see `call_inside`).
    #[verifier::rlimit(60)]
    #[verifier::spinoff_prover]
    fn call_inside_exec(
        &mut self,
        contexts: &'a Vec<(String, Context<'a>)>,
        buf: &mut Buffer,
        def: &'a Macro,
        mctx: &'a Context<'a>,
        call: &'a Call,
        codes: &Vec<(String, bool)>,
        k: usize,
        escaper: &str,
        depth: usize,
    ) -> (r: Result<(usize, usize), CompileError>)
        requires
            k <= codes@.len(),
            !(call_inside(
                gen_m(*old(self), *old(buf), k as nat),
                *def,
                *mctx,
                *call,
                env_of(contexts@, codes@, escaper@, old(self).whitespace),
                depth as nat,
            ).0 is Stopped),
        ensures
            final(self).whitespace == old(self).whitespace,
            matches_outcome(
                call_inside(
                    gen_m(*old(self), *old(buf), k as nat),
                    *def,
                    *mctx,
                    *call,
                    env_of(contexts@, codes@, escaper@, old(self).whitespace),
                    depth as nat,
                ),
                r,
                *final(self),
                *final(buf),
                codes@.len(),
            ),
        decreases depth, Node::Call(*call), 0int,
    {
        let b = match bind_macro_args(call.name.as_str(), &def.args, &call.args) {
            Ok(b) => b,
            Err(e) => {
                return Err(e);
            },
        };
        let ghost bi = b@.map_values(|x: usize| x as int);
        proof {
            assert(bi =~= macro_binding(call.name@, names_m(def.args@), call.args@)->Ok_0);
            assert forall|i: int| 0 <= i < b@.len() implies b@[i] < call.args@.len() by {
                lemma_binding_in_range(call.name@, names_m(def.args@), call.args@, i);
                assert(bi[i] == b@[i] as int);
            }
            assert(b@.len() == def.args@.len());
        }
        let (names, values, k2) = match Self::bind_values(&def.args, &call.args, &b, codes, k) {
            Some(t) => t,
            None => {
                return Err(CompileError { msg: "expression codes ran out".to_owned() });
            },
        };
        if depth == 0 {
            return Err(CompileError { msg: "macro calls nested too deeply".to_owned() });
        }
        if !names.as_str().is_empty() {
            let mut line = "let (".to_owned();
            string_push_str(&mut line, names.as_str());
            string_push_str(&mut line, ") = (");
            string_push_str(&mut line, values.as_str());
            string_push_str(&mut line, ");");
            proof {
                reveal_strlit(");");
                reveal_strlit("}");
                assert(line@.last() == ';');
            }
            let _ = buf.writeln(line.as_str());
        }
        let (k3, n1) = match self.handle_from(
            mctx,
            contexts,
            def.nodes.as_slice(),
            buf,
            AstLevel::Nested,
            codes,
            k2,
            escaper,
            depth - 1,
        ) {
            Ok(p) => p,
            Err(e) => {
                return Err(e);
            },
        };
        self.call_close_exec(buf, def, call, codes, k3, n1, escaper, contexts)
    }

    /// `write_call`, with the expression codes taken from `codes` at `k0`.
    fn write_call_from(
        &mut self,
        ctx: &'a Context<'a>,
        contexts: &'a Vec<(String, Context<'a>)>,
        buf: &mut Buffer,
        call: &'a Call,
        codes: &Vec<(String, bool)>,
        k0: usize,
        escaper: &str,
        depth: usize,
    ) -> (r: Result<(usize, usize), CompileError>)
        requires
            k0 <= codes@.len(),
            !(call_gen(
                gen_m(*old(self), *old(buf), k0 as nat),
                *ctx,
                *call,
                env_of(contexts@, codes@, escaper@, old(self).whitespace),
                depth as nat,
            ).0 is Stopped),
        ensures
            final(self).whitespace == old(self).whitespace,
            matches_outcome(
                call_gen(
                    gen_m(*old(self), *old(buf), k0 as nat),
                    *ctx,
                    *call,
                    env_of(contexts@, codes@, escaper@, old(self).whitespace),
                    depth as nat,
                ),
                r,
                *final(self),
                *final(buf),
                codes@.len(),
            ),
        decreases depth, Node::Call(*call), 1int,
    {
        if str_eq(call.name.as_str(), "super") {
            return Err(CompileError { msg: "cannot call 'super()' outside block".to_owned() });
        }
        let scope: Option<&str> = match &call.scope {
            Some(s) => Some(s.as_str()),
            None => None,
        };
        let (def, mctx) = match find_macro(ctx, contexts, scope, call.name.as_str()) {
            Ok(p) => p,
            Err(e) => {
                return Err(e);
            },
        };
        self.flush_ws(call.ws);
        let (k1, _) = self.flush_held(buf, codes, k0, escaper);
        proof {
            reveal_strlit("{");
            reveal_strlit("}");
        }
        let _ = buf.writeln("{");
        self.prepare_ws(def.ws1);
        self.call_inside_exec(contexts, buf, def, mctx, call, codes, k1, escaper, depth)
    }

    /// Writes the code for a call of a macro (see `call_gen`): `ctx` is the
    /// calling template's context, `contexts` those of all templates by
    /// path; `codes` holds, in order, the code of each expression value
    /// that is written out, tested or bound to a parameter; `depth` bounds
    /// how deeply macro calls nest.
    pub fn write_call(
        &mut self,
        ctx: &'a Context<'a>,
        contexts: &'a Vec<(String, Context<'a>)>,
        buf: &mut Buffer,
        call: &'a Call,
        codes: &Vec<(String, bool)>,
        escaper: &str,
        depth: usize,
    ) -> (r: Result<usize, CompileError>)
        requires
            !(call_gen(
                gen_m(*old(self), *old(buf), 0),
                *ctx,
                *call,
                env_of(contexts@, codes@, escaper@, old(self).whitespace),
                depth as nat,
            ).0 is Stopped),
        ensures
            final(self).whitespace == old(self).whitespace,
            match call_gen(
                gen_m(*old(self), *old(buf), 0),
                *ctx,
                *call,
                env_of(contexts@, codes@, escaper@, old(self).whitespace),
                depth as nat,
            ) {
                (GenR::Done(g), n) => r == Ok::<usize, CompileError>(n as usize) && gen_m(
                    *final(self),
                    *final(buf),
                    g.k,
                ) == g,
                (GenR::Failed(m), _) => r matches Err(e) && e.msg@ == m,
                (GenR::Stopped, _) => false,
            },
    {
        match self.write_call_from(ctx, contexts, buf, call, codes, 0, escaper, depth) {
            Ok((_, n)) => Ok(n),
            Err(e) => Err(e),
        }
    }
}

impl<'a> Generator<'a> {
    /// Closes the previous arm of a `match` (see `arm_close`).
    fn close_arm(
        &mut self,
        buf: &mut Buffer,
        codes: &Vec<(String, bool)>,
        k: usize,
        arm: usize,
        escaper: &str,
        contexts: &'a Vec<(String, Context<'a>)>,
    ) -> (r: Result<(usize, usize), CompileError>)
        requires
            k <= codes@.len(),
            arm_close(
                gen_m(*old(self), *old(buf), k as nat),
                arm as nat,
                env_of(contexts@, codes@, escaper@, old(self).whitespace),
            ) is Some,
        ensures
            final(self).whitespace == old(self).whitespace,
            match arm_close(
                gen_m(*old(self), *old(buf), k as nat),
                arm as nat,
                env_of(contexts@, codes@, escaper@, old(self).whitespace),
            ) {
                Some(Ok((g, s))) => match r {
                    Ok((k2, s2)) => k2 <= codes@.len() && s2 == s && gen_m(*final(self), *final(buf), k2 as nat)
                        == g,
                    Err(_) => false,
                },
                Some(Err(m)) => match r {
                    Ok(_) => false,
                    Err(x) => x.msg@ == m,
                },
                None => false,
            },
    {
        let (kf, s) = self.flush_held(buf, codes, k, escaper);
        proof {
            reveal_strlit("}");
        }
        match buf.writeln("}") {
            Ok(()) => {},
            Err(x) => {
                return Err(x);
            },
        }
        Ok((kf, arm + s))
    }

    /// One arm of a `match` (see `match_step`): returns where the codes
    /// continue, the size of the arm it closed (if any), and its own size.
    #[verifier::rlimit(100)]
    #[verifier::spinoff_prover]
    fn write_arm(
        &mut self,
        ctx: &'a Context<'a>,
        contexts: &'a Vec<(String, Context<'a>)>,
        w: &'a When,
        j: usize,
        buf: &mut Buffer,
        codes: &Vec<(String, bool)>,
        k: usize,
        arm: usize,
        Ghost(sizes): Ghost<Seq<usize>>,
        escaper: &str,
        depth: usize,
    ) -> (r: Result<(usize, Option<usize>, usize), CompileError>)
        requires
            k <= codes@.len(),
            !(match_step(
                MatchAcc { g: gen_m(*old(self), *old(buf), k as nat), sizes, arm: arm as nat },
                *w,
                j as int,
                *ctx,
                env_of(contexts@, codes@, escaper@, old(self).whitespace),
                depth as nat,
            ) is Stopped),
        ensures
            final(self).whitespace == old(self).whitespace,
            match match_step(
                MatchAcc { g: gen_m(*old(self), *old(buf), k as nat), sizes, arm: arm as nat },
                *w,
                j as int,
                *ctx,
                env_of(contexts@, codes@, escaper@, old(self).whitespace),
                depth as nat,
            ) {
                MatchR::Done(acc) => match r {
                    Ok((k2, closed, n)) => k2 <= codes@.len() && acc == (MatchAcc {
                        g: gen_m(*final(self), *final(buf), k2 as nat),
                        sizes: match closed {
                            Some(s) => sizes.push(s),
                            None => sizes,
                        },
                        arm: n as nat,
                    }),
                    Err(_) => false,
                },
                MatchR::Failed(m) => match r {
                    Ok(_) => false,
                    Err(x) => x.msg@ == m,
                },
                MatchR::Stopped => false,
            },
        decreases depth, *w, 0int,
    {
        let ghost e = env_of(contexts@, codes@, escaper@, self.whitespace);
        let ghost acc = MatchAcc { g: gen_m(*self, *buf, k as nat), sizes, arm: arm as nat };
        self.handle_ws(w.ws);
        let ghost g1 = gen_m(*self, *buf, k as nat);
        assert(g1 == with_pend(acc.g, handle_m(acc.g.pend, w.ws, e.d)));
        let mut k1 = k;
        let mut closed: Option<usize> = None;
        if j > 0 {
            match self.close_arm(buf, codes, k, arm, escaper, contexts) {
                Ok((kf, s)) => {
                    k1 = kf;
                    closed = Some(s);
                },
                Err(x) => {
                    return Err(x);
                },
            }
        }
        let ghost g2 = gen_m(*self, *buf, k1 as nat);
        let ghost sizes2 = match closed {
            Some(s) => sizes.push(s),
            None => sizes,
        };
        assert(j > 0 ==> arm_close(g1, arm as nat, e) == Some(Ok::<(GenM, nat), Seq<char>>((g2, closed.unwrap() as nat))));
        let mut scratch = MapChain::new();
        scratch.visit_target(buf, true, true, &w.target);
        proof {
            reveal_strlit(" => {");
            reveal_strlit("}");
        }
        let _ = buf.writeln(" => {");
        proof {
            assert(buf.buf@ =~= g2.out + written(g2.start, g2.indent, target_code(w.target, true) + " => {"@)
                + seq!['\n']);
            assert(open_line(g2, target_code(w.target, true) + " => {"@) == Some(gen_m(*self, *buf, k1 as nat)));
        }
        let (k3, n) = match self.handle_from(
            ctx,
            contexts,
            w.nodes.as_slice(),
            buf,
            AstLevel::Nested,
            codes,
            k1,
            escaper,
            depth,
        ) {
            Ok(p) => p,
            Err(x) => {
                return Err(x);
            },
        };
        Ok((k3, closed, n))
    }

    /// Writes the code for a `match` block (see `match_gen`).
    #[verifier::rlimit(100)]
    #[verifier::spinoff_prover]
    fn write_match(
        &mut self,
        ctx: &'a Context<'a>,
        contexts: &'a Vec<(String, Context<'a>)>,
        m: &'a Match,
        buf: &mut Buffer,
        codes: &Vec<(String, bool)>,
        k0: usize,
        escaper: &str,
        depth: usize,
    ) -> (r: Result<(usize, usize), CompileError>)
        requires
            k0 <= codes@.len(),
            !(match_gen(
                gen_m(*old(self), *old(buf), k0 as nat),
                *m,
                *ctx,
                env_of(contexts@, codes@, escaper@, old(self).whitespace),
                depth as nat,
            ).0 is Stopped),
        ensures
            final(self).whitespace == old(self).whitespace,
            matches_outcome(
                match_gen(
                    gen_m(*old(self), *old(buf), k0 as nat),
                    *m,
                    *ctx,
                    env_of(contexts@, codes@, escaper@, old(self).whitespace),
                    depth as nat,
                ),
                r,
                *final(self),
                *final(buf),
                codes@.len(),
            ),
        decreases depth, *m, 1int,
    {
        let ghost e = env_of(contexts@, codes@, escaper@, self.whitespace);
        let cl = codes.len();
        self.flush_ws(m.ws1);
        let (k1, flushed) = self.flush_held(buf, codes, k0, escaper);
        let ghost g2 = gen_m(*self, *buf, k1 as nat);
        let mut line = "match &".to_owned();
        string_push_str(&mut line, codes[k1].0.as_str());
        string_push_str(&mut line, " {");
        proof {
            reveal_strlit(" {");
            reveal_strlit("}");
            assert(e.codes[k1 as int] == (codes@[k1 as int].0@, codes@[k1 as int].1));
            assert(line@.last() == '{');
        }
        let _ = buf.writeln(line.as_str());
        let mut k = k1 + 1;
        let ghost ws = m.arms@;
        let ghost acc0 = MatchAcc { g: gen_m(*self, *buf, k as nat), sizes: seq![], arm: 0 };
        let ghost whole = match_arms(acc0, ws, 0, *ctx, e, depth as nat);
        proof {
            assert(buf.buf@ =~= g2.out + written(g2.start, g2.indent, "match &"@ + e.codes[g2.k as int].0 + " {"@)
                + seq!['\n']);
        }
        let mut sizes: Vec<usize> = Vec::new();
        let mut arm: usize = 0;
        let mut j: usize = 0;
        while j < m.arms.len()
            invariant
                j <= ws.len(),
                ws == m.arms@,
                e == env_of(contexts@, codes@, escaper@, old(self).whitespace),
                self.whitespace == e.d,
                k <= codes@.len(),
                whole == match_arms(
                    MatchAcc { g: gen_m(*self, *buf, k as nat), sizes: sizes@, arm: arm as nat },
                    ws,
                    j as int,
                    *ctx,
                    e,
                    depth as nat,
                ),
                !(whole is Stopped),
                forall|x: Seq<char>| whole == MatchR::Failed(x) ==> match_gen(
                    gen_m(*old(self), *old(buf), k0 as nat),
                    *m,
                    *ctx,
                    e,
                    depth as nat,
                ).0 == GenR::Failed(x),
            decreases m.arms.len() - j,
        {
            let ghost sz = sizes@;
            proof {
                assert(ws[j as int] == m.arms@[j as int]);
            }
            match self.write_arm(ctx, contexts, &m.arms[j], j, buf, codes, k, arm, Ghost(sz), escaper, depth) {
                Ok((k2, closed, n)) => {
                    k = k2;
                    match closed {
                        Some(s) => {
                            sizes.push(s);
                        },
                        None => {},
                    }
                    arm = n;
                },
                Err(x) => {
                    return Err(x);
                },
            }
            j = j + 1;
        }
        self.handle_ws(m.ws2);
        let (k3, s) = self.flush_held(buf, codes, k, escaper);
        sizes.push(arm + s);
        proof {
            reveal_strlit("}");
        }
        match buf.writeln("}") {
            Ok(()) => {},
            Err(x) => {
                return Err(x);
            },
        }
        match buf.writeln("}") {
            Ok(()) => {},
            Err(x) => {
                return Err(x);
            },
        }
        let md = median(&mut sizes);
        Ok((k3, flushed + md))
    }
}

impl<'a> Generator<'a> {
    /// Writes a line that neither closes nor opens a block.
    fn plain_line(buf: &mut Buffer, s: &str)
        requires
            s@.len() > 0,
            s@ != "}"@,
            s@.last() != '{',
        ensures
            final(buf).buf@ == old(buf).buf@ + written(old(buf).start, old(buf).indent, s@) + seq!['\n'],
            final(buf).indent == old(buf).indent,
            final(buf).start,
    {
        let _ = buf.writeln(s);
    }

    /// The start of a loop (see `loop_head`): returns where the codes
    /// continue and the size of what was written out.
    #[verifier::rlimit(100)]
    #[verifier::spinoff_prover]
    fn write_loop_head(
        &mut self,
        l: &'a Loop,
        buf: &mut Buffer,
        codes: &Vec<(String, bool)>,
        k: usize,
        escaper: &str,
        contexts: &'a Vec<(String, Context<'a>)>,
    ) -> (r: (usize, usize))
        requires
            k <= codes@.len(),
            loop_head(
                gen_m(*old(self), *old(buf), k as nat),
                *l,
                env_of(contexts@, codes@, escaper@, old(self).whitespace),
            ) is Some,
        ensures
            final(self).whitespace == old(self).whitespace,
            r.0 <= codes@.len(),
            loop_head(
                gen_m(*old(self), *old(buf), k as nat),
                *l,
                env_of(contexts@, codes@, escaper@, old(self).whitespace),
            ) == Some((gen_m(*final(self), *final(buf), r.0 as nat), r.1 as nat)),
    {
        let ghost e = env_of(contexts@, codes@, escaper@, self.whitespace);
        let cl = codes.len();
        self.handle_ws(l.ws1);
        let code = codes[k].0.as_str();
        proof {
            assert(e.codes[k as int] == (codes@[k as int].0@, codes@[k as int].1));
        }
        let has_else = l.else_nodes.len() > 0;
        let (k1, fl) = self.flush_held(buf, codes, k + 1, escaper);
        proof {
            reveal_strlit("{");
            reveal_strlit("}");
            reveal_strlit("let mut _did_loop = false;");
            reveal_strlit("_did_loop = true;");
        }
        let _ = buf.writeln("{");
        if has_else {
            Self::plain_line(buf, "let mut _did_loop = false;");
        }
        let iter_line = loop_iter_line(&l.iter, code);
        proof {
            reveal_strlit(";");
            reveal_strlit(".iter();");
            reveal_strlit(").into_iter();");
            assert(iter_line@.last() == ';');
            assert(iter_line@ != "}"@);
        }
        Self::plain_line(buf, iter_line.as_str());
        let mut k2 = k1;
        match &l.cond {
            Some(_) => {
                let mut hb = Buffer::new(0);
                hb.write("let _iter = _iter.filter(|");
                let mut scratch = MapChain::new();
                scratch.visit_target(&mut hb, true, true, &l.var);
                hb.write("| -> bool {");
                hb.write(codes[k1].0.as_str());
                hb.write("});");
                proof {
                    reveal_strlit("});");
                    assert(spaces(0) =~= Seq::<char>::empty());
                    assert(e.codes[k1 as int] == (codes@[k1 as int].0@, codes@[k1 as int].1));
                    assert(hb.buf@ =~= filter_line(l.var, e.codes[k1 as int].0));
                    assert(hb.buf@.last() == ';');
                    assert(hb.buf@ != "}"@);
                }
                Self::plain_line(buf, hb.buf.as_str());
                k2 = k1 + 1;
            },
            None => {},
        }
        let mut fb = Buffer::new(0);
        fb.write("for (");
        let mut scratch2 = MapChain::new();
        scratch2.visit_target(&mut fb, true, true, &l.var);
        fb.write(", _loop_item) in ::askama::helpers::TemplateLoop::new(_iter) {");
        proof {
            reveal_strlit(", _loop_item) in ::askama::helpers::TemplateLoop::new(_iter) {");
            assert(spaces(0) =~= Seq::<char>::empty());
            assert(fb.buf@ =~= for_line(l.var));
        }
        let _ = buf.writeln(fb.buf.as_str());
        if has_else {
            Self::plain_line(buf, "_did_loop = true;");
        }
        (k2, fl)
    }
}

impl<'a> Generator<'a> {
    /// The end of a loop (see `loop_tail`).
    #[verifier::rlimit(100)]
    #[verifier::spinoff_prover]
    fn write_loop_tail(
        &mut self,
        ctx: &'a Context<'a>,
        contexts: &'a Vec<(String, Context<'a>)>,
        l: &'a Loop,
        buf: &mut Buffer,
        codes: &Vec<(String, bool)>,
        k: usize,
        s1: usize,
        fl: usize,
        escaper: &str,
        depth: usize,
    ) -> (r: Result<(usize, usize), CompileError>)
        requires
            k <= codes@.len(),
            !(loop_tail(
                gen_m(*old(self), *old(buf), k as nat),
                s1 as nat,
                fl as nat,
                *l,
                *ctx,
                env_of(contexts@, codes@, escaper@, old(self).whitespace),
                depth as nat,
            ).0 is Stopped),
        ensures
            final(self).whitespace == old(self).whitespace,
            matches_outcome(
                loop_tail(
                    gen_m(*old(self), *old(buf), k as nat),
                    s1 as nat,
                    fl as nat,
                    *l,
                    *ctx,
                    env_of(contexts@, codes@, escaper@, old(self).whitespace),
                    depth as nat,
                ),
                r,
                *final(self),
                *final(buf),
                codes@.len(),
            ),
        decreases depth, *l, 0int,
    {
        self.handle_ws(l.ws2);
        let (k1, f1) = self.flush_held(buf, codes, k, escaper);
        let s1b = s1 + f1;
        proof {
            reveal_strlit("}");
            reveal_strlit("if !_did_loop {");
        }
        match buf.writeln("}") {
            Ok(()) => {},
            Err(x) => {
                return Err(x);
            },
        }
        let mut k2 = k1;
        let mut s2b: usize = 0;
        if l.else_nodes.len() > 0 {
            let _ = buf.writeln("if !_did_loop {");
            let (k3, s2) = match self.handle_from(
                ctx,
                contexts,
                l.else_nodes.as_slice(),
                buf,
                AstLevel::Nested,
                codes,
                k1,
                escaper,
                depth,
            ) {
                Ok(p) => p,
                Err(x) => {
                    return Err(x);
                },
            };
            self.handle_ws(l.ws3);
            let (k4, f2) = self.flush_held(buf, codes, k3, escaper);
            s2b = s2 + f2;
            match buf.writeln("}") {
                Ok(()) => {},
                Err(x) => {
                    return Err(x);
                },
            }
            k2 = k4;
        } else {
            self.handle_ws(l.ws3);
            let (k4, f2) = self.flush_held(buf, codes, k1, escaper);
            s2b = f2;
            k2 = k4;
        }
        match buf.writeln("}") {
            Ok(()) => {},
            Err(x) => {
                return Err(x);
            },
        }
        Ok((k2, fl + (s1b * 3 + s2b) / 2))
    }

    /// Writes the code for a `for` loop (see `loop_gen`).
    fn write_loop(
        &mut self,
        ctx: &'a Context<'a>,
        contexts: &'a Vec<(String, Context<'a>)>,
        l: &'a Loop,
        buf: &mut Buffer,
        codes: &Vec<(String, bool)>,
        k0: usize,
        escaper: &str,
        depth: usize,
    ) -> (r: Result<(usize, usize), CompileError>)
        requires
            k0 <= codes@.len(),
            !(loop_gen(
                gen_m(*old(self), *old(buf), k0 as nat),
                *l,
                *ctx,
                env_of(contexts@, codes@, escaper@, old(self).whitespace),
                depth as nat,
            ).0 is Stopped),
        ensures
            final(self).whitespace == old(self).whitespace,
            matches_outcome(
                loop_gen(
                    gen_m(*old(self), *old(buf), k0 as nat),
                    *l,
                    *ctx,
                    env_of(contexts@, codes@, escaper@, old(self).whitespace),
                    depth as nat,
                ),
                r,
                *final(self),
                *final(buf),
                codes@.len(),
            ),
        decreases depth, *l, 1int,
    {
        let (k1, fl) = self.write_loop_head(l, buf, codes, k0, escaper, contexts);
        let (k2, s1) = match self.handle_from(
            ctx,
            contexts,
            l.body.as_slice(),
            buf,
            AstLevel::Nested,
            codes,
            k1,
            escaper,
            depth,
        ) {
            Ok(p) => p,
            Err(x) => {
                return Err(x);
            },
        };
        self.write_loop_tail(ctx, contexts, l, buf, codes, k2, s1, fl, escaper, depth)
    }
}

} // verus!
