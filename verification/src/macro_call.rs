//! Calling a macro: which of the call's arguments is bound to each of the
//! macro's parameters. Arguments are given in order; named arguments
//! (`name = value`) may only come last, and bind the parameter of that name.

use vstd::prelude::*;
use crate::ast::{Expr, Macro};
use crate::heritage::{Context, log_map, macros_log, imports_log, find_ctx};
use crate::config::CompileError;
use crate::parse::{debug_quote, debug_str, decimal, decimal_exec};
use crate::path::contains_str;
use crate::text::{str_eq, string_push_str};

verus! {

/// The name a call argument gives, if it is a named argument.
pub open spec fn arg_name(e: Expr) -> Option<Seq<char>> {
    match e {
        Expr::NamedArgument(n, _) => Some(n@),
        _ => None,
    }
}

/// Where the run of named arguments that ends the first `k` arguments
/// begins.
pub open spec fn named_tail_start(args: Seq<Expr>, k: int) -> int
    decreases k,
{
    if k <= 0 {
        0
    } else if arg_name(args[k - 1]) is Some {
        named_tail_start(args, k - 1)
    } else {
        k
    }
}

/// The first name, going back from argument `k` to argument `start`, that
/// names no parameter.
pub open spec fn unknown_name(params: Seq<Seq<char>>, args: Seq<Expr>, k: int, start: int) -> Option<
    Seq<char>,
>
    decreases k - start,
{
    if k <= start {
        None
    } else {
        let n = arg_name(args[k - 1]).unwrap();
        if !params.contains(n) {
            Some(n)
        } else {
            unknown_name(params, args, k - 1, start)
        }
    }
}

/// The first argument from `j` on, before `end`, that is named `p`.
pub open spec fn named_index(args: Seq<Expr>, p: Seq<char>, j: int, end: int) -> Option<int>
    decreases end - j,
{
    if j >= end {
        None
    } else if arg_name(args[j]) == Some(p) {
        Some(j)
    } else {
        named_index(args, p, j + 1, end)
    }
}

/// The argument bound to parameter `i`: the first named argument of its
/// name in the trailing run from `start`, else the argument at its place.
pub open spec fn bound_at(params: Seq<Seq<char>>, args: Seq<Expr>, start: int, i: int) -> int {
    match named_index(args, params[i], start, args.len() as int) {
        Some(j) => j,
        None => i,
    }
}

/// The first parameter, from `i`, that would take a positional argument
/// after an earlier one took a named argument (`allow` is false once one
/// has).
pub open spec fn misplaced(params: Seq<Seq<char>>, args: Seq<Expr>, start: int, i: int, allow: bool) -> Option<
    int,
>
    decreases params.len() - i,
{
    if i >= params.len() {
        None
    } else if named_index(args, params[i], start, args.len() as int) is Some {
        misplaced(params, args, start, i + 1, false)
    } else if !allow {
        Some(i)
    } else {
        misplaced(params, args, start, i + 1, true)
    }
}

/// Which argument is bound to each parameter of the macro `name`, or why
/// the call is refused: a wrong number of arguments, a named argument that
/// names no parameter, or a parameter left to a positional argument after
/// a named one.
pub open spec fn macro_binding(name: Seq<char>, params: Seq<Seq<char>>, args: Seq<Expr>) -> Result<
    Seq<int>,
    Seq<char>,
> {
    if args.len() != params.len() {
        Err(
            "macro "@ + debug_str(name) + " expected "@ + decimal(params.len()) + " argument"@ + (
            if params.len() != 1 {
                "s"@
            } else {
                ""@
            }) + ", found "@ + decimal(args.len()),
        )
    } else {
        let start = named_tail_start(args, args.len() as int);
        match unknown_name(params, args, args.len() as int, start) {
            Some(n) => Err("no argument named `"@ + n + "` in macro "@ + debug_str(name)),
            None => match misplaced(params, args, start, 0, true) {
                Some(i) => Err(
                    "cannot have unnamed argument (`"@ + params[i] + "`) after named argument in macro "@
                        + debug_str(name),
                ),
                None => Ok(Seq::new(params.len(), |i: int| bound_at(params, args, start, i))),
            },
        }
    }
}

/// A named argument found lies within the arguments searched.
proof fn lemma_named_index_range(args: Seq<Expr>, p: Seq<char>, j: int, end: int)
    requires
        0 <= j,
    ensures
        named_index(args, p, j, end) matches Some(x) ==> j <= x < end,
    decreases end - j,
{
    if j < end && arg_name(args[j]) != Some(p) {
        lemma_named_index_range(args, p, j + 1, end);
    }
}

/// Every parameter is bound to one of the call's arguments.
pub(crate) proof fn lemma_binding_in_range(name: Seq<char>, params: Seq<Seq<char>>, args: Seq<Expr>, i: int)
    requires
        macro_binding(name, params, args) is Ok,
        0 <= i < macro_binding(name, params, args)->Ok_0.len(),
    ensures
        0 <= macro_binding(name, params, args)->Ok_0[i] < args.len(),
{
    let start = named_tail_start(args, args.len() as int);
    lemma_named_tail_start_range(args, args.len() as int);
    lemma_named_index_range(args, params[i], start, args.len() as int);
}

proof fn lemma_named_tail_start_range(args: Seq<Expr>, k: int)
    requires
        0 <= k,
    ensures
        0 <= named_tail_start(args, k) <= k,
    decreases k,
{
    if k > 0 {
        lemma_named_tail_start_range(args, k - 1);
    }
}

/// The parameters' names, as text.
pub open spec fn names_m(params: Seq<String>) -> Seq<Seq<char>> {
    params.map_values(|s: String| s@)
}

fn named_arg(e: &Expr) -> (r: Option<&String>)
    ensures
        match arg_name(*e) {
            Some(n) => r matches Some(x) && x@ == n,
            None => r is None,
        },
{
    match e {
        Expr::NamedArgument(n, _) => Some(n),
        _ => None,
    }
}

fn find_named(args: &Vec<Expr>, p: &String, start: usize) -> (r: Option<usize>)
    requires
        start <= args@.len(),
    ensures
        match named_index(args@, p@, start as int, args@.len() as int) {
            Some(j) => r matches Some(x) && x as int == j,
            None => r is None,
        },
{
    let mut j = start;
    while j < args.len()
        invariant
            start <= j <= args@.len(),
            named_index(args@, p@, start as int, args@.len() as int) == named_index(
                args@,
                p@,
                j as int,
                args@.len() as int,
            ),
        decreases args.len() - j,
    {
        match named_arg(&args[j]) {
            Some(n) => {
                if str_eq(n.as_str(), p.as_str()) {
                    return Some(j);
                }
            },
            None => {},
        }
        j = j + 1;
    }
    None
}

/// Binds the arguments of a call of the macro `name` to its parameters:
/// for each parameter, the index of the argument it takes.
pub fn bind_macro_args(name: &str, params: &Vec<String>, args: &Vec<Expr>) -> (r: Result<
    Vec<usize>,
    CompileError,
>)
    ensures
        match macro_binding(name@, names_m(params@), args@) {
            Ok(b) => r matches Ok(v) && v@.len() == b.len() && forall|i: int|
                0 <= i < b.len() ==> v@[i] as int == b[i],
            Err(m) => r matches Err(e) && e.msg@ == m,
        },
{
    let ghost ps = names_m(params@);
    if args.len() != params.len() {
        let mut msg = "macro ".to_owned();
        string_push_str(&mut msg, debug_quote(name).as_str());
        string_push_str(&mut msg, " expected ");
        let np = decimal_exec(params.len() as u128);
        assert(np@ == decimal(ps.len()));
        string_push_str(&mut msg, np.as_str());
        string_push_str(&mut msg, " argument");
        let plural = if params.len() != 1 {
            "s"
        } else {
            ""
        };
        string_push_str(&mut msg, plural);
        string_push_str(&mut msg, ", found ");
        let na = decimal_exec(args.len() as u128);
        assert(na@ == decimal(args@.len()));
        string_push_str(&mut msg, na.as_str());
        assert(msg@ =~= macro_binding(name@, ps, args@).get_Err_0());
        return Err(CompileError { msg });
    }
    let mut start = args.len();
    loop
        invariant
            start <= args@.len(),
            named_tail_start(args@, args@.len() as int) == named_tail_start(args@, start as int),
            forall|j: int| start <= j < args@.len() ==> arg_name(#[trigger] args@[j]) is Some,
        ensures
            start <= args@.len(),
            named_tail_start(args@, args@.len() as int) == start,
            forall|j: int| start <= j < args@.len() ==> arg_name(#[trigger] args@[j]) is Some,
        decreases start,
    {
        if start == 0 {
            break;
        }
        if named_arg(&args[start - 1]).is_none() {
            break;
        }
        start = start - 1;
    }
    let mut k = args.len();
    while k > start
        invariant
            start <= k <= args@.len(),
            params@.len() == args@.len(),
            start == named_tail_start(args@, args@.len() as int),
            ps == names_m(params@),
            forall|j: int| start <= j < args@.len() ==> arg_name(#[trigger] args@[j]) is Some,
            unknown_name(ps, args@, args@.len() as int, start as int) == unknown_name(
                ps,
                args@,
                k as int,
                start as int,
            ),
        decreases k,
    {
        let n = named_arg(&args[k - 1]).unwrap();
        if !contains_str(params, n) {
            let mut msg = "no argument named `".to_owned();
            string_push_str(&mut msg, n.as_str());
            string_push_str(&mut msg, "` in macro ");
            string_push_str(&mut msg, debug_quote(name).as_str());
            assert(ps =~= params@.map_values(|x: String| x@));
            assert(msg@ =~= macro_binding(name@, ps, args@).get_Err_0());
            return Err(CompileError { msg });
        }
        k = k - 1;
    }
    let mut out: Vec<usize> = Vec::new();
    let mut allow = true;
    let mut i: usize = 0;
    while i < params.len()
        invariant
            i <= params@.len(),
            params@.len() == args@.len(),
            start <= args@.len(),
            start == named_tail_start(args@, args@.len() as int),
            unknown_name(ps, args@, args@.len() as int, start as int) is None,
            ps == names_m(params@),
            misplaced(ps, args@, start as int, 0, true) == misplaced(
                ps,
                args@,
                start as int,
                i as int,
                allow,
            ),
            out@.len() == i,
            forall|m: int| 0 <= m < i ==> out@[m] as int == bound_at(ps, args@, start as int, m),
        decreases params.len() - i,
    {
        assert(ps[i as int] == params@[i as int]@);
        match find_named(args, &params[i], start) {
            Some(j) => {
                allow = false;
                out.push(j);
            },
            None => {
                if !allow {
                    let mut msg = "cannot have unnamed argument (`".to_owned();
                    string_push_str(&mut msg, params[i].as_str());
                    string_push_str(&mut msg, "`) after named argument in macro ");
                    string_push_str(&mut msg, debug_quote(name).as_str());
                    assert(msg@ =~= macro_binding(name@, ps, args@).get_Err_0());
                    return Err(CompileError { msg });
                }
                out.push(i);
            },
        }
        i = i + 1;
    }
    Ok(out)
}

// ---------------------------------------------------------------------------
// Finding the macro a call names.
// ---------------------------------------------------------------------------

/// The last of several entries of one name is the one recorded.
proof fn lemma_log_map_last<V>(s: Seq<(Seq<char>, V)>, k: Seq<char>, j: int)
    requires
        0 <= j < s.len(),
        s[j].0 == k,
        forall|m: int| j < m < s.len() ==> s[m].0 != k,
    ensures
        log_map(s).dom().contains(k),
        log_map(s)[k] == s[j].1,
    decreases s.len(),
{
    if j < s.len() - 1 {
        let t = s.drop_last();
        assert forall|m: int| j < m < t.len() implies t[m].0 != k by {
            assert(t[m] == s[m]);
        }
        assert(t[j] == s[j]);
        lemma_log_map_last(t, k, j);
    }
}

/// A name no entry has is not recorded.
proof fn lemma_log_map_absent<V>(s: Seq<(Seq<char>, V)>, k: Seq<char>)
    requires
        forall|m: int| 0 <= m < s.len() ==> s[m].0 != k,
    ensures
        !log_map(s).dom().contains(k),
    decreases s.len(),
{
    if s.len() > 0 {
        let t = s.drop_last();
        assert forall|m: int| 0 <= m < t.len() implies t[m].0 != k by {
            assert(t[m] == s[m]);
        }
        lemma_log_map_absent(t, k);
    }
}

/// The macro recorded under `name`: the last entry of that name.
fn lookup_macro<'a>(macros: &Vec<(String, &'a Macro)>, name: &str) -> (r: Option<&'a Macro>)
    ensures
        macros_log(macros@).dom().contains(name@) ==> (r matches Some(m) && *m == macros_log(
            macros@,
        )[name@]),
        !macros_log(macros@).dom().contains(name@) ==> r is None,
{
    let ghost s = macros@.map_values(|p: (String, &Macro)| (p.0@, *p.1));
    let mut i = macros.len();
    while i > 0
        invariant
            i <= macros@.len(),
            s == macros@.map_values(|p: (String, &Macro)| (p.0@, *p.1)),
            forall|m: int| i <= m < macros@.len() ==> s[m].0 != name@,
        decreases i,
    {
        assert(s[i - 1] == (macros@[i - 1].0@, *macros@[i - 1].1));
        if str_eq(macros[i - 1].0.as_str(), name) {
            proof {
                lemma_log_map_last(s, name@, i - 1);
            }
            return Some(macros[i - 1].1);
        }
        i = i - 1;
    }
    proof {
        lemma_log_map_absent(s, name@);
    }
    None
}

/// The path imported under `scope`: the last entry of that name.
fn lookup_import<'b>(imports: &'b Vec<(String, String)>, scope: &str) -> (r: Option<&'b String>)
    ensures
        imports_log(imports@).dom().contains(scope@) ==> (r matches Some(p) && p@ == imports_log(
            imports@,
        )[scope@]),
        !imports_log(imports@).dom().contains(scope@) ==> r is None,
{
    let ghost s = imports@.map_values(|p: (String, String)| (p.0@, p.1@));
    let mut i = imports.len();
    while i > 0
        invariant
            i <= imports@.len(),
            s == imports@.map_values(|p: (String, String)| (p.0@, p.1@)),
            forall|m: int| i <= m < imports@.len() ==> s[m].0 != scope@,
        decreases i,
    {
        assert(s[i - 1] == (imports@[i - 1].0@, imports@[i - 1].1@));
        if str_eq(imports[i - 1].0.as_str(), scope) {
            proof {
                lemma_log_map_last(s, scope@, i - 1);
            }
            return Some(&imports[i - 1].1);
        }
        i = i - 1;
    }
    proof {
        lemma_log_map_absent(s, scope@);
    }
    None
}

/// The context of the template at `path`, if there is one.
fn lookup_context<'a>(contexts: &'a Vec<(String, Context<'a>)>, path: &str) -> (r: Option<
    &'a Context<'a>,
>)
    ensures
        match find_ctx(contexts@, path@) {
            Some(c) => r matches Some(x) && *x == c,
            None => r is None,
        },
{
    let ghost cs = contexts@;
    let mut i: usize = 0;
    assert(cs.subrange(0, cs.len() as int) =~= cs);
    while i < contexts.len()
        invariant
            i <= contexts@.len(),
            cs == contexts@,
            find_ctx(cs, path@) == find_ctx(cs.subrange(i as int, cs.len() as int), path@),
        decreases contexts.len() - i,
    {
        let ghost rest = cs.subrange(i as int, cs.len() as int);
        assert(rest[0] == cs[i as int]);
        if str_eq(contexts[i].0.as_str(), path) {
            return Some(&contexts[i].1);
        }
        assert(rest.drop_first() =~= cs.subrange(i + 1, cs.len() as int));
        i = i + 1;
    }
    None
}

/// The macro a call names, and the context it is defined in: with a scope,
/// the macro of that name in the template imported under it; without one,
/// the macro of that name in `ctx`.
pub open spec fn macro_target<'a>(
    ctx: Context<'a>,
    contexts: Seq<(String, Context<'a>)>,
    scope: Option<Seq<char>>,
    name: Seq<char>,
) -> Result<(Macro, Context<'a>), Seq<char>> {
    match scope {
        Some(s) => if !ctx.decls().imports.dom().contains(s) {
            Err("no import found for scope "@ + debug_str(s))
        } else {
            let path = ctx.decls().imports[s];
            match find_ctx(contexts, path) {
                None => Err("context for "@ + debug_str(path) + " not found"@),
                Some(m) => if m.decls().macros.dom().contains(name) {
                    Ok((m.decls().macros[name], m))
                } else {
                    Err("macro "@ + debug_str(name) + " not found in scope "@ + debug_str(s))
                },
            }
        },
        None => if ctx.decls().macros.dom().contains(name) {
            Ok((ctx.decls().macros[name], ctx))
        } else {
            Err("macro "@ + debug_str(name) + " not found"@)
        },
    }
}

/// Finds the macro a call of `name` (in `scope`, if given) refers to, and
/// the context it is defined in. `contexts` holds the context of each
/// template by path.
pub fn find_macro<'a>(
    ctx: &'a Context<'a>,
    contexts: &'a Vec<(String, Context<'a>)>,
    scope: Option<&str>,
    name: &str,
) -> (r: Result<(&'a Macro, &'a Context<'a>), CompileError>)
    ensures
        match macro_target(
            *ctx,
            contexts@,
            match scope {
                Some(s) => Some(s@),
                None => None,
            },
            name@,
        ) {
            Ok((m, c)) => r matches Ok((x, y)) && *x == m && *y == c,
            Err(msg) => r matches Err(e) && e.msg@ == msg,
        },
{
    match scope {
        Some(s) => {
            let path = match lookup_import(&ctx.imports, s) {
                Some(p) => p,
                None => {
                    let mut msg = "no import found for scope ".to_owned();
                    string_push_str(&mut msg, debug_quote(s).as_str());
                    return Err(CompileError { msg });
                },
            };
            let mctx = match lookup_context(contexts, path.as_str()) {
                Some(c) => c,
                None => {
                    let mut msg = "context for ".to_owned();
                    string_push_str(&mut msg, debug_quote(path.as_str()).as_str());
                    string_push_str(&mut msg, " not found");
                    return Err(CompileError { msg });
                },
            };
            match lookup_macro(&mctx.macros, name) {
                Some(m) => Ok((m, mctx)),
                None => {
                    let mut msg = "macro ".to_owned();
                    string_push_str(&mut msg, debug_quote(name).as_str());
                    string_push_str(&mut msg, " not found in scope ");
                    string_push_str(&mut msg, debug_quote(s).as_str());
                    Err(CompileError { msg })
                },
            }
        },
        None => match lookup_macro(&ctx.macros, name) {
            Some(m) => Ok((m, ctx)),
            None => {
                let mut msg = "macro ".to_owned();
                string_push_str(&mut msg, debug_quote(name).as_str());
                string_push_str(&mut msg, " not found");
                Err(CompileError { msg })
            },
        },
    }
}

} // verus!
