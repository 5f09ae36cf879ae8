//! Pieces of the code generator: the indenting code buffer, the chain of
//! variable scopes, the Rust pattern written for a template target, and the
//! questions the generator asks of expressions.

use vstd::prelude::*;
use crate::ast::{Expr, Target};
use crate::codegen::{normalize_identifier, normalized_identifier};
use crate::config::CompileError;
use crate::fmt::path_str;
use crate::text::{str_eq, str_to_chars, string_push, string_push_str};

verus! {

// ---------------------------------------------------------------------------
// The code buffer.
// ---------------------------------------------------------------------------

/// Generated code, with the indentation of the current line.
pub struct Buffer {
    pub buf: String,
    /// The indentation level; each level is four spaces.
    pub indent: u8,
    /// Whether nothing was written on the current line yet.
    pub start: bool,
}

pub open spec fn spaces(n: nat) -> Seq<char> {
    Seq::new(n, |i: int| ' ')
}

/// What `write` appends: the indentation when the line is new, then `s`.
pub open spec fn written(start: bool, indent: u8, s: Seq<char>) -> Seq<char> {
    (if start {
        spaces(4 * indent as nat)
    } else {
        seq![]
    }) + s
}

impl Buffer {
    /// An empty buffer at the indentation level `indent`.
    pub fn new(indent: u8) -> (r: Buffer)
        ensures
            r.buf@ == Seq::<char>::empty(),
            r.indent == indent,
            r.start,
    {
        Buffer { buf: String::new(), indent, start: true }
    }

    /// Writes `s`, indenting it when it begins a line.
    pub fn write(&mut self, s: &str)
        ensures
            final(self).buf@ == old(self).buf@ + written(old(self).start, old(self).indent, s@),
            final(self).indent == old(self).indent,
            !final(self).start,
    {
        let ghost b = self.buf@;
        if self.start {
            let n: u32 = (self.indent as u32) * 4;
            let mut i: u32 = 0;
            while i < n
                invariant
                    i <= n,
                    n == 4 * self.indent as nat,
                    self.buf@ == b + spaces(i as nat),
                decreases n - i,
            {
                string_push(&mut self.buf, ' ');
                i = i + 1;
                assert(self.buf@ =~= b + spaces(i as nat));
            }
            self.start = false;
        }
        let ghost before = self.buf@;
        string_push_str(&mut self.buf, s);
        assert(self.buf@ =~= b + written(old(self).start, old(self).indent, s@));
    }

    /// One level deeper.
    pub fn indent(&mut self)
        requires
            old(self).indent < 255,
        ensures
            final(self).indent == old(self).indent + 1,
            final(self).buf == old(self).buf,
            final(self).start == old(self).start,
    {
        self.indent = self.indent + 1;
    }

    /// One level less deep; an error at level 0.
    pub fn dedent(&mut self) -> (r: Result<(), CompileError>)
        ensures
            old(self).indent == 0 ==> (r matches Err(e) && e.msg@
                == "dedent() called while indentation == 0"@ && *final(self) == *old(self)),
            old(self).indent > 0 ==> r is Ok && final(self).indent == old(self).indent - 1
                && final(self).buf == old(self).buf && final(self).start == old(self).start,
    {
        if self.indent == 0 {
            return Err(CompileError { msg: "dedent() called while indentation == 0".to_owned() });
        }
        self.indent = self.indent - 1;
        Ok(())
    }

    /// Writes the line `s` and ends it: a line `}` is first dedented, a line
    /// ending in `{` indents what follows.
    pub fn writeln(&mut self, s: &str) -> (r: Result<(), CompileError>)
        requires
            s@.len() > 0 && s@.last() == '{' ==> old(self).indent < 255,
        ensures
            s@ == "}"@ && old(self).indent == 0 ==> (r matches Err(e) && e.msg@
                == "dedent() called while indentation == 0"@ && *final(self) == *old(self)),
            !(s@ == "}"@ && old(self).indent == 0) ==> {
                let ind: u8 = if s@ == "}"@ {
                    (old(self).indent - 1) as u8
                } else {
                    old(self).indent
                };
                &&& r is Ok
                &&& final(self).buf@ == old(self).buf@ + (if s@.len() > 0 {
                    written(old(self).start, ind, s@)
                } else {
                    seq![]
                }) + seq!['\n']
                &&& final(self).indent == (if s@.len() > 0 && s@.last() == '{' {
                    ind + 1
                } else {
                    ind as int
                })
                &&& final(self).start
            },
    {
        let c = str_to_chars(s);
        if str_eq(s, "}") {
            match self.dedent() {
                Ok(()) => {},
                Err(e) => {
                    return Err(e);
                },
            }
        }
        if c.len() > 0 {
            self.write(s);
        }
        string_push(&mut self.buf, '\n');
        if c.len() > 0 && c[c.len() - 1] == '{' {
            proof {
                reveal_strlit("}");
                if s@ == "}"@ {
                    assert(s@.last() == '}');
                }
            }
            self.indent();
        }
        self.start = true;
        Ok(())
    }
}

// ---------------------------------------------------------------------------
// Variables in scope.
// ---------------------------------------------------------------------------

/// What the generator knows of a variable: the expression it stands for,
/// when it is an alias, and whether it was given a value.
#[derive(Debug, Clone, PartialEq, Eq)]
pub struct LocalMeta {
    pub refs: Option<String>,
    pub initialized: bool,
}

impl LocalMeta {
    /// A variable with a value of its own.
    pub fn initialized() -> (r: LocalMeta)
        ensures
            r.refs is None,
            r.initialized,
    {
        LocalMeta { refs: None, initialized: true }
    }

    /// A variable that stands for the expression `refs`.
    pub fn with_ref(refs: String) -> (r: LocalMeta)
        ensures
            r.refs == Some(refs),
            r.initialized,
    {
        LocalMeta { refs: Some(refs), initialized: true }
    }
}

impl Default for LocalMeta {
    /// A declared variable without a value yet.
    fn default() -> (r: LocalMeta)
        ensures
            r.refs is None,
            !r.initialized,
    {
        LocalMeta { refs: None, initialized: false }
    }
}

/// The value of `k` in a scope: the last one given to it.
pub open spec fn scope_get(s: Seq<(String, LocalMeta)>, k: Seq<char>) -> Option<LocalMeta>
    decreases s.len(),
{
    if s.len() == 0 {
        None
    } else if s.last().0@ == k {
        Some(s.last().1)
    } else {
        scope_get(s.drop_last(), k)
    }
}

/// The value of `k` in the innermost scope that has it.
pub open spec fn scopes_get(ss: Seq<Vec<(String, LocalMeta)>>, k: Seq<char>) -> Option<LocalMeta>
    decreases ss.len(),
{
    if ss.len() == 0 {
        None
    } else {
        match scope_get(ss.last()@, k) {
            Some(v) => Some(v),
            None => scopes_get(ss.drop_last(), k),
        }
    }
}

/// Nested scopes of variables, on top of the scopes of a parent chain.
pub struct MapChain<'a> {
    pub parent: Option<&'a MapChain<'a>>,
    pub scopes: Vec<Vec<(String, LocalMeta)>>,
}

impl<'a> MapChain<'a> {
    /// The value of `k`: from the innermost scope that has it, else from
    /// the parent chain.
    pub open spec fn lookup(&self, k: Seq<char>) -> Option<LocalMeta>
        decreases self,
    {
        match scopes_get(self.scopes@, k) {
            Some(v) => Some(v),
            None => match self.parent {
                Some(p) => p.lookup(k),
                None => None,
            },
        }
    }

    /// One empty scope.
    pub fn new() -> (r: MapChain<'a>)
        ensures
            r.parent is None,
            r.scopes@.len() == 1,
            r.scopes@[0]@ == Seq::<(String, LocalMeta)>::empty(),
    {
        MapChain { parent: None, scopes: vec![Vec::new()] }
    }

    /// One empty scope on top of `parent`.
    pub fn with_parent(parent: &'a MapChain<'a>) -> (r: MapChain<'a>)
        ensures
            r.parent == Some(parent),
            r.scopes@.len() == 1,
            r.scopes@[0]@ == Seq::<(String, LocalMeta)>::empty(),
    {
        MapChain { parent: Some(parent), scopes: vec![Vec::new()] }
    }

    /// The value of `key` (see `lookup`).
    pub fn get(&self, key: &str) -> (r: Option<&LocalMeta>)
        ensures
            match self.lookup(key@) {
                Some(v) => r == Some(&v),
                None => r is None,
            },
        decreases self,
    {
        let mut i: usize = self.scopes.len();
        assert(self.scopes@.subrange(0, i as int) =~= self.scopes@);
        while i > 0
            invariant
                i <= self.scopes@.len(),
                scopes_get(self.scopes@, key@) == scopes_get(self.scopes@.subrange(0, i as int), key@),
            decreases i,
        {
            let scope = &self.scopes[i - 1];
            let ghost ss = self.scopes@.subrange(0, i as int);
            assert(ss.drop_last() =~= self.scopes@.subrange(0, i - 1));
            assert(ss.last() == *scope);
            let mut j: usize = scope.len();
            assert(scope@.subrange(0, j as int) =~= scope@);
            while j > 0
                invariant
                    0 < i <= self.scopes@.len(),
                    *scope == self.scopes@[i - 1],
                    ss == self.scopes@.subrange(0, i as int),
                    ss.drop_last() == self.scopes@.subrange(0, i - 1),
                    ss.last() == *scope,
                    scopes_get(self.scopes@, key@) == scopes_get(ss, key@),
                    j <= scope@.len(),
                    scope_get(scope@, key@) == scope_get(scope@.subrange(0, j as int), key@),
                decreases j,
            {
                let ghost s = scope@.subrange(0, j as int);
                assert(s.drop_last() =~= scope@.subrange(0, j - 1));
                if str_eq(scope[j - 1].0.as_str(), key) {
                    return Some(&scope[j - 1].1);
                }
                j = j - 1;
            }
            assert(scope@.subrange(0, 0) =~= Seq::<(String, LocalMeta)>::empty());
            i = i - 1;
        }
        assert(self.scopes@.subrange(0, 0) =~= Seq::<Vec<(String, LocalMeta)>>::empty());
        match self.parent {
            Some(p) => p.get(key),
            None => None,
        }
    }

    /// Whether nothing was put in the innermost scope.
    pub fn is_current_empty(&self) -> (r: bool)
        requires
            self.scopes@.len() > 0,
        ensures
            r == (self.scopes@.last()@.len() == 0),
    {
        self.scopes[self.scopes.len() - 1].len() == 0
    }

    /// Gives `key` the value `val` in the innermost scope.
    pub fn insert(&mut self, key: String, val: LocalMeta)
        requires
            old(self).scopes@.len() > 0,
        ensures
            final(self).parent == old(self).parent,
            final(self).scopes@.len() == old(self).scopes@.len(),
            forall|i: int|
                0 <= i < old(self).scopes@.len() - 1 ==> final(self).scopes@[i] == old(
                    self,
                ).scopes@[i],
            final(self).scopes@.last()@ == old(self).scopes@.last()@.push((key, val)),
    {
        let n = self.scopes.len();
        let mut top = self.scopes.pop().unwrap();
        top.push((key, val));
        self.scopes.push(top);
        assert(self.scopes@.len() == n);
    }

    /// Declares `key` in the innermost scope, without a value.
    pub fn insert_with_default(&mut self, key: String)
        requires
            old(self).scopes@.len() > 0,
        ensures
            final(self).parent == old(self).parent,
            final(self).scopes@.len() == old(self).scopes@.len(),
            forall|i: int|
                0 <= i < old(self).scopes@.len() - 1 ==> final(self).scopes@[i] == old(
                    self,
                ).scopes@[i],
            final(self).scopes@.last()@ == old(self).scopes@.last()@.push(
                (key, LocalMeta { refs: None, initialized: false }),
            ),
    {
        self.insert(key, LocalMeta::default());
    }

    /// Opens a new innermost scope.
    pub fn push(&mut self)
        ensures
            final(self).parent == old(self).parent,
            final(self).scopes@.len() == old(self).scopes@.len() + 1,
            final(self).scopes@.drop_last() == old(self).scopes@,
            final(self).scopes@.last()@ == Seq::<(String, LocalMeta)>::empty(),
    {
        self.scopes.push(Vec::new());
        assert(self.scopes@.drop_last() =~= old(self).scopes@);
    }

    /// Closes the innermost scope; the outermost one is never closed.
    pub fn pop(&mut self)
        requires
            old(self).scopes@.len() >= 2,
        ensures
            final(self).parent == old(self).parent,
            final(self).scopes@ == old(self).scopes@.drop_last(),
    {
        self.scopes.pop();
    }

    /// What the variable `name` stands for in generated code: its alias
    /// expression, or its (raw when needed) name; `None` when it is not a
    /// variable in scope.
    pub fn resolve(&self, name: &str) -> (r: Option<String>)
        ensures
            match self.lookup(normalized_identifier(name@)) {
                Some(m) => r matches Some(x) && x@ == match m.refs {
                    Some(e) => e@,
                    None => normalized_identifier(name@),
                },
                None => r is None,
            },
    {
        let name = normalize_identifier(name);
        match self.get(name.as_str()) {
            Some(meta) => match &meta.refs {
                Some(expr) => Some(expr.clone()),
                None => Some(name),
            },
            None => None,
        }
    }

    /// What `name` stands for: a variable in scope (see `resolve`), or else
    /// a field of the template's context, `self.name`.
    pub fn resolve_or_self(&self, name: &str) -> (r: String)
        ensures
            match self.lookup(normalized_identifier(normalized_identifier(name@))) {
                Some(m) => r@ == match m.refs {
                    Some(e) => e@,
                    None => normalized_identifier(normalized_identifier(name@)),
                },
                None => r@ == "self."@ + normalized_identifier(name@),
            },
    {
        let name = normalize_identifier(name);
        match self.resolve(name.as_str()) {
            Some(r) => r,
            None => {
                let mut s = "self.".to_owned();
                string_push_str(&mut s, name.as_str());
                s
            },
        }
    }
}


// ---------------------------------------------------------------------------
// The pattern written for a target.
// ---------------------------------------------------------------------------

pub open spec fn amp(first_level: bool) -> Seq<char> {
    if first_level {
        "&"@
    } else {
        seq![]
    }
}

/// The Rust pattern for a target. Literals are matched by reference at the
/// first level.
pub open spec fn target_code(t: Target, first_level: bool) -> Seq<char>
    decreases t, 1int,
{
    match t {
        Target::Placeholder => "_"@,
        Target::Name(n) => if n@ == "_"@ {
            "_"@
        } else {
            normalized_identifier(n@)
        },
        Target::OrChain(v) => if v@.len() == 0 {
            "_"@
        } else {
            or_code(v@, first_level)
        },
        Target::Tuple(p, v) => path_str(p@) + "("@ + items_code(v@) + ")"@,
        Target::Struct(p, v) => path_str(p@) + " { "@ + fields_code(v@) + " }"@,
        Target::Path(p) => path_str(p@),
        Target::StrLit(x) => amp(first_level) + "\""@ + x@ + "\""@,
        Target::NumLit(x) => amp(first_level) + x@,
        Target::CharLit(x) => amp(first_level) + "'"@ + x@ + "'"@,
        Target::BoolLit(x) => amp(first_level) + x@,
    }
}

/// Alternatives separated by ` | `.
pub open spec fn or_code(v: Seq<Target>, first_level: bool) -> Seq<char>
    decreases v, 0int,
{
    if v.len() == 0 {
        seq![]
    } else {
        proof {
            assert(decreases_to!(v => v.drop_last()));
        }
        if v.len() == 1 {
            target_code(v.last(), first_level)
        } else {
            or_code(v.drop_last(), first_level) + " | "@ + target_code(v.last(), first_level)
        }
    }
}

/// Tuple items, each followed by a comma.
pub open spec fn items_code(v: Seq<Target>) -> Seq<char>
    decreases v, 0int,
{
    if v.len() == 0 {
        seq![]
    } else {
        proof {
            assert(decreases_to!(v => v.drop_last()));
        }
        items_code(v.drop_last()) + target_code(v.last(), false) + ","@
    }
}

/// Struct fields `name: pattern`, each followed by a comma.
pub open spec fn fields_code(v: Seq<(String, Target)>) -> Seq<char>
    decreases v, 0int,
{
    if v.len() == 0 {
        seq![]
    } else {
        proof {
            assert(decreases_to!(v => v.drop_last()));
            assert(decreases_to!(v => v.last()));
        }
        fields_code(v.drop_last()) + normalized_identifier(v.last().0@) + ": "@ + target_code(
            v.last().1,
            false,
        ) + ","@
    }
}

/// The variables a target binds, in the order they appear.
pub open spec fn target_names(t: Target) -> Seq<Seq<char>>
    decreases t, 1int,
{
    match t {
        Target::Name(n) => if n@ == "_"@ {
            seq![]
        } else {
            seq![normalized_identifier(n@)]
        },
        Target::OrChain(v) => list_names(v@),
        Target::Tuple(_, v) => list_names(v@),
        Target::Struct(_, v) => field_names(v@),
        _ => seq![],
    }
}

pub open spec fn list_names(v: Seq<Target>) -> Seq<Seq<char>>
    decreases v, 0int,
{
    if v.len() == 0 {
        seq![]
    } else {
        proof {
            assert(decreases_to!(v => v.drop_last()));
        }
        list_names(v.drop_last()) + target_names(v.last())
    }
}

pub open spec fn field_names(v: Seq<(String, Target)>) -> Seq<Seq<char>>
    decreases v, 0int,
{
    if v.len() == 0 {
        seq![]
    } else {
        proof {
            assert(decreases_to!(v => v.drop_last()));
            assert(decreases_to!(v => v.last()));
        }
        field_names(v.drop_last()) + target_names(v.last().1)
    }
}

/// What a bound variable is recorded with.
pub open spec fn bound_meta(initialized: bool) -> LocalMeta {
    LocalMeta { refs: None, initialized }
}

/// `new` is `old` with the variables `names`, in order, recorded with `m`.
pub open spec fn scope_extended(
    old: Seq<(String, LocalMeta)>,
    new: Seq<(String, LocalMeta)>,
    names: Seq<Seq<char>>,
    m: LocalMeta,
) -> bool {
    &&& new.len() == old.len() + names.len()
    &&& new.subrange(0, old.len() as int) == old
    &&& forall|k: int|
        0 <= k < names.len() ==> (#[trigger] new[old.len() + k]).0@ == names[k] && new[old.len()
            + k].1 == m
}

/// The chain `new` is `old` with `names` recorded in its innermost scope.
pub open spec fn locals_extended(old: MapChain, new: MapChain, names: Seq<Seq<char>>, m: LocalMeta) -> bool {
    &&& new.parent == old.parent
    &&& new.scopes@.len() == old.scopes@.len()
    &&& old.scopes@.len() > 0
    &&& forall|i: int| 0 <= i < old.scopes@.len() - 1 ==> new.scopes@[i] == old.scopes@[i]
    &&& scope_extended(old.scopes@.last()@, new.scopes@.last()@, names, m)
}

proof fn lemma_locals_extended_trans(a: MapChain, b: MapChain, c: MapChain, n1: Seq<Seq<char>>, n2: Seq<Seq<char>>, m: LocalMeta)
    requires
        locals_extended(a, b, n1, m),
        locals_extended(b, c, n2, m),
    ensures
        locals_extended(a, c, n1 + n2, m),
{
    let sa = a.scopes@.last()@;
    let sb = b.scopes@.last()@;
    let sc = c.scopes@.last()@;
    assert(sc.subrange(0, sa.len() as int) =~= sa) by {
        assert(sc.subrange(0, sb.len() as int) == sb);
        assert forall|k: int| 0 <= k < sa.len() implies sc[k] == sa[k] by {
            assert(sc[k] == sc.subrange(0, sb.len() as int)[k]);
            assert(sb[k] == sb.subrange(0, sa.len() as int)[k]);
        }
    }
    assert forall|k: int| 0 <= k < (n1 + n2).len() implies (#[trigger] sc[sa.len() + k]).0@ == (n1
        + n2)[k] && sc[sa.len() + k].1 == m by {
        if k < n1.len() {
            assert(sc[sa.len() + k] == sc.subrange(0, sb.len() as int)[sa.len() + k]);
            assert(sb[sa.len() + k].0@ == n1[k]);
        } else {
            assert(sc[sb.len() + (k - n1.len())].0@ == n2[k - n1.len()]);
        }
    }
}

proof fn lemma_locals_extended_refl(a: MapChain, m: LocalMeta)
    requires
        a.scopes@.len() > 0,
    ensures
        locals_extended(a, a, seq![], m),
{
    assert(a.scopes@.last()@.subrange(0, a.scopes@.last()@.len() as int) =~= a.scopes@.last()@);
}

/// The segments of a path joined by `::`.
fn joined_path(path: &Vec<String>) -> (r: String)
    ensures
        r@ == path_str(path@),
{
    let mut out = String::new();
    let mut i: usize = 0;
    while i < path.len()
        invariant
            i <= path@.len(),
            out@ == path_str(path@.subrange(0, i as int)),
        decreases path.len() - i,
    {
        if i > 0 {
            string_push_str(&mut out, "::");
        }
        string_push_str(&mut out, path[i].as_str());
        assert(path@.subrange(0, i + 1).drop_last() =~= path@.subrange(0, i as int));
        i = i + 1;
        assert(out@ =~= path_str(path@.subrange(0, i as int)));
    }
    assert(path@.subrange(0, i as int) =~= path@);
    out
}

/// Writes a literal between `quote`s, preceded by `&` at the first level.
fn write_quoted_lit(buf: &mut Buffer, first_level: bool, quote: &str, x: &str)
    ensures
        final(buf).buf@ == old(buf).buf@ + written(
            old(buf).start,
            old(buf).indent,
            amp(first_level) + quote@ + x@ + quote@,
        ),
        !final(buf).start,
        final(buf).indent == old(buf).indent,
{
    let ghost b0 = buf.buf@;
    let ghost st = buf.start;
    if first_level {
        buf.write("&");
    }
    buf.write(quote);
    buf.write(x);
    buf.write(quote);
    assert(buf.buf@ =~= b0 + written(st, buf.indent, amp(first_level) + quote@ + x@ + quote@));
}

/// Writes a literal, preceded by `&` at the first level.
fn write_plain_lit(buf: &mut Buffer, first_level: bool, x: &str)
    ensures
        final(buf).buf@ == old(buf).buf@ + written(old(buf).start, old(buf).indent, amp(first_level) + x@),
        !final(buf).start,
        final(buf).indent == old(buf).indent,
{
    let ghost b0 = buf.buf@;
    let ghost st = buf.start;
    if first_level {
        buf.write("&");
    }
    buf.write(x);
    assert(buf.buf@ =~= b0 + written(st, buf.indent, amp(first_level) + x@));
}

impl<'a> MapChain<'a> {
    /// Writes the pattern for `target` (see `target_code`) and records the
    /// variables it binds in the innermost scope, as having a value when
    /// `initialized`, else as only declared.
    pub fn visit_target(&mut self, buf: &mut Buffer, initialized: bool, first_level: bool, target: &Target)
        requires
            old(self).scopes@.len() > 0,
        ensures
            final(buf).buf@ == old(buf).buf@ + written(
                old(buf).start,
                old(buf).indent,
                target_code(*target, first_level),
            ),
            !final(buf).start,
            final(buf).indent == old(buf).indent,
            locals_extended(*old(self), *final(self), target_names(*target), bound_meta(initialized)),
        decreases target, 1int,
    {
        let ghost l0 = *self;
        proof {
            lemma_locals_extended_refl(l0, bound_meta(initialized));
        }
        match target {
            Target::Placeholder => buf.write("_"),
            Target::Name(name) => self.visit_name(buf, initialized, name),
            Target::OrChain(targets) => {
                if targets.len() == 0 {
                    buf.write("_");
                    assert(list_names(targets@) =~= Seq::<Seq<char>>::empty());
                } else {
                    self.visit_or(buf, initialized, first_level, targets);
                }
            },
            Target::Tuple(path, targets) => self.visit_tuple(buf, initialized, path, targets),
            Target::Struct(path, targets) => self.visit_struct(buf, initialized, path, targets),
            Target::Path(path) => buf.write(joined_path(path).as_str()),
            Target::StrLit(x) => write_quoted_lit(buf, first_level, "\"", x.as_str()),
            Target::NumLit(x) => write_plain_lit(buf, first_level, x.as_str()),
            Target::CharLit(x) => write_quoted_lit(buf, first_level, "'", x.as_str()),
            Target::BoolLit(x) => write_plain_lit(buf, first_level, x.as_str()),
        }
    }

    fn visit_name(&mut self, buf: &mut Buffer, initialized: bool, name: &String)
        requires
            old(self).scopes@.len() > 0,
        ensures
            final(buf).buf@ == old(buf).buf@ + written(
                old(buf).start,
                old(buf).indent,
                target_code(Target::Name(*name), false),
            ),
            !final(buf).start,
            final(buf).indent == old(buf).indent,
            locals_extended(*old(self), *final(self), target_names(Target::Name(*name)), bound_meta(initialized)),
    {
        let ghost l0 = *self;
        if str_eq(name.as_str(), "_") {
            buf.write("_");
            proof {
                lemma_locals_extended_refl(l0, bound_meta(initialized));
            }
        } else {
            let n = normalize_identifier(name.as_str());
            buf.write(n.as_str());
            let meta = if initialized {
                LocalMeta::initialized()
            } else {
                LocalMeta::default()
            };
            self.insert(n, meta);
            assert(self.scopes@.last()@.subrange(0, l0.scopes@.last()@.len() as int)
                =~= l0.scopes@.last()@);
        }
    }

    fn visit_tuple(&mut self, buf: &mut Buffer, initialized: bool, path: &Vec<String>, targets: &Vec<Target>)
        requires
            old(self).scopes@.len() > 0,
        ensures
            final(buf).buf@ == old(buf).buf@ + written(
                old(buf).start,
                old(buf).indent,
                path_str(path@) + "("@ + items_code(targets@) + ")"@,
            ),
            !final(buf).start,
            final(buf).indent == old(buf).indent,
            locals_extended(*old(self), *final(self), list_names(targets@), bound_meta(initialized)),
        decreases targets, 1int,
    {
        let ghost b0 = buf.buf@;
        let ghost st = buf.start;
        buf.write(joined_path(path).as_str());
        buf.write("(");
        self.visit_items(buf, initialized, targets);
        buf.write(")");
        assert(buf.buf@ =~= b0 + written(
            st,
            buf.indent,
            path_str(path@) + "("@ + items_code(targets@) + ")"@,
        ));
    }

    fn visit_struct(
        &mut self,
        buf: &mut Buffer,
        initialized: bool,
        path: &Vec<String>,
        targets: &Vec<(String, Target)>,
    )
        requires
            old(self).scopes@.len() > 0,
        ensures
            final(buf).buf@ == old(buf).buf@ + written(
                old(buf).start,
                old(buf).indent,
                path_str(path@) + " { "@ + fields_code(targets@) + " }"@,
            ),
            !final(buf).start,
            final(buf).indent == old(buf).indent,
            locals_extended(*old(self), *final(self), field_names(targets@), bound_meta(initialized)),
        decreases targets, 1int,
    {
        let ghost b0 = buf.buf@;
        let ghost st = buf.start;
        buf.write(joined_path(path).as_str());
        buf.write(" { ");
        self.visit_fields(buf, initialized, targets);
        buf.write(" }");
        assert(buf.buf@ =~= b0 + written(
            st,
            buf.indent,
            path_str(path@) + " { "@ + fields_code(targets@) + " }"@,
        ));
    }

    fn visit_or(&mut self, buf: &mut Buffer, initialized: bool, first_level: bool, targets: &Vec<Target>)
        requires
            old(self).scopes@.len() > 0,
            targets@.len() > 0,
        ensures
            final(buf).buf@ == old(buf).buf@ + written(
                old(buf).start,
                old(buf).indent,
                or_code(targets@, first_level),
            ),
            final(buf).indent == old(buf).indent,
            !final(buf).start,
            locals_extended(*old(self), *final(self), list_names(targets@), bound_meta(initialized)),
        decreases targets, 0int,
    {
        let ghost b0 = buf.buf@;
        let ghost st = buf.start;
        let ghost l0 = *self;
        let mut i: usize = 0;
        proof {
            lemma_locals_extended_refl(l0, bound_meta(initialized));
        }
        while i < targets.len()
            invariant
                i <= targets@.len(),
                targets@.len() > 0,
                buf.indent == old(buf).indent,
                st == old(buf).start,
                b0 == old(buf).buf@,
                i == 0 ==> buf.start == st && buf.buf@ == b0,
                i > 0 ==> !buf.start && buf.buf@ == b0 + written(st, buf.indent, or_code(
                    targets@.subrange(0, i as int),
                    first_level,
                )),
                self.scopes@.len() > 0,
                locals_extended(l0, *self, list_names(targets@.subrange(0, i as int)), bound_meta(initialized)),
            decreases targets.len() - i,
        {
            if i > 0 {
                buf.write(" | ");
            }
            let ghost lb = *self;
            self.visit_target(buf, initialized, first_level, &targets[i]);
            proof {
                lemma_locals_extended_trans(
                    l0,
                    lb,
                    *self,
                    list_names(targets@.subrange(0, i as int)),
                    target_names(targets@[i as int]),
                    bound_meta(initialized),
                );
                assert(targets@.subrange(0, i + 1).drop_last() =~= targets@.subrange(0, i as int));
                assert(targets@.subrange(0, i + 1).last() == targets@[i as int]);
            }
            i = i + 1;
            assert(buf.buf@ =~= b0 + written(st, buf.indent, or_code(targets@.subrange(0, i as int), first_level)));
        }
        assert(targets@.subrange(0, i as int) =~= targets@);
    }

    fn visit_items(&mut self, buf: &mut Buffer, initialized: bool, targets: &Vec<Target>)
        requires
            old(self).scopes@.len() > 0,
            !old(buf).start,
        ensures
            final(buf).buf@ == old(buf).buf@ + items_code(targets@),
            final(buf).indent == old(buf).indent,
            !final(buf).start,
            locals_extended(*old(self), *final(self), list_names(targets@), bound_meta(initialized)),
        decreases targets, 0int,
    {
        let ghost b0 = buf.buf@;
        let ghost l0 = *self;
        let mut i: usize = 0;
        proof {
            lemma_locals_extended_refl(l0, bound_meta(initialized));
        }
        while i < targets.len()
            invariant
                i <= targets@.len(),
                buf.indent == old(buf).indent,
                !buf.start,
                buf.buf@ == b0 + items_code(targets@.subrange(0, i as int)),
                self.scopes@.len() > 0,
                locals_extended(l0, *self, list_names(targets@.subrange(0, i as int)), bound_meta(initialized)),
            decreases targets.len() - i,
        {
            let ghost lb = *self;
            self.visit_target(buf, initialized, false, &targets[i]);
            buf.write(",");
            proof {
                lemma_locals_extended_trans(
                    l0,
                    lb,
                    *self,
                    list_names(targets@.subrange(0, i as int)),
                    target_names(targets@[i as int]),
                    bound_meta(initialized),
                );
                assert(targets@.subrange(0, i + 1).drop_last() =~= targets@.subrange(0, i as int));
            }
            i = i + 1;
            assert(buf.buf@ =~= b0 + items_code(targets@.subrange(0, i as int)));
        }
        assert(targets@.subrange(0, i as int) =~= targets@);
    }

    fn visit_fields(&mut self, buf: &mut Buffer, initialized: bool, targets: &Vec<(String, Target)>)
        requires
            old(self).scopes@.len() > 0,
            !old(buf).start,
        ensures
            final(buf).buf@ == old(buf).buf@ + fields_code(targets@),
            final(buf).indent == old(buf).indent,
            !final(buf).start,
            locals_extended(*old(self), *final(self), field_names(targets@), bound_meta(initialized)),
        decreases targets, 0int,
    {
        let ghost b0 = buf.buf@;
        let ghost l0 = *self;
        let mut i: usize = 0;
        proof {
            lemma_locals_extended_refl(l0, bound_meta(initialized));
        }
        while i < targets.len()
            invariant
                i <= targets@.len(),
                buf.indent == old(buf).indent,
                !buf.start,
                buf.buf@ == b0 + fields_code(targets@.subrange(0, i as int)),
                self.scopes@.len() > 0,
                locals_extended(l0, *self, field_names(targets@.subrange(0, i as int)), bound_meta(initialized)),
            decreases targets.len() - i,
        {
            let n = normalize_identifier(targets[i].0.as_str());
            buf.write(n.as_str());
            buf.write(": ");
            let ghost lb = *self;
            self.visit_target(buf, initialized, false, &targets[i].1);
            buf.write(",");
            proof {
                lemma_locals_extended_trans(
                    l0,
                    lb,
                    *self,
                    field_names(targets@.subrange(0, i as int)),
                    target_names(targets@[i as int].1),
                    bound_meta(initialized),
                );
                assert(targets@.subrange(0, i + 1).drop_last() =~= targets@.subrange(0, i as int));
            }
            i = i + 1;
            assert(buf.buf@ =~= b0 + fields_code(targets@.subrange(0, i as int)));
        }
        assert(targets@.subrange(0, i as int) =~= targets@);
    }
}


// ---------------------------------------------------------------------------
// Questions about expressions.
// ---------------------------------------------------------------------------

/// A field of `self`, possibly nested: `self.a`, `self.a.b`, ...
pub open spec fn attr_self(e: Expr) -> bool
    decreases e,
{
    match e {
        Expr::Attr(obj, _) => match *obj {
            Expr::Var(v) => v@ == "self"@,
            Expr::Attr(_, _) => attr_self(*obj),
            _ => false,
        },
        _ => false,
    }
}

/// Whether `self.x`-like access is assumed to give a `Copy` value: literals,
/// ranges, calls and paths are; operands of operators are assumed to be
/// when they are fields of `self`.
pub open spec fn copyable_within(e: Expr, within_op: bool) -> bool
    decreases e,
{
    match e {
        Expr::BoolLit(_) | Expr::NumLit(_) | Expr::StrLit(_) | Expr::CharLit(_) => true,
        Expr::Unary(_, x) => copyable_within(*x, true),
        Expr::BinOp(_, l, r) => copyable_within(*l, true) && copyable_within(*r, true),
        Expr::Range(_, _, _) => true,
        Expr::Call(_, _) | Expr::Path(_) => true,
        _ => within_op && attr_self(e),
    }
}

/// Whether an expression can be evaluated once and its value used several
/// times: it is built only from literals, variables, paths and operators
/// (no calls, macros or `?`).
pub open spec fn cacheable(e: Expr) -> bool
    decreases e, 1int,
{
    match e {
        Expr::BoolLit(_) | Expr::NumLit(_) | Expr::StrLit(_) | Expr::CharLit(_) | Expr::Var(_)
        | Expr::Path(_) => true,
        Expr::Array(v) => all_cacheable(v@),
        Expr::Attr(x, _) => cacheable(*x),
        Expr::Index(l, r) => cacheable(*l) && cacheable(*r),
        Expr::Filter(f) => all_cacheable(f.arguments@),
        Expr::Unary(_, x) => cacheable(*x),
        Expr::BinOp(_, l, r) => cacheable(*l) && cacheable(*r),
        Expr::Range(_, l, r) => (match l {
            Some(x) => cacheable(*x),
            None => true,
        }) && (match r {
            Some(x) => cacheable(*x),
            None => true,
        }),
        Expr::Group(x) => cacheable(*x),
        Expr::Tuple(v) => all_cacheable(v@),
        Expr::NamedArgument(_, x) => cacheable(*x),
        _ => false,
    }
}

pub open spec fn all_cacheable(v: Seq<Expr>) -> bool
    decreases v, 0int,
{
    if v.len() == 0 {
        true
    } else {
        proof {
            assert(decreases_to!(v => v.drop_last()));
        }
        all_cacheable(v.drop_last()) && cacheable(v.last())
    }
}

/// Whether `expr` is a field of `self`, possibly nested.
pub fn is_attr_self(expr: &Expr) -> (r: bool)
    ensures
        r == attr_self(*expr),
    decreases expr,
{
    match expr {
        Expr::Attr(obj, _) => match &**obj {
            Expr::Var(v) => str_eq(v.as_str(), "self"),
            Expr::Attr(_, _) => is_attr_self(&**obj),
            _ => false,
        },
        _ => false,
    }
}

fn is_copyable_within_op(expr: &Expr, within_op: bool) -> (r: bool)
    ensures
        r == copyable_within(*expr, within_op),
    decreases expr,
{
    match expr {
        Expr::BoolLit(_) | Expr::NumLit(_) | Expr::StrLit(_) | Expr::CharLit(_) => true,
        Expr::Unary(_, x) => is_copyable_within_op(&**x, true),
        Expr::BinOp(_, l, r) => is_copyable_within_op(&**l, true) && is_copyable_within_op(
            &**r,
            true,
        ),
        Expr::Range(_, _, _) => true,
        Expr::Call(_, _) | Expr::Path(_) => true,
        _ => within_op && is_attr_self(expr),
    }
}

/// Whether the value of `expr` can be assumed to be `Copy`.
pub fn is_copyable(expr: &Expr) -> (r: bool)
    ensures
        r == copyable_within(*expr, false),
{
    is_copyable_within_op(expr, false)
}

/// Whether `expr` can be evaluated once and its value used several times.
pub fn is_cacheable(expr: &Expr) -> (r: bool)
    ensures
        r == cacheable(*expr),
    decreases expr, 1int,
{
    match expr {
        Expr::BoolLit(_) | Expr::NumLit(_) | Expr::StrLit(_) | Expr::CharLit(_) | Expr::Var(_)
        | Expr::Path(_) => true,
        Expr::Array(v) => are_cacheable(v),
        Expr::Attr(x, _) => is_cacheable(&**x),
        Expr::Index(l, r) => is_cacheable(&**l) && is_cacheable(&**r),
        Expr::Filter(f) => are_cacheable(&f.arguments),
        Expr::Unary(_, x) => is_cacheable(&**x),
        Expr::BinOp(_, l, r) => is_cacheable(&**l) && is_cacheable(&**r),
        Expr::Range(_, l, r) => {
            let a = match l {
                Some(x) => is_cacheable(&**x),
                None => true,
            };
            let b = match r {
                Some(x) => is_cacheable(&**x),
                None => true,
            };
            a && b
        },
        Expr::Group(x) => is_cacheable(&**x),
        Expr::Tuple(v) => are_cacheable(v),
        Expr::NamedArgument(_, x) => is_cacheable(&**x),
        _ => false,
    }
}

fn are_cacheable(v: &Vec<Expr>) -> (r: bool)
    ensures
        r == all_cacheable(v@),
    decreases v, 0int,
{
    let mut i: usize = 0;
    while i < v.len()
        invariant
            i <= v@.len(),
            all_cacheable(v@.subrange(0, i as int)),
        decreases v.len() - i,
    {
        assert(v@.subrange(0, i + 1).drop_last() =~= v@.subrange(0, i as int));
        if !is_cacheable(&v[i]) {
            proof {
                lemma_all_cacheable_prefix(v@, i as int);
            }
            return false;
        }
        i = i + 1;
    }
    assert(v@.subrange(0, i as int) =~= v@);
    true
}

proof fn lemma_all_cacheable_prefix(v: Seq<Expr>, i: int)
    requires
        0 <= i < v.len(),
        !cacheable(v[i]),
    ensures
        !all_cacheable(v),
    decreases v.len(),
{
    if i < v.len() - 1 {
        lemma_all_cacheable_prefix(v.drop_last(), i);
    }
}

// ---------------------------------------------------------------------------
// Shadowing.
// ---------------------------------------------------------------------------

/// The error for a literal on the left of an assignment.
pub open spec fn literal_target_msg() -> Seq<char> {
    "literals are not allowed on the left-hand side of an assignment"@
}

/// Whether an assignment to `t` shadows a variable that already has a
/// value: a name does when its (normalized) variable is in scope and
/// initialized; a tuple or struct pattern does when one of its parts does
/// (the parts are checked in order, and the first error or shadowing part
/// decides). Any other pattern is refused.
pub open spec fn shadowing(chain: MapChain, t: Target) -> Result<bool, Seq<char>>
    decreases t, 1int,
{
    match t {
        Target::Name(n) => match chain.lookup(normalized_identifier(n@)) {
            Some(m) => Ok(m.initialized),
            None => Ok(false),
        },
        Target::Tuple(_, ts) => list_shadowing(chain, ts@),
        Target::Struct(_, fs) => fields_shadowing(chain, fs@),
        _ => Err(literal_target_msg()),
    }
}

/// The first part that shadows or is refused decides; else none shadows.
pub open spec fn list_shadowing(chain: MapChain, v: Seq<Target>) -> Result<bool, Seq<char>>
    decreases v, 0int,
{
    if v.len() == 0 {
        Ok(false)
    } else {
        proof {
            assert(decreases_to!(v => v.drop_last()));
        }
        match list_shadowing(chain, v.drop_last()) {
            Ok(false) => shadowing(chain, v.last()),
            other => other,
        }
    }
}

/// As `list_shadowing`, for the parts of a struct pattern.
pub open spec fn fields_shadowing(chain: MapChain, v: Seq<(String, Target)>) -> Result<bool, Seq<char>>
    decreases v, 0int,
{
    if v.len() == 0 {
        Ok(false)
    } else {
        proof {
            assert(decreases_to!(v => v.drop_last()));
            assert(decreases_to!(v => v.last()));
        }
        match fields_shadowing(chain, v.drop_last()) {
            Ok(false) => shadowing(chain, v.last().1),
            other => other,
        }
    }
}

/// `shadowing` as the function's result: the flag, or the error's message.
pub open spec fn shadowing_result(r: Result<bool, CompileError>, s: Result<bool, Seq<char>>) -> bool {
    match s {
        Ok(b) => r == Ok::<bool, CompileError>(b),
        Err(m) => r matches Err(e) && e.msg@ == m,
    }
}

impl<'a> MapChain<'a> {
    /// Whether an assignment to `var` shadows a variable that already has a
    /// value (see `shadowing`).
    pub fn is_shadowing_variable(&self, var: &Target) -> (r: Result<bool, CompileError>)
        ensures
            shadowing_result(r, shadowing(*self, *var)),
        decreases var, 1int,
    {
        match var {
            Target::Name(name) => {
                let name = normalize_identifier(name.as_str());
                match self.get(name.as_str()) {
                    None => Ok(false),
                    Some(meta) => Ok(meta.initialized),
                }
            },
            Target::Tuple(_, targets) => self.targets_shadowing(targets),
            Target::Struct(_, named_targets) => self.fields_shadowing_exec(named_targets),
            _ => Err(
                CompileError {
                    msg: "literals are not allowed on the left-hand side of an assignment".to_owned(),
                },
            ),
        }
    }

    fn targets_shadowing(&self, v: &Vec<Target>) -> (r: Result<bool, CompileError>)
        ensures
            shadowing_result(r, list_shadowing(*self, v@)),
        decreases v@, 0int,
    {
        let mut i: usize = 0;
        assert(v@.subrange(0, 0) =~= Seq::<Target>::empty());
        while i < v.len()
            invariant
                i <= v@.len(),
                list_shadowing(*self, v@.subrange(0, i as int)) == Ok::<bool, Seq<char>>(false),
            decreases v.len() - i,
        {
            let ghost p = v@.subrange(0, i + 1);
            assert(p.drop_last() =~= v@.subrange(0, i as int));
            assert(p.last() == v@[i as int]);
            proof {
                lemma_list_shadowing_decided(*self, v@, i + 1);
            }
            match self.is_shadowing_variable(&v[i]) {
                Ok(false) => {},
                outcome => {
                    return outcome;
                },
            }
            i = i + 1;
        }
        assert(v@.subrange(0, i as int) =~= v@);
        Ok(false)
    }

    fn fields_shadowing_exec(&self, v: &Vec<(String, Target)>) -> (r: Result<bool, CompileError>)
        ensures
            shadowing_result(r, fields_shadowing(*self, v@)),
        decreases v@, 0int,
    {
        let mut i: usize = 0;
        assert(v@.subrange(0, 0) =~= Seq::<(String, Target)>::empty());
        while i < v.len()
            invariant
                i <= v@.len(),
                fields_shadowing(*self, v@.subrange(0, i as int)) == Ok::<bool, Seq<char>>(false),
            decreases v.len() - i,
        {
            let ghost p = v@.subrange(0, i + 1);
            assert(p.drop_last() =~= v@.subrange(0, i as int));
            assert(p.last() == v@[i as int]);
            proof {
                lemma_fields_shadowing_decided(*self, v@, i + 1);
            }
            match self.is_shadowing_variable(&v[i].1) {
                Ok(false) => {},
                outcome => {
                    return outcome;
                },
            }
            i = i + 1;
        }
        assert(v@.subrange(0, i as int) =~= v@);
        Ok(false)
    }
}

/// Once a prefix decides (anything but `Ok(false)`), the whole list is
/// decided the same way.
proof fn lemma_list_shadowing_decided(chain: MapChain, v: Seq<Target>, k: int)
    requires
        0 <= k <= v.len(),
    ensures
        list_shadowing(chain, v.subrange(0, k)) != Ok::<bool, Seq<char>>(false) ==> list_shadowing(
            chain,
            v,
        ) == list_shadowing(chain, v.subrange(0, k)),
    decreases v.len() - k,
{
    if k < v.len() {
        lemma_list_shadowing_decided(chain, v, k + 1);
        assert(v.subrange(0, k + 1).drop_last() =~= v.subrange(0, k));
    } else {
        assert(v.subrange(0, k) =~= v);
    }
}

/// As `lemma_list_shadowing_decided`, for struct patterns.
proof fn lemma_fields_shadowing_decided(chain: MapChain, v: Seq<(String, Target)>, k: int)
    requires
        0 <= k <= v.len(),
    ensures
        fields_shadowing(chain, v.subrange(0, k)) != Ok::<bool, Seq<char>>(false) ==> fields_shadowing(
            chain,
            v,
        ) == fields_shadowing(chain, v.subrange(0, k)),
    decreases v.len() - k,
{
    if k < v.len() {
        lemma_fields_shadowing_decided(chain, v, k + 1);
        assert(v.subrange(0, k + 1).drop_last() =~= v.subrange(0, k));
    } else {
        assert(v.subrange(0, k) =~= v);
    }
}

// ---------------------------------------------------------------------------
// Size hints.
// ---------------------------------------------------------------------------

/// Whether a sequence is in increasing order.
pub open spec fn sorted_seq(s: Seq<usize>) -> bool {
    forall|i: int, j: int| 0 <= i <= j < s.len() ==> s[i] <= s[j]
}

/// The position where `x` goes in a sorted `t`: after the values not
/// above it.
pub open spec fn insert_pos(t: Seq<usize>, x: usize) -> int
    decreases t.len(),
{
    if t.len() == 0 || t[0] > x {
        0
    } else {
        1 + insert_pos(t.drop_first(), x)
    }
}

/// `s` sorted by inserting its values one by one.
pub open spec fn sorted_version(s: Seq<usize>) -> Seq<usize>
    decreases s.len(),
{
    if s.len() == 0 {
        seq![]
    } else {
        let t = sorted_version(s.drop_last());
        t.insert(insert_pos(t, s.last()), s.last())
    }
}

/// The median of sorted values: the middle one, or the mean (rounded
/// down) of the two middle ones.
pub open spec fn median_of(t: Seq<usize>) -> int {
    if t.len() % 2 == 1 {
        t[(t.len() / 2) as int] as int
    } else {
        (t[t.len() / 2 - 1] + t[(t.len() / 2) as int]) / 2
    }
}

proof fn lemma_insert_pos(t: Seq<usize>, x: usize)
    requires
        sorted_seq(t),
    ensures
        0 <= insert_pos(t, x) <= t.len(),
        forall|i: int| 0 <= i < insert_pos(t, x) ==> t[i] <= x,
        forall|i: int| insert_pos(t, x) <= i < t.len() ==> t[i] > x,
    decreases t.len(),
{
    if t.len() > 0 && t[0] <= x {
        let d = t.drop_first();
        assert(sorted_seq(d));
        lemma_insert_pos(d, x);
        assert forall|i: int| 0 <= i < insert_pos(t, x) implies t[i] <= x by {
            if i > 0 {
                assert(t[i] == d[i - 1]);
            }
        }
        assert forall|i: int| insert_pos(t, x) <= i < t.len() implies t[i] > x by {
            assert(t[i] == d[i - 1]);
        }
    } else {
        assert forall|i: int| insert_pos(t, x) <= i < t.len() implies t[i] > x by {
            assert(t[0] <= t[i]);
        }
    }
}

/// Sorting by insertion gives the same values, in increasing order.
pub proof fn lemma_sorted_version(s: Seq<usize>)
    ensures
        sorted_seq(sorted_version(s)),
        sorted_version(s).to_multiset() == s.to_multiset(),
    decreases s.len(),
{
    broadcast use vstd::seq_lib::group_to_multiset_ensures;

    if s.len() > 0 {
        lemma_sorted_version(s.drop_last());
        let t = sorted_version(s.drop_last());
        let p = insert_pos(t, s.last());
        lemma_insert_pos(t, s.last());
        let r = t.insert(p, s.last());
        assert forall|i: int, j: int| 0 <= i <= j < r.len() implies r[i] <= r[j] by {
            if j < p {
            } else if i < p && j == p {
            } else if i < p {
                assert(r[j] == t[j - 1]);
            } else if i == p {
                assert(r[j] == if j == p { s.last() } else { t[j - 1] });
            } else {
                assert(r[i] == t[i - 1] && r[j] == t[j - 1]);
            }
        }
        assert(s.drop_last().push(s.last()) =~= s);
    }
}

/// Sorts `sizes` and returns their median.
pub fn median(sizes: &mut Vec<usize>) -> (r: usize)
    requires
        old(sizes)@.len() > 0,
        old(sizes)@.len() % 2 == 0 ==> sorted_version(old(sizes)@)[old(sizes)@.len() / 2 - 1]
            + sorted_version(old(sizes)@)[(old(sizes)@.len() / 2) as int] <= usize::MAX,
    ensures
        final(sizes)@ == sorted_version(old(sizes)@),
        sorted_seq(final(sizes)@),
        final(sizes)@.to_multiset() == old(sizes)@.to_multiset(),
        r == median_of(final(sizes)@),
{
    proof {
        lemma_sorted_version(old(sizes)@);
    }
    let ghost s = sizes@;
    let mut t: Vec<usize> = Vec::new();
    let mut k: usize = 0;
    assert(s.subrange(0, 0) =~= Seq::<usize>::empty());
    while k < sizes.len()
        invariant
            k <= sizes@.len(),
            sizes@ == s,
            t@ == sorted_version(s.subrange(0, k as int)),
            t@.len() == k,
        decreases sizes.len() - k,
    {
        let x = sizes[k];
        proof {
            lemma_sorted_version(s.subrange(0, k as int));
            lemma_insert_pos(t@, x);
            assert(s.subrange(0, k + 1).drop_last() =~= s.subrange(0, k as int));
            lemma_sorted_len(s.subrange(0, k + 1));
        }
        let mut p: usize = 0;
        while p < t.len() && t[p] <= x
            invariant
                p <= t@.len(),
                sorted_seq(t@),
                forall|i: int| 0 <= i < p ==> t@[i] <= x,
                insert_pos(t@, x) >= p,
                forall|i: int| 0 <= i < insert_pos(t@, x) ==> t@[i] <= x,
                forall|i: int| insert_pos(t@, x) <= i < t@.len() ==> t@[i] > x,
                insert_pos(t@, x) <= t@.len(),
            decreases t.len() - p,
        {
            p = p + 1;
        }
        assert(p == insert_pos(t@, x));
        t.insert(p, x);
        k = k + 1;
    }
    assert(s.subrange(0, k as int) =~= s);
    *sizes = t;
    let n = sizes.len();
    if n % 2 == 1 {
        sizes[n / 2]
    } else {
        (sizes[n / 2 - 1] + sizes[n / 2]) / 2
    }
}

proof fn lemma_sorted_len(s: Seq<usize>)
    ensures
        sorted_version(s).len() == s.len(),
    decreases s.len(),
{
    if s.len() > 0 {
        lemma_sorted_len(s.drop_last());
        let t = sorted_version(s.drop_last());
        lemma_sorted_version(s.drop_last());
        lemma_insert_pos(t, s.last());
    }
}

// ---------------------------------------------------------------------------
// What a `for` loop iterates over.
// ---------------------------------------------------------------------------

/// How the generated code gets an iterator from a loop's expression, whose
/// code is `code`: a range as it is, an array by `iter()`, a call or an
/// index by `into_iter()`, a field (or anything of `self.`) borrowed first,
/// anything else by `into_iter()`.
pub open spec fn loop_iter_text(iter: Expr, code: Seq<char>) -> Seq<char> {
    match iter {
        Expr::Range(..) => "let _iter = "@ + code + ";"@,
        Expr::Array(..) => "let _iter = "@ + code + ".iter();"@,
        Expr::Call(..) | Expr::Index(..) => "let _iter = ("@ + code + ").into_iter();"@,
        _ => if code.len() >= 5 && code.subrange(0, 5) == "self."@ {
            "let _iter = (&"@ + code + ").into_iter();"@
        } else if iter is Attr {
            "let _iter = (&"@ + code + ").into_iter();"@
        } else {
            "let _iter = ("@ + code + ").into_iter();"@
        },
    }
}

fn starts_with_self(code: &str) -> (r: bool)
    ensures
        r == (code@.len() >= 5 && code@.subrange(0, 5) == "self."@),
{
    let v = str_to_chars(code);
    proof {
        reveal_strlit("self.");
    }
    if v.len() < 5 {
        return false;
    }
    let r = v[0] == 's' && v[1] == 'e' && v[2] == 'l' && v[3] == 'f' && v[4] == '.';
    let ghost lit = "self."@;
    assert(lit.len() == 5 && lit[0] == 's' && lit[1] == 'e' && lit[2] == 'l' && lit[3] == 'f'
        && lit[4] == '.');
    if r {
        assert(v@.subrange(0, 5) =~= lit);
    } else {
        assert(v@.subrange(0, 5) != lit) by {
            if v@.subrange(0, 5) == lit {
                assert(v@.subrange(0, 5)[0] == v@[0]);
                assert(v@.subrange(0, 5)[1] == v@[1]);
                assert(v@.subrange(0, 5)[2] == v@[2]);
                assert(v@.subrange(0, 5)[3] == v@[3]);
                assert(v@.subrange(0, 5)[4] == v@[4]);
            }
        }
    }
    r
}

/// The statement that binds `_iter` for a loop over `iter`, whose code is
/// `code` (see `loop_iter_text`).
pub fn loop_iter_line(iter: &Expr, code: &str) -> (r: String)
    ensures
        r@ == loop_iter_text(*iter, code@),
{
    let (open, close): (&str, &str) = match iter {
        Expr::Range(..) => ("let _iter = ", ";"),
        Expr::Array(..) => ("let _iter = ", ".iter();"),
        Expr::Call(..) | Expr::Index(..) => ("let _iter = (", ").into_iter();"),
        _ => if starts_with_self(code) {
            ("let _iter = (&", ").into_iter();")
        } else {
            match iter {
                Expr::Attr(..) => ("let _iter = (&", ").into_iter();"),
                _ => ("let _iter = (", ").into_iter();"),
            }
        },
    };
    let mut line = open.to_owned();
    string_push_str(&mut line, code);
    string_push_str(&mut line, close);
    line
}

} // verus!
