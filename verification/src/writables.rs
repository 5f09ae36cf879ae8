//! The code generator's handling of literals and whitespace, and of the
//! writes it holds back until a tag forces them out.
//!
//! A literal's leading and trailing whitespace is kept, dropped or reduced
//! to one character according to the markers of the neighbouring tags
//! (`-` drops it, `~` reduces it, `+` keeps it) or, without a marker, the
//! configured default. Literals and expressions to write are collected and
//! then written together, in one call.

use vstd::prelude::*;
use crate::ast::{Comment, Expr, Lit, Whitespace, Ws};
use crate::config::{CompileError, WhitespaceHandling};
use crate::filters::{bytes_before, skip_uws, rtrim_uws, trim_chars, trim_uws, utf8_len, utf8_len_exec};
use crate::generator::{cacheable, is_cacheable, written, Buffer};
use crate::parse::{debug_quote, debug_str, decimal, decimal_exec};
use crate::text::{chars_to_string, is_whitespace, spec_is_whitespace, str_eq, str_to_chars, string_push, string_push_str};

verus! {

/// Something to write: a literal, or the value of an expression.
#[derive(Debug)]
pub enum Writable<'a> {
    Lit(String),
    Expr(&'a Expr),
}

/// A writable as plain values.
pub ghost enum WritableM {
    Lit(Seq<char>),
    Expr(Expr),
}

pub open spec fn writable_m<'a>(w: Writable<'a>) -> WritableM {
    match w {
        Writable::Lit(s) => WritableM::Lit(s@),
        Writable::Expr(e) => WritableM::Expr(*e),
    }
}

/// What the generator holds between tags: the trailing whitespace of the
/// last literal (not written yet), how the next literal's leading
/// whitespace is handled, and the writes held back.
pub ghost struct PendingM {
    pub next_ws: Option<Seq<char>>,
    pub skip_ws: WhitespaceHandling,
    pub writables: Seq<WritableM>,
}

/// How whitespace next to a tag is handled: as its marker says, or by
/// default as configured.
pub open spec fn trim_of(ws: Option<Whitespace>, default: WhitespaceHandling) -> WhitespaceHandling {
    match ws {
        Some(Whitespace::Suppress) => WhitespaceHandling::Suppress,
        Some(Whitespace::Preserve) => WhitespaceHandling::Preserve,
        Some(Whitespace::Minimize) => WhitespaceHandling::Minimize,
        None => default,
    }
}

/// Whitespace reduced to one character: a newline if it holds one, else a
/// space.
pub open spec fn minimized(v: Seq<char>) -> Seq<char> {
    if v.contains('\n') {
        seq!['\n']
    } else {
        seq![' ']
    }
}

/// Before a tag: the pending whitespace is written as the tag's left marker
/// says (kept, reduced, or dropped); nothing is pending afterwards.
pub open spec fn flush_m(p: PendingM, ws: Ws, default: WhitespaceHandling) -> PendingM {
    match p.next_ws {
        None => p,
        Some(v) => PendingM {
            next_ws: None,
            writables: match trim_of(ws.0, default) {
                WhitespaceHandling::Preserve => if v.len() > 0 {
                    p.writables.push(WritableM::Lit(v))
                } else {
                    p.writables
                },
                WhitespaceHandling::Minimize => if v.len() > 0 {
                    p.writables.push(WritableM::Lit(minimized(v)))
                } else {
                    p.writables
                },
                WhitespaceHandling::Suppress => p.writables,
            },
            ..p
        },
    }
}

/// After a tag: the next literal's leading whitespace is handled as the
/// tag's right marker says.
pub open spec fn prepare_m(p: PendingM, ws: Ws, default: WhitespaceHandling) -> PendingM {
    PendingM { skip_ws: trim_of(ws.1, default), ..p }
}

/// A tag: the whitespace before it, then the whitespace after it.
pub open spec fn handle_m(p: PendingM, ws: Ws, default: WhitespaceHandling) -> PendingM {
    prepare_m(flush_m(p, ws, default), ws, default)
}

/// A literal: its leading whitespace is dropped, reduced or kept as the tag
/// before it says (kept pending when the literal is only whitespace); its
/// body is written, and then whitespace after a tag is kept again; its
/// trailing whitespace is kept pending. `None` where the generator stops:
/// whitespace still pending, or a literal without a body but with trailing
/// whitespace.
pub open spec fn lit_m(p: PendingM, lws: Seq<char>, val: Seq<char>, rws: Seq<char>) -> Option<PendingM> {
    if p.next_ws is Some {
        None
    } else {
        let p1 = if lws.len() == 0 {
            Some(p)
        } else if p.skip_ws == WhitespaceHandling::Suppress {
            Some(p)
        } else if val.len() == 0 {
            if rws.len() > 0 {
                None
            } else {
                Some(PendingM { next_ws: Some(lws), ..p })
            }
        } else if p.skip_ws == WhitespaceHandling::Preserve {
            Some(PendingM { writables: p.writables.push(WritableM::Lit(lws)), ..p })
        } else {
            Some(PendingM { writables: p.writables.push(WritableM::Lit(minimized(lws))), ..p })
        };
        match p1 {
            None => None,
            Some(q) => {
                let q2 = if val.len() > 0 {
                    PendingM {
                        skip_ws: WhitespaceHandling::Preserve,
                        writables: q.writables.push(WritableM::Lit(val)),
                        ..q
                    }
                } else {
                    q
                };
                Some(
                    if rws.len() > 0 {
                        PendingM { next_ws: Some(rws), ..q2 }
                    } else {
                        q2
                    },
                )
            },
        }
    }
}

/// The code generator's pending state: the configured default for
/// whitespace, the trailing whitespace of the last literal, how the next
/// literal's leading whitespace is handled, the writes held back, and the
/// number of expressions named so far.
pub struct Generator<'a> {
    pub whitespace: WhitespaceHandling,
    pub next_ws: Option<String>,
    pub skip_ws: WhitespaceHandling,
    pub buf_writable: Vec<Writable<'a>>,
    pub named: usize,
}

impl<'a> View for Generator<'a> {
    type V = PendingM;

    open spec fn view(&self) -> PendingM {
        PendingM {
            next_ws: match self.next_ws {
                Some(s) => Some(s@),
                None => None,
            },
            skip_ws: self.skip_ws,
            writables: self.buf_writable@.map_values(|w: Writable<'a>| writable_m(w)),
        }
    }
}

/// One whitespace character standing for `v`.
fn minimized_exec(v: &str) -> (r: String)
    ensures
        r@ == minimized(v@),
{
    let c = str_to_chars(v);
    let mut i: usize = 0;
    while i < c.len()
        invariant
            i <= c.len(),
            c@ == v@,
            forall|j: int| 0 <= j < i ==> c@[j] != '\n',
        decreases c.len() - i,
    {
        if c[i] == '\n' {
            assert(v@.contains('\n')) by {
                assert(v@[i as int] == '\n');
            }
            let mut r = String::new();
            crate::text::string_push(&mut r, '\n');
            assert(r@ =~= seq!['\n']);
            return r;
        }
        i = i + 1;
    }
    assert(!v@.contains('\n'));
    let mut r = String::new();
    crate::text::string_push(&mut r, ' ');
    assert(r@ =~= seq![' ']);
    r
}

impl<'a> Generator<'a> {
    /// Nothing pending; whitespace after the start is kept.
    pub fn new(whitespace: WhitespaceHandling) -> (r: Generator<'a>)
        ensures
            r.whitespace == whitespace,
            r@ == (PendingM {
                next_ws: None,
                skip_ws: WhitespaceHandling::Preserve,
                writables: seq![],
            }),
            r.named == 0,
    {
        let r = Generator {
            whitespace,
            next_ws: None,
            skip_ws: WhitespaceHandling::Preserve,
            buf_writable: Vec::new(),
            named: 0,
        };
        assert(r@.writables =~= Seq::<WritableM>::empty());
        r
    }

    fn push_writable(&mut self, w: Writable<'a>)
        ensures
            final(self)@ == (PendingM { writables: old(self)@.writables.push(writable_m(w)), ..old(self)@ }),
            final(self).whitespace == old(self).whitespace,
            final(self).named == old(self).named,
    {
        let ghost before = self.buf_writable@;
        let ghost m = writable_m(w);
        self.buf_writable.push(w);
        assert(self.buf_writable@.map_values(|x: Writable<'a>| writable_m(x)) =~= before.map_values(
            |x: Writable<'a>| writable_m(x),
        ).push(m));
    }

    /// How whitespace next to a tag with the marker `ws` is handled.
    pub fn should_trim_ws(&self, ws: Option<Whitespace>) -> (r: WhitespaceHandling)
        ensures
            r == trim_of(ws, self.whitespace),
    {
        match ws {
            Some(Whitespace::Suppress) => WhitespaceHandling::Suppress,
            Some(Whitespace::Preserve) => WhitespaceHandling::Preserve,
            Some(Whitespace::Minimize) => WhitespaceHandling::Minimize,
            None => self.whitespace,
        }
    }

    /// Writes the pending whitespace as the tag's left marker says.
    pub fn flush_ws(&mut self, ws: Ws)
        ensures
            final(self)@ == flush_m(old(self)@, ws, old(self).whitespace),
            final(self).whitespace == old(self).whitespace,
            final(self).named == old(self).named,
    {
        let pending = match &self.next_ws {
            None => {
                return;
            },
            Some(v) => v.clone(),
        };
        match self.should_trim_ws(ws.0) {
            WhitespaceHandling::Preserve => {
                if !pending.as_str().is_empty() {
                    self.push_writable(Writable::Lit(pending));
                }
            },
            WhitespaceHandling::Minimize => {
                if !pending.as_str().is_empty() {
                    let m = minimized_exec(pending.as_str());
                    self.push_writable(Writable::Lit(m));
                }
            },
            WhitespaceHandling::Suppress => {},
        }
        self.next_ws = None;
    }

    /// Notes how the next literal's leading whitespace is handled.
    pub fn prepare_ws(&mut self, ws: Ws)
        ensures
            final(self)@ == prepare_m(old(self)@, ws, old(self).whitespace),
            final(self).whitespace == old(self).whitespace,
            final(self).named == old(self).named,
            final(self).buf_writable == old(self).buf_writable,
    {
        self.skip_ws = self.should_trim_ws(ws.1);
    }

    /// A tag with the markers `ws`.
    pub fn handle_ws(&mut self, ws: Ws)
        ensures
            final(self)@ == handle_m(old(self)@, ws, old(self).whitespace),
            final(self).whitespace == old(self).whitespace,
            final(self).named == old(self).named,
    {
        self.flush_ws(ws);
        self.prepare_ws(ws);
    }

    /// A literal (see `lit_m`).
    pub fn visit_lit(&mut self, lit: &Lit)
        requires
            lit_m(old(self)@, lit.lws@, lit.val@, lit.rws@) is Some,
        ensures
            Some(final(self)@) == lit_m(old(self)@, lit.lws@, lit.val@, lit.rws@),
            final(self).whitespace == old(self).whitespace,
            final(self).named == old(self).named,
    {
        let lws = lit.lws.as_str();
        let val = lit.val.as_str();
        let rws = lit.rws.as_str();
        if !lws.is_empty() {
            match self.skip_ws {
                WhitespaceHandling::Suppress => {},
                _ => {
                    if val.is_empty() {
                        self.next_ws = Some(lit.lws.clone());
                    } else {
                        match self.skip_ws {
                            WhitespaceHandling::Preserve => {
                                self.push_writable(Writable::Lit(lit.lws.clone()));
                            },
                            _ => {
                                let m = minimized_exec(lws);
                                self.push_writable(Writable::Lit(m));
                            },
                        }
                    }
                },
            }
        }
        if !val.is_empty() {
            self.skip_ws = WhitespaceHandling::Preserve;
            self.push_writable(Writable::Lit(lit.val.clone()));
        }
        if !rws.is_empty() {
            self.next_ws = Some(lit.rws.clone());
        }
    }

    /// A comment: only its tag's whitespace counts.
    pub fn write_comment(&mut self, comment: &Comment)
        ensures
            final(self)@ == handle_m(old(self)@, comment.ws, old(self).whitespace),
            final(self).whitespace == old(self).whitespace,
            final(self).named == old(self).named,
    {
        self.handle_ws(comment.ws);
    }

    /// An expression tag: its whitespace, then the expression's value is
    /// held back to be written.
    pub fn write_expr(&mut self, ws: Ws, s: &'a Expr)
        ensures
            final(self)@ == ({
                let p = handle_m(old(self)@, ws, old(self).whitespace);
                PendingM { writables: p.writables.push(WritableM::Expr(*s)), ..p }
            }),
            final(self).whitespace == old(self).whitespace,
            final(self).named == old(self).named,
    {
        self.handle_ws(ws);
        self.push_writable(Writable::Expr(s));
    }
}

// ---------------------------------------------------------------------------
// Writing what was held back.
// ---------------------------------------------------------------------------

/// The number of bytes of a text in UTF-8.
pub open spec fn byte_len(s: Seq<char>) -> nat {
    bytes_before(s, s.len() as int)
}

/// Whether everything held back is a literal.
pub open spec fn all_lits(v: Seq<WritableM>) -> bool {
    forall|i: int| 0 <= i < v.len() ==> v[i] is Lit
}

/// The literals one after the other.
pub open spec fn lits_text(v: Seq<WritableM>) -> Seq<char>
    decreases v.len(),
{
    if v.len() == 0 {
        seq![]
    } else {
        lits_text(v.drop_last()) + match v.last() {
            WritableM::Lit(s) => s,
            WritableM::Expr(_) => seq![],
        }
    }
}

/// How many expressions are held back.
pub open spec fn expr_count(v: Seq<WritableM>) -> nat
    decreases v.len(),
{
    if v.len() == 0 {
        0
    } else {
        expr_count(v.drop_last()) + if v.last() is Expr {
            1nat
        } else {
            0nat
        }
    }
}

/// A text in a format string: each brace doubled.
pub open spec fn escape_braces(s: Seq<char>) -> Seq<char>
    decreases s.len(),
{
    if s.len() == 0 {
        seq![]
    } else {
        escape_braces(s.drop_last()) + if s.last() == '{' {
            seq!['{', '{']
        } else if s.last() == '}' {
            seq!['}', '}']
        } else {
            seq![s.last()]
        }
    }
}

/// An expression's code as it is written: as it is when its value is
/// already fit for display, else wrapped with the escaper.
pub open spec fn shown_expr(code: Seq<char>, wrapped: bool, escaper: Seq<char>) -> Seq<char> {
    if wrapped {
        code
    } else {
        "::askama::MarkupDisplay::new_unsafe(&("@ + code + "), "@ + escaper + ")"@
    }
}

/// The number given first to the expression `k`, if any.
pub open spec fn cache_get(c: Seq<(Seq<char>, nat)>, k: Seq<char>) -> Option<nat>
    decreases c.len(),
{
    if c.len() == 0 {
        None
    } else if c[0].0 == k {
        Some(c[0].1)
    } else {
        cache_get(c.drop_first(), k)
    }
}

/// The argument that names an expression: `exprN = &CODE,` on a line of
/// its own, indented.
pub open spec fn expr_entry(ind: u8, id: nat, x: Seq<char>) -> Seq<char> {
    written(true, ind, "expr"@ + decimal(id) + " = "@) + "&"@ + x + ","@ + seq!['\n']
}

/// The `write!` call being built: its format string, its named arguments,
/// the expressions named so far with their numbers, the next number, the
/// size of the output, and how many expressions were seen.
pub ghost struct Batch {
    pub format: Seq<char>,
    pub exprs: Seq<char>,
    pub cache: Seq<(Seq<char>, nat)>,
    pub named: nat,
    pub size: nat,
    pub k: nat,
}

/// One more thing held back: a literal goes into the format string (its
/// size counted in bytes); an expression is a named argument, shared with
/// an earlier one of the same code when it can be evaluated once (its size
/// counted as 3).
pub open spec fn batch_step(
    b: Batch,
    w: WritableM,
    codes: Seq<(Seq<char>, bool)>,
    escaper: Seq<char>,
    ind: u8,
) -> Batch {
    match w {
        WritableM::Lit(s) => Batch { format: b.format + escape_braces(s), size: b.size + byte_len(s), ..b },
        WritableM::Expr(e) => {
            let x = shown_expr(codes[b.k as int].0, codes[b.k as int].1, escaper);
            let hit = cache_get(b.cache, x);
            if hit is Some && cacheable(e) {
                Batch {
                    format: b.format + "{expr"@ + decimal(hit.unwrap()) + "}"@,
                    size: b.size + 3,
                    k: b.k + 1,
                    ..b
                }
            } else {
                Batch {
                    format: b.format + "{expr"@ + decimal(b.named) + "}"@,
                    exprs: b.exprs + expr_entry(ind, b.named, x),
                    cache: if hit is Some {
                        b.cache
                    } else {
                        b.cache.push((x, b.named))
                    },
                    named: b.named + 1,
                    size: b.size + 3,
                    k: b.k + 1,
                    ..b
                }
            }
        },
    }
}

/// Everything held back, in order.
pub open spec fn batch(
    v: Seq<WritableM>,
    codes: Seq<(Seq<char>, bool)>,
    escaper: Seq<char>,
    ind: u8,
    named: nat,
) -> Batch
    decreases v.len(),
{
    if v.len() == 0 {
        Batch { format: seq![], exprs: seq![], cache: seq![], named, size: 0, k: 0 }
    } else {
        batch_step(batch(v.drop_last(), codes, escaper, ind, named), v.last(), codes, escaper, ind)
    }
}

/// The codes as plain values.
pub open spec fn codes_m(codes: Seq<(String, bool)>) -> Seq<(Seq<char>, bool)> {
    codes.map_values(|c: (String, bool)| (c.0@, c.1))
}

/// The lines that write the batch: `::std::write!(`, then one level deeper
/// `writer,`, the format string, and the named arguments, then `)?;`.
pub open spec fn write_call_text(start: bool, ind: u8, format: Seq<char>, exprs: Seq<char>) -> Seq<char> {
    written(start, ind, "::std::write!("@) + seq!['\n'] + written(true, (ind + 1) as u8, "writer,"@)
        + seq!['\n'] + written(true, (ind + 1) as u8, debug_str(format) + ","@) + seq!['\n']
        + written(true, (ind + 1) as u8, trim_uws(exprs)) + seq!['\n'] + written(true, ind, ")?;"@)
        + seq!['\n']
}

/// The batch's facts used to keep counts in range.
pub(crate) proof fn lemma_batch_counts(
    v: Seq<WritableM>,
    codes: Seq<(Seq<char>, bool)>,
    escaper: Seq<char>,
    ind: u8,
    named: nat,
)
    ensures
        batch(v, codes, escaper, ind, named).k == expr_count(v),
        batch(v, codes, escaper, ind, named).named <= named + expr_count(v),
        batch(v, codes, escaper, ind, named).size == byte_len(lits_text(v)) + 3 * expr_count(v),
    decreases v.len(),
{
    if v.len() > 0 {
        lemma_batch_counts(v.drop_last(), codes, escaper, ind, named);
        lemma_byte_len_concat(lits_text(v.drop_last()), match v.last() {
            WritableM::Lit(s) => s,
            WritableM::Expr(_) => seq![],
        });
    }
}

/// Bytes add up.
proof fn lemma_byte_len_concat(a: Seq<char>, b: Seq<char>)
    ensures
        byte_len(a + b) == byte_len(a) + byte_len(b),
    decreases b.len(),
{
    if b.len() > 0 {
        lemma_byte_len_concat(a, b.drop_last());
        assert((a + b).drop_last() =~= a + b.drop_last());
        lemma_bytes_before_full(a + b);
        lemma_bytes_before_full(a + b.drop_last());
        lemma_bytes_before_full(b);
        lemma_bytes_before_full(b.drop_last());
    } else {
        assert(a + b =~= a);
    }
}

/// The bytes of a text: those before its last character, and that one.
proof fn lemma_bytes_before_full(s: Seq<char>)
    ensures
        s.len() > 0 ==> byte_len(s) == byte_len(s.drop_last()) + utf8_len(s.last()),
        s.len() == 0 ==> byte_len(s) == 0,
{
    if s.len() > 0 {
        lemma_bytes_before_prefix(s, s.len() - 1);
    }
}

/// The bytes before position `k` of `s` are those of `s[..k]`.
proof fn lemma_bytes_before_prefix(s: Seq<char>, k: int)
    requires
        0 <= k <= s.len(),
    ensures
        bytes_before(s, k) == bytes_before(s.subrange(0, k), k),
    decreases k,
{
    if k > 0 {
        lemma_bytes_before_prefix(s, k - 1);
        lemma_bytes_before_prefix(s.subrange(0, k), k - 1);
        assert(s.subrange(0, k).subrange(0, k - 1) =~= s.subrange(0, k - 1));
    }
}

fn escape_braces_into(out: &mut Vec<char>, s: &str)
    ensures
        final(out)@ == old(out)@ + escape_braces(s@),
{
    let c = str_to_chars(s);
    let mut i: usize = 0;
    while i < c.len()
        invariant
            i <= c.len(),
            c@ == s@,
            out@ == old(out)@ + escape_braces(c@.subrange(0, i as int)),
        decreases c.len() - i,
    {
        assert(c@.subrange(0, i + 1).drop_last() =~= c@.subrange(0, i as int));
        let ghost before = out@;
        if c[i] == '{' {
            out.push('{');
            out.push('{');
        } else if c[i] == '}' {
            out.push('}');
            out.push('}');
        } else {
            out.push(c[i]);
        }
        i = i + 1;
        assert(out@ =~= old(out)@ + escape_braces(c@.subrange(0, i as int)));
    }
    assert(c@.subrange(0, i as int) =~= c@);
}

fn byte_length(s: &str) -> (r: usize)
    requires
        byte_len(s@) <= usize::MAX,
    ensures
        r == byte_len(s@),
{
    let c = str_to_chars(s);
    let mut n: usize = 0;
    let mut i: usize = 0;
    while i < c.len()
        invariant
            i <= c.len(),
            c@ == s@,
            byte_len(s@) <= usize::MAX,
            n == byte_len(c@.subrange(0, i as int)),
        decreases c.len() - i,
    {
        proof {
            lemma_bytes_before_full(c@.subrange(0, i + 1));
            assert(c@.subrange(0, i + 1).drop_last() =~= c@.subrange(0, i as int));
            lemma_byte_len_concat(c@.subrange(0, i + 1), c@.subrange(i + 1, c@.len() as int));
            assert(c@.subrange(0, i + 1) + c@.subrange(i + 1, c@.len() as int) =~= c@);
        }
        n = n + utf8_len_exec(c[i]);
        i = i + 1;
    }
    assert(c@.subrange(0, i as int) =~= c@);
    n
}

/// The view of the numbered expressions.
pub open spec fn cache_m(c: Seq<(String, usize)>) -> Seq<(Seq<char>, nat)> {
    c.map_values(|e: (String, usize)| (e.0@, e.1 as nat))
}

fn cache_lookup(cache: &Vec<(String, usize)>, x: &str) -> (r: Option<usize>)
    ensures
        match r {
            Some(v) => cache_get(cache_m(cache@), x@) == Some(v as nat),
            None => cache_get(cache_m(cache@), x@) is None,
        },
{
    let ghost cv = cache_m(cache@);
    let mut i: usize = 0;
    assert(cv.subrange(0, cv.len() as int) =~= cv);
    while i < cache.len()
        invariant
            i <= cache.len(),
            cv == cache_m(cache@),
            cache_get(cv, x@) == cache_get(cv.subrange(i as int, cv.len() as int), x@),
        decreases cache.len() - i,
    {
        let ghost rest = cv.subrange(i as int, cv.len() as int);
        if str_eq(cache[i].0.as_str(), x) {
            assert(rest[0] == cv[i as int]);
            return Some(cache[i].1);
        }
        assert(rest.drop_first() =~= cv.subrange(i + 1, cv.len() as int));
        i = i + 1;
    }
    None
}

fn shown_expr_exec(code: &String, wrapped: bool, escaper: &str) -> (r: String)
    ensures
        r@ == shown_expr(code@, wrapped, escaper@),
{
    if wrapped {
        return code.clone();
    }
    let mut r = String::new();
    string_push_str(&mut r, "::askama::MarkupDisplay::new_unsafe(&(");
    string_push_str(&mut r, code.as_str());
    string_push_str(&mut r, "), ");
    string_push_str(&mut r, escaper);
    string_push_str(&mut r, ")");
    assert(r@ =~= shown_expr(code@, wrapped, escaper@));
    r
}

/// `{exprN}`.
fn placeholder(id: usize) -> (r: String)
    ensures
        r@ == "{expr"@ + decimal(id as nat) + "}"@,
{
    let mut r = String::new();
    string_push_str(&mut r, "{expr");
    string_push_str(&mut r, decimal_exec(id as u128).as_str());
    string_push_str(&mut r, "}");
    r
}

/// `exprN = `.
fn entry_head(id: usize) -> (r: String)
    ensures
        r@ == "expr"@ + decimal(id as nat) + " = "@,
{
    let mut r = String::new();
    string_push_str(&mut r, "expr");
    string_push_str(&mut r, decimal_exec(id as u128).as_str());
    string_push_str(&mut r, " = ");
    r
}

/// A line that ends in `c` (neither `{` nor `}`) is neither `}` nor opens a
/// block.
proof fn lemma_plain_line(s: Seq<char>, c: char)
    requires
        s.len() > 0,
        s.last() == c,
        c != '{',
        c != '}',
    ensures
        s != "}"@,
{
    reveal_strlit("}");
    if s == "}"@ {
        assert(s.last() == '}');
    }
}

/// The first non-whitespace character is not after `j`.
proof fn lemma_skip_uws_le(s: Seq<char>, i: int, j: int)
    requires
        0 <= i <= j < s.len(),
        !spec_is_whitespace(s[j]),
    ensures
        i <= skip_uws(s, i) <= j,
    decreases j - i,
{
    if i < j && spec_is_whitespace(s[i]) {
        lemma_skip_uws_le(s, i + 1, j);
    }
}

/// Trimmed, named arguments end with their last `,`.
proof fn lemma_trimmed_entries(e: Seq<char>)
    requires
        e.len() >= 2,
        e[e.len() - 2] == ',',
        e[e.len() - 1] == '\n',
    ensures
        trim_uws(e).len() > 0,
        trim_uws(e).last() == ',',
{
    let a = skip_uws(e, 0);
    assert(spec_is_whitespace('\n'));
    assert(!spec_is_whitespace(','));
    lemma_skip_uws_le(e, 0, e.len() - 2);
    assert(rtrim_uws(e, e.len() as int, a) == rtrim_uws(e, e.len() - 1, a));
    assert(rtrim_uws(e, e.len() - 1, a) == e.len() - 1);
    assert(trim_uws(e) == e.subrange(a, e.len() - 1));
}

impl<'a> Generator<'a> {
    fn take_writables(&mut self) -> (r: Vec<Writable<'a>>)
        ensures
            r@.map_values(|w: Writable<'a>| writable_m(w)) == old(self)@.writables,
            final(self).buf_writable@.len() == 0,
            final(self).whitespace == old(self).whitespace,
            final(self).next_ws == old(self).next_ws,
            final(self).skip_ws == old(self).skip_ws,
            final(self).named == old(self).named,
    {
        let mut items: Vec<Writable<'a>> = Vec::new();
        std::mem::swap(&mut items, &mut self.buf_writable);
        items
    }

    /// Writes what was held back, in one call, and returns the size of the
    /// output. Only literals: one `write_str` of their text, sized in bytes.
    /// Otherwise one `write!` whose format string holds the literals and a
    /// named argument for each expression (see `batch`); `codes` gives the
    /// code of each expression held back, in order, and whether its value is
    /// already fit for display, and `escaper` the escaper for the others.
    pub fn write_buf_writable(&mut self, buf: &mut Buffer, codes: &Vec<(String, bool)>, escaper: &str) -> (r:
        Result<usize, CompileError>)
        requires
            codes@.len() == expr_count(old(self)@.writables),
            old(buf).indent < 255,
            old(self).named + expr_count(old(self)@.writables) <= usize::MAX,
            byte_len(lits_text(old(self)@.writables)) + 3 * expr_count(old(self)@.writables)
                <= usize::MAX,
        ensures
            final(self).buf_writable@.len() == 0,
            final(self).whitespace == old(self).whitespace,
            final(self).next_ws == old(self).next_ws,
            final(self).skip_ws == old(self).skip_ws,
            old(self)@.writables.len() == 0 ==> r == Ok::<usize, CompileError>(0) && *final(buf)
                == *old(buf) && final(self).named == old(self).named,
            old(self)@.writables.len() > 0 && all_lits(old(self)@.writables) ==> r == Ok::<
                usize,
                CompileError,
            >(byte_len(lits_text(old(self)@.writables)) as usize) && final(buf).buf@ == old(buf).buf@
                + written(
                old(buf).start,
                old(buf).indent,
                "writer.write_str("@ + debug_str(lits_text(old(self)@.writables)) + ")?;"@,
            ) + seq!['\n'] && final(buf).indent == old(buf).indent && final(buf).start
                && final(self).named == old(self).named,
            old(self)@.writables.len() > 0 && !all_lits(old(self)@.writables) ==> ({
                let b = batch(
                    old(self)@.writables,
                    codes_m(codes@),
                    escaper@,
                    (old(buf).indent + 1) as u8,
                    old(self).named as nat,
                );
                &&& r == Ok::<usize, CompileError>(b.size as usize)
                &&& final(buf).buf@ == old(buf).buf@ + write_call_text(
                    old(buf).start,
                    old(buf).indent,
                    b.format,
                    b.exprs,
                )
                &&& final(buf).indent == old(buf).indent
                &&& final(buf).start
                &&& final(self).named == b.named
            }),
    {
        let ghost ws = self@.writables;
        if self.buf_writable.len() == 0 {
            return Ok(0);
        }
        let items = self.take_writables();
        assert(items@.len() == ws.len());
        let mut only_lits = true;
        let mut i: usize = 0;
        while i < items.len()
            invariant
                i <= items.len(),
                items@.map_values(|w: Writable<'a>| writable_m(w)) == ws,
                only_lits == (forall|j: int| 0 <= j < i ==> ws[j] is Lit),
                *buf == *old(buf),
            decreases items.len() - i,
        {
            assert(ws[i as int] == writable_m(items@[i as int]));
            match &items[i] {
                Writable::Lit(_) => {},
                Writable::Expr(_) => {
                    only_lits = false;
                },
            }
            i = i + 1;
        }
        if only_lits {
            let mut text = String::new();
            let mut j: usize = 0;
            while j < items.len()
                invariant
                    j <= items.len(),
                    items@.map_values(|w: Writable<'a>| writable_m(w)) == ws,
                    all_lits(ws),
                    text@ == lits_text(ws.subrange(0, j as int)),
                    *buf == *old(buf),
                decreases items.len() - j,
            {
                assert(ws.subrange(0, j + 1).drop_last() =~= ws.subrange(0, j as int));
                match &items[j] {
                    Writable::Lit(s) => {
                        string_push_str(&mut text, s.as_str());
                    },
                    Writable::Expr(_) => {},
                }
                j = j + 1;
            }
            assert(ws.subrange(0, j as int) =~= ws);
            proof {
                lemma_batch_counts(ws, codes_m(codes@), escaper@, 0, 0);
            }
            let size = byte_length(text.as_str());
            let mut line = String::new();
            string_push_str(&mut line, "writer.write_str(");
            string_push_str(&mut line, debug_quote(text.as_str()).as_str());
            string_push_str(&mut line, ")?;");
            proof {
                reveal_strlit(")?;");
                assert(line@ == "writer.write_str("@ + debug_str(text@) + ")?;"@);
                lemma_plain_line(line@, ';');
            }
            let r = buf.writeln(line.as_str());
            return Ok(size);
        }
        proof {
            let j = choose|j: int| 0 <= j < items@.len() && !(ws[j] is Lit);
            lemma_expr_count_pos(ws, j);
        }
        let ghost codes_v = codes_m(codes@);
        let ghost ind: u8 = (buf.indent + 1) as u8;
        let ghost named0 = self.named as nat;
        let mut format: Vec<char> = Vec::new();
        let mut buf_expr = Buffer::new(buf.indent + 1);
        let mut cache: Vec<(String, usize)> = Vec::new();
        let mut size_hint: usize = 0;
        let mut k: usize = 0;
        let mut i: usize = 0;
        proof {
            lemma_batch_counts(ws, codes_v, escaper@, ind, named0);
            assert(cache_m(cache@) =~= Seq::<(Seq<char>, nat)>::empty());
        }
        while i < items.len()
            invariant
                i <= items.len(),
                items@.map_values(|w: Writable<'a>| writable_m(w)) == ws,
                codes_v == codes_m(codes@),
                codes@.len() == expr_count(ws),
                named0 + expr_count(ws) <= usize::MAX,
                byte_len(lits_text(ws)) + 3 * expr_count(ws) <= usize::MAX,
                buf_expr.indent == ind,
                buf_expr.start,
                *buf == *old(buf),
                !all_lits(ws),
                self.buf_writable@.len() == 0,
                self.whitespace == old(self).whitespace,
                self.next_ws == old(self).next_ws,
                self.skip_ws == old(self).skip_ws,
                ind == old(buf).indent + 1,
                batch(ws.subrange(0, i as int), codes_v, escaper@, ind, named0).format == format@,
                batch(ws.subrange(0, i as int), codes_v, escaper@, ind, named0).exprs == buf_expr.buf@,
                batch(ws.subrange(0, i as int), codes_v, escaper@, ind, named0).cache == cache_m(cache@),
                batch(ws.subrange(0, i as int), codes_v, escaper@, ind, named0).named == self.named as nat,
                batch(ws.subrange(0, i as int), codes_v, escaper@, ind, named0).size == size_hint as nat,
                batch(ws.subrange(0, i as int), codes_v, escaper@, ind, named0).k == k as nat,
            decreases items.len() - i,
        {
            let ghost pre = ws.subrange(0, i as int);
            let ghost post = ws.subrange(0, i + 1);
            proof {
                assert(post.drop_last() =~= pre);
                assert(post.last() == ws[i as int]);
                assert(ws[i as int] == writable_m(items@[i as int]));
                lemma_batch_entries(pre, codes_v, escaper@, ind, named0);
                lemma_batch_counts(pre, codes_v, escaper@, ind, named0);
                lemma_batch_counts(post, codes_v, escaper@, ind, named0);
                lemma_prefix_counts(ws, i + 1);
            }
            match &items[i] {
                Writable::Lit(s) => {
                    escape_braces_into(&mut format, s.as_str());
                    proof {
                        lemma_byte_len_concat(lits_text(pre), s@);
                    }
                    let n = byte_length(s.as_str());
                    size_hint = size_hint + n;
                },
                Writable::Expr(e) => {
                    let expression = shown_expr_exec(&codes[k].0, codes[k].1, escaper);
                    let hit = cache_lookup(&cache, expression.as_str());
                    let cached = match hit {
                        Some(v) => is_cacheable(e),
                        None => false,
                    };
                    let id: usize = if cached {
                        match hit {
                            Some(v) => v,
                            None => 0,
                        }
                    } else {
                        let id = self.named;
                        self.named = self.named + 1;
                        let head = entry_head(id);
                        buf_expr.write(head.as_str());
                        buf_expr.write("&");
                        buf_expr.write(expression.as_str());
                        proof {
                            reveal_strlit(",");
                            lemma_plain_line(","@, ',');
                        }
                        let r = buf_expr.writeln(",");
                        if hit.is_none() {
                            let ghost before = cache@;
                            cache.push((expression, id));
                            assert(cache_m(cache@) =~= cache_m(before).push((expression@, id as nat)));
                        }
                        id
                    };
                    let ph = placeholder(id);
                    let pc = str_to_chars(ph.as_str());
                    crate::text::extend_chars(&mut format, pc.as_slice());
                    size_hint = size_hint + 3;
                    k = k + 1;
                },
            }
            i = i + 1;
        }
        assert(ws.subrange(0, i as int) =~= ws);
        proof {
            reveal_strlit("::std::write!(");
            reveal_strlit("writer,");
            reveal_strlit(",");
            reveal_strlit(")?;");
            lemma_plain_line("::std::write!("@, '(');
            lemma_plain_line("writer,"@, ',');
            lemma_plain_line(")?;"@, ';');
            lemma_batch_entries(ws, codes_v, escaper@, ind, named0);
            lemma_trimmed_entries(buf_expr.buf@);
            lemma_plain_line(trim_uws(buf_expr.buf@), ',');
        }
        buf.writeln("::std::write!(");
        buf.indent();
        buf.writeln("writer,");
        let mut fline = debug_quote(chars_to_string(format.as_slice()).as_str());
        string_push_str(&mut fline, ",");
        proof {
            lemma_plain_line(fline@, ',');
        }
        buf.writeln(fline.as_str());
        let ec = str_to_chars(buf_expr.buf.as_str());
        let trimmed = chars_to_string(trim_chars(&ec).as_slice());
        buf.writeln(trimmed.as_str());
        buf.dedent();
        buf.writeln(")?;");
        Ok(size_hint)
    }
}

/// The counts of a prefix are at most those of the whole.
proof fn lemma_prefix_counts(v: Seq<WritableM>, k: int)
    requires
        0 <= k <= v.len(),
    ensures
        expr_count(v.subrange(0, k)) <= expr_count(v),
        byte_len(lits_text(v.subrange(0, k))) <= byte_len(lits_text(v)),
    decreases v.len() - k,
{
    if k < v.len() {
        lemma_prefix_counts(v, k + 1);
        let p = v.subrange(0, k + 1);
        assert(p.drop_last() =~= v.subrange(0, k));
        lemma_byte_len_concat(lits_text(v.subrange(0, k)), match p.last() {
            WritableM::Lit(s) => s,
            WritableM::Expr(_) => seq![],
        });
    } else {
        assert(v.subrange(0, k) =~= v);
    }
}

/// Once an expression is numbered, the named arguments end with `,` and a
/// line end.
proof fn lemma_batch_entries(
    v: Seq<WritableM>,
    codes: Seq<(Seq<char>, bool)>,
    escaper: Seq<char>,
    ind: u8,
    named: nat,
)
    ensures
        expr_count(v) > 0 ==> batch(v, codes, escaper, ind, named).cache.len() > 0,
        batch(v, codes, escaper, ind, named).cache.len() > 0 ==> {
            let e = batch(v, codes, escaper, ind, named).exprs;
            &&& e.len() >= 2
            &&& e[e.len() - 2] == ','
            &&& e[e.len() - 1] == '\n'
        },
    decreases v.len(),
{
    reveal_strlit(",");
    if v.len() > 0 {
        lemma_batch_entries(v.drop_last(), codes, escaper, ind, named);
    }
}

/// A sequence holding an expression counts one.
proof fn lemma_expr_count_pos(v: Seq<WritableM>, j: int)
    requires
        0 <= j < v.len(),
        v[j] is Expr,
    ensures
        expr_count(v) > 0,
    decreases v.len(),
{
    if j < v.len() - 1 {
        lemma_expr_count_pos(v.drop_last(), j);
    }
}

} // verus!
