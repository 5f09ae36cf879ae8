//! A code generator for templates made of literals, expressions, conditions,
//! loops and blocks. A template that defines blocks becomes a trait with one
//! method per block; a template that extends another implements the other's
//! trait with its own blocks.
//!
//! The generator writes Rust code line by line, four spaces per level of
//! indentation. Whitespace around literals is kept, except where a `-` on the
//! neighbouring tag asks for it to be dropped.

use vstd::prelude::*;
use crate::derive_input::opt_chars;
use crate::generator::spaces;
use crate::parse::{debug_quote, debug_str};
use crate::text::{str_eq, str_to_chars, string_push, string_push_str};

verus! {

// ---------------------------------------------------------------------------
// The syntax tree.
// ---------------------------------------------------------------------------

/// An expression.
#[derive(Debug)]
pub enum Expr {
    /// A number, as written.
    NumLit(String),
    /// A string literal's contents.
    StrLit(String),
    /// A variable.
    Var(String),
    /// A filter applied to an expression.
    Filter(String, Box<Expr>),
    /// A binary operator and its operands.
    BinOp(String, Box<Expr>, Box<Expr>),
}

/// What a loop binds.
#[derive(Debug)]
pub enum Target {
    Name(String),
}

/// Whitespace suppression on the two sides of a tag: whether the `-` is
/// there on the left (`{%-`) and on the right (`-%}`).
#[derive(Clone, Copy, Debug, PartialEq, Eq)]
pub struct WS(pub bool, pub bool);

/// What a `when` arm of a `match` block matches: a path, a name or a
/// literal.
#[derive(Debug, PartialEq, Eq)]
pub enum MatchVariant {
    Path(Vec<String>),
    Name(String),
    NumLit(String),
    StrLit(String),
}

/// One parameter of a `when` arm: a name to bind, or a literal.
#[derive(Debug, PartialEq, Eq)]
pub enum MatchParameter {
    Name(String),
    NumLit(String),
    StrLit(String),
}

/// The parameters of a `when` arm: positional, or by field name.
#[derive(Debug, PartialEq, Eq)]
pub enum MatchParameters {
    Simple(Vec<MatchParameter>),
    Named(Vec<(String, Option<MatchParameter>)>),
}

impl Default for MatchParameters {
    fn default() -> (r: Self)
        ensures
            r matches MatchParameters::Simple(v) && v@.len() == 0,
    {
        MatchParameters::Simple(vec![])
    }
}

/// A node of a template.
#[derive(Debug)]
pub enum Node {
    /// A literal: its leading whitespace, its body and its trailing whitespace.
    Lit(String, String, String),
    /// An expression to write.
    Expr(WS, Expr),
    /// The branches of an `if`, each with its condition (none for `else`),
    /// and the whitespace of `endif`.
    Cond(Vec<(WS, Option<Expr>, Vec<Node>)>, WS),
    /// A `for` loop: its tags' whitespace, target, iterable and body.
    Loop(WS, Target, Expr, Vec<Node>, WS),
    /// `extends` with the parent template.
    Extends(Expr),
    /// A block's definition: its name and its nodes.
    BlockDef(WS, String, Vec<Node>, WS),
    /// A use of a block, by name.
    Block(WS, String, WS),
}

// ---------------------------------------------------------------------------
// Names.
// ---------------------------------------------------------------------------

/// Whether `char::is_alphanumeric` holds of `c` (the Unicode `Alphabetic`
/// property or a numeric general category).
pub uninterp spec fn char_alphanumeric(c: char) -> bool;

/// `char::is_alphanumeric`. Stated: the result is the named property of `c`,
/// and among ASCII characters exactly the letters and digits have it; which
/// other characters have it is left unsaid.
#[verifier::external_body]
fn char_is_alphanumeric(c: char) -> (r: bool)
    ensures
        r == char_alphanumeric(c),
        (c as u32) < 0x80 ==> (r <==> (('a' <= c && c <= 'z') || ('A' <= c && c <= 'Z') || ('0'
            <= c && c <= '9'))),
{
    c.is_alphanumeric()
}

/// A lowercase hexadecimal digit.
pub open spec fn hex_digit(d: nat) -> char {
    seq!['0', '1', '2', '3', '4', '5', '6', '7', '8', '9', 'a', 'b', 'c', 'd', 'e', 'f'][d as int]
}

/// A number in lowercase hexadecimal, without leading zeros.
pub open spec fn hex_lower(n: nat) -> Seq<char>
    decreases n,
{
    if n < 16 {
        seq![hex_digit(n)]
    } else {
        hex_lower(n / 16).push(hex_digit(n % 16))
    }
}

/// A path made into an identifier: alphanumeric characters are kept, any
/// other is replaced by its code point in lowercase hexadecimal.
pub open spec fn path_ident(s: Seq<char>) -> Seq<char>
    decreases s.len(),
{
    if s.len() == 0 {
        seq![]
    } else {
        path_ident(s.drop_last()) + if char_alphanumeric(s.last()) {
            seq![s.last()]
        } else {
            hex_lower((s.last() as u32) as nat)
        }
    }
}

/// Whether an ASCII character is a letter or a digit.
pub open spec fn ascii_alnum(c: char) -> bool {
    ('a' <= c && c <= 'z') || ('A' <= c && c <= 'Z') || ('0' <= c && c <= '9')
}

/// `path_ident` for ASCII text: letters and digits kept, every other
/// character replaced by its code in lowercase hexadecimal.
pub open spec fn path_ident_ascii(s: Seq<char>) -> Seq<char>
    decreases s.len(),
{
    if s.len() == 0 {
        seq![]
    } else {
        path_ident_ascii(s.drop_last()) + if ascii_alnum(s.last()) {
            seq![s.last()]
        } else {
            hex_lower((s.last() as u32) as nat)
        }
    }
}

pub(crate) fn hex_of(n: u32) -> (r: Vec<char>)
    ensures
        r@ == hex_lower(n as nat),
    decreases n,
{
    let digits: &[char] = &['0', '1', '2', '3', '4', '5', '6', '7', '8', '9', 'a', 'b', 'c', 'd', 'e', 'f'];
    assert(digits@ =~= seq!['0', '1', '2', '3', '4', '5', '6', '7', '8', '9', 'a', 'b', 'c', 'd', 'e', 'f']);
    if n < 16 {
        let mut v: Vec<char> = Vec::new();
        v.push(digits[n as usize]);
        assert(v@ =~= hex_lower(n as nat));
        v
    } else {
        let mut v = hex_of(n / 16);
        v.push(digits[(n % 16) as usize]);
        v
    }
}

/// The identifier made of the path `s`: alphanumeric characters are kept,
/// any other is replaced by its code point in lowercase hexadecimal.
pub fn path_as_identifier(s: &str) -> (r: String)
    ensures
        r@ == path_ident(s@),
        crate::filters::all_ascii(s@) ==> r@ == path_ident_ascii(s@),
{
    let c = str_to_chars(s);
    let mut out = String::new();
    let mut i: usize = 0;
    while i < c.len()
        invariant
            i <= c.len(),
            c@ == s@,
            out@ == path_ident(c@.subrange(0, i as int)),
            crate::filters::all_ascii(s@) ==> out@ == path_ident_ascii(c@.subrange(0, i as int)),
        decreases c.len() - i,
    {
        let ghost before = c@.subrange(0, i as int);
        assert(c@.subrange(0, i + 1).drop_last() =~= before);
        if char_is_alphanumeric(c[i]) {
            string_push(&mut out, c[i]);
        } else {
            let h = hex_of(c[i] as u32);
            let mut k: usize = 0;
            let ghost mid = out@;
            while k < h.len()
                invariant
                    k <= h.len(),
                    out@ == mid + h@.subrange(0, k as int),
                decreases h.len() - k,
            {
                string_push(&mut out, h[k]);
                k = k + 1;
                assert(out@ =~= mid + h@.subrange(0, k as int));
            }
            assert(h@.subrange(0, h@.len() as int) =~= h@);
        }
        i = i + 1;
        assert(out@ =~= path_ident(c@.subrange(0, i as int)));
    }
    assert(c@.subrange(0, c@.len() as int) =~= c@);
    out
}

/// The lifetimes as generic arguments: `<` and the lifetimes one after the
/// other, then `>`; nothing without lifetimes.
pub open spec fn annotation_of(lifetimes: Seq<Seq<char>>) -> Seq<char> {
    if lifetimes.len() == 0 {
        seq![]
    } else {
        seq!['<'] + lifetimes.fold_left(Seq::<char>::empty(), |acc: Seq<char>, l: Seq<char>| acc + l)
            + seq!['>']
    }
}

/// The lifetimes of the item as generic arguments: `<` and the lifetimes one
/// after the other, then `>`; empty without lifetimes.
pub fn annotations(lifetimes: &Vec<String>) -> (r: String)
    ensures
        r@ == annotation_of(lifetimes@.map_values(|l: String| l@)),
{
    let ghost ls = lifetimes@.map_values(|l: String| l@);
    if lifetimes.len() < 1 {
        return String::new();
    }
    let mut res = String::new();
    string_push(&mut res, '<');
    let mut i: usize = 0;
    while i < lifetimes.len()
        invariant
            i <= lifetimes.len(),
            ls == lifetimes@.map_values(|l: String| l@),
            res@ == seq!['<'] + ls.subrange(0, i as int).fold_left(
                Seq::<char>::empty(),
                |acc: Seq<char>, l: Seq<char>| acc + l,
            ),
        decreases lifetimes.len() - i,
    {
        assert(ls.subrange(0, i + 1).drop_last() =~= ls.subrange(0, i as int));
        string_push_str(&mut res, lifetimes[i].as_str());
        i = i + 1;
        assert(res@ =~= seq!['<'] + ls.subrange(0, i as int).fold_left(
            Seq::<char>::empty(),
            |acc: Seq<char>, l: Seq<char>| acc + l,
        ));
    }
    string_push(&mut res, '>');
    assert(ls.subrange(0, ls.len() as int) =~= ls);
    res
}

// ---------------------------------------------------------------------------
// The generator's state and its elementary steps.
// ---------------------------------------------------------------------------

/// The state of the generator: the code so far, the indentation level,
/// whether the current line is still empty, the loop variables in scope, the
/// trailing whitespace of the last literal (not written yet), and whether the
/// next literal's leading whitespace is to be dropped.
pub ghost struct GenState {
    pub buf: Seq<char>,
    pub indent: int,
    pub start: bool,
    pub locals: Seq<Seq<char>>,
    pub next_ws: Option<Seq<char>>,
    pub skip_ws: bool,
}

/// The state before anything is generated.
pub open spec fn initial_state() -> GenState {
    GenState {
        buf: seq![],
        indent: 0,
        start: true,
        locals: seq![],
        next_ws: None,
        skip_ws: false,
    }
}

// Each step maps a state to the next one, or to `None` where the generator
// stops with a panic; `None` stays `None`.

/// Writes `t`, after the indentation when the line is new. The indentation
/// is counted in a byte: four spaces per level, at most 255.
pub open spec fn write_s(o: Option<GenState>, t: Seq<char>) -> Option<GenState> {
    match o {
        None => None,
        Some(s) => if !s.start {
            Some(GenState { buf: s.buf + t, ..s })
        } else if s.indent * 4 > 255 {
            None
        } else {
            Some(GenState { buf: s.buf + spaces((s.indent * 4) as nat) + t, start: false, ..s })
        },
    }
}

/// Writes the line `t` and ends it; an empty line is not written at all.
pub open spec fn writeln_s(o: Option<GenState>, t: Seq<char>) -> Option<GenState> {
    if t.len() == 0 {
        o
    } else {
        match write_s(o, t) {
            None => None,
            Some(s) => Some(GenState { buf: s.buf.push('\n'), start: true, ..s }),
        }
    }
}

/// One level deeper (the level is a byte).
pub open spec fn indent_s(o: Option<GenState>) -> Option<GenState> {
    match o {
        None => None,
        Some(s) => if s.indent >= 255 {
            None
        } else {
            Some(GenState { indent: s.indent + 1, ..s })
        },
    }
}

/// One level less deep.
pub open spec fn dedent_s(o: Option<GenState>) -> Option<GenState> {
    match o {
        None => None,
        Some(s) => if s.indent <= 0 {
            None
        } else {
            Some(GenState { indent: s.indent - 1, ..s })
        },
    }
}

/// The line that writes the text `v`.
pub open spec fn write_str_line(v: Seq<char>) -> Seq<char> {
    "writer.write_str("@ + debug_str(v) + ").unwrap();"@
}

/// Writes the pending whitespace of the last literal, unless the tag's left
/// `-` drops it; either way nothing is pending afterwards.
pub open spec fn flush_s(o: Option<GenState>, ws: WS) -> Option<GenState> {
    match o {
        None => None,
        Some(s) => {
            let w = match s.next_ws {
                Some(v) => if !ws.0 && v.len() > 0 {
                    writeln_s(Some(s), write_str_line(v))
                } else {
                    Some(s)
                },
                None => Some(s),
            };
            match w {
                None => None,
                Some(t) => Some(GenState { next_ws: None, ..t }),
            }
        },
    }
}

/// Whether the next literal's leading whitespace is dropped: when the tag's
/// right `-` is there.
pub open spec fn prepare_s(o: Option<GenState>, ws: WS) -> Option<GenState> {
    match o {
        None => None,
        Some(s) => Some(GenState { skip_ws: ws.1, ..s }),
    }
}

/// A tag: the whitespace before it, then the whitespace after it.
pub open spec fn handle_ws_s(o: Option<GenState>, ws: WS) -> Option<GenState> {
    prepare_s(flush_s(o, ws), ws)
}

/// The loop variables in scope.
pub open spec fn locals_of(o: Option<GenState>) -> Seq<Seq<char>> {
    match o {
        Some(s) => s.locals,
        None => seq![],
    }
}

/// `x` is taken out of `s`, where it occurs first.
pub open spec fn seq_remove(s: Seq<Seq<char>>, x: Seq<char>) -> Seq<Seq<char>>
    decreases s.len(),
{
    if s.len() == 0 {
        s
    } else if s[0] == x {
        s.drop_first()
    } else {
        seq![s[0]] + seq_remove(s.drop_first(), x)
    }
}

/// The variable `name` comes into scope.
pub open spec fn add_local_s(o: Option<GenState>, name: Seq<char>) -> Option<GenState> {
    match o {
        None => None,
        Some(s) => Some(
            GenState {
                locals: if s.locals.contains(name) {
                    s.locals
                } else {
                    s.locals.push(name)
                },
                ..s
            },
        ),
    }
}

/// The variable `name` goes out of scope.
pub open spec fn remove_local_s(o: Option<GenState>, name: Seq<char>) -> Option<GenState> {
    match o {
        None => None,
        Some(s) => Some(GenState { locals: seq_remove(s.locals, name), ..s }),
    }
}

/// The code of an expression: a variable in scope by its name, any other
/// as a field of `self`; a filter as a call of the filter of that name on
/// a reference; an operator between its operands, with a space on each side.
pub open spec fn expr_code(e: Expr, locals: Seq<Seq<char>>) -> Seq<char>
    decreases e,
{
    match e {
        Expr::NumLit(n) => n@,
        Expr::StrLit(t) => "\""@ + t@ + "\""@,
        Expr::Var(v) => if locals.contains(v@) {
            v@
        } else {
            "self."@ + v@
        },
        Expr::Filter(name, inner) => "askama::filters::"@ + name@ + "(&"@ + expr_code(*inner, locals)
            + ")"@,
        Expr::BinOp(op, l, r) => expr_code(*l, locals) + " "@ + op@ + " "@ + expr_code(*r, locals),
    }
}

/// A literal: its leading whitespace is dropped after a tag's right `-`
/// (once), kept pending when the literal is only whitespace, and written
/// otherwise; then its body; its trailing whitespace is kept pending. The
/// generator stops where whitespace is still pending, or where a literal
/// without a body has trailing whitespace.
pub open spec fn lit_s(o: Option<GenState>, lws: Seq<char>, val: Seq<char>, rws: Seq<char>) -> Option<GenState> {
    match o {
        None => None,
        Some(s) => if s.next_ws is Some {
            None
        } else {
            let s1 = if lws.len() == 0 {
                Some(s)
            } else if s.skip_ws {
                Some(GenState { skip_ws: false, ..s })
            } else if val.len() == 0 {
                if rws.len() != 0 {
                    None
                } else {
                    Some(GenState { next_ws: Some(lws), ..s })
                }
            } else {
                writeln_s(Some(s), write_str_line(lws))
            };
            let s2 = if val.len() == 0 {
                s1
            } else {
                writeln_s(s1, write_str_line(val))
            };
            if rws.len() == 0 {
                s2
            } else {
                match s2 {
                    None => None,
                    Some(t) => Some(GenState { next_ws: Some(rws), ..t }),
                }
            }
        },
    }
}

/// An expression tag: its whitespace, then a line that writes the value.
pub open spec fn expr_node_s(o: Option<GenState>, ws: WS, e: Expr) -> Option<GenState> {
    let s1 = write_s(handle_ws_s(o, ws), "writer.write_fmt(format_args!(\"{}\", "@);
    writeln_s(write_s(s1, expr_code(e, locals_of(s1))), ")).unwrap();"@)
}

/// Two writes are one write of both texts.
pub proof fn lemma_write_write(o: Option<GenState>, a: Seq<char>, b: Seq<char>)
    ensures
        write_s(write_s(o, a), b) == write_s(o, a + b),
{
    match o {
        None => {},
        Some(s) => {
            if s.start && s.indent * 4 <= 255 {
                assert(s.buf + spaces((s.indent * 4) as nat) + a + b =~= s.buf + spaces(
                    (s.indent * 4) as nat,
                ) + (a + b));
            } else if !s.start {
                assert(s.buf + a + b =~= s.buf + (a + b));
            }
        },
    }
}

/// The generator.
struct CodeGen {
    buf: String,
    indent: u8,
    start: bool,
    locals: Vec<String>,
    next_ws: Option<String>,
    skip_ws: bool,
}

impl View for CodeGen {
    type V = GenState;

    closed spec fn view(&self) -> GenState {
        GenState {
            buf: self.buf@,
            indent: self.indent as int,
            start: self.start,
            locals: self.locals@.map_values(|l: String| l@),
            next_ws: opt_chars(self.next_ws),
            skip_ws: self.skip_ws,
        }
    }
}

impl CodeGen {
    fn new() -> (r: CodeGen)
        ensures
            r@ == initial_state(),
    {
        let r = CodeGen {
            buf: String::new(),
            indent: 0,
            start: true,
            locals: Vec::new(),
            next_ws: None,
            skip_ws: false,
        };
        assert(r@.locals =~= Seq::<Seq<char>>::empty());
        r
    }

    fn indent(&mut self)
        requires
            indent_s(Some(old(self)@)) is Some,
        ensures
            Some(final(self)@) == indent_s(Some(old(self)@)),
    {
        self.indent = self.indent + 1;
    }

    fn dedent(&mut self)
        requires
            dedent_s(Some(old(self)@)) is Some,
        ensures
            Some(final(self)@) == dedent_s(Some(old(self)@)),
    {
        self.indent = self.indent - 1;
    }

    fn write(&mut self, s: &str)
        requires
            write_s(Some(old(self)@), s@) is Some,
        ensures
            Some(final(self)@) == write_s(Some(old(self)@), s@),
    {
        let ghost b = self.buf@;
        if self.start {
            let n: u8 = self.indent * 4;
            let mut i: u8 = 0;
            while i < n
                invariant
                    i <= n,
                    n == self.indent * 4,
                    self.buf@ == b + spaces(i as nat),
                    self.indent == old(self).indent,
                    self.start == old(self).start,
                    self.locals == old(self).locals,
                    self.next_ws == old(self).next_ws,
                    self.skip_ws == old(self).skip_ws,
                decreases n - i,
            {
                string_push(&mut self.buf, ' ');
                i = i + 1;
                assert(self.buf@ =~= b + spaces(i as nat));
            }
            self.start = false;
        }
        string_push_str(&mut self.buf, s);
        proof {
            if old(self).start {
                assert(self.buf@ =~= b + spaces((old(self)@.indent * 4) as nat) + s@);
            } else {
                assert(self.buf@ =~= b + s@);
            }
        }
        assert(Some(self@) == write_s(Some(old(self)@), s@));
    }

    fn writeln(&mut self, s: &str)
        requires
            writeln_s(Some(old(self)@), s@) is Some,
        ensures
            Some(final(self)@) == writeln_s(Some(old(self)@), s@),
    {
        if s.is_empty() {
            return;
        }
        self.write(s);
        string_push(&mut self.buf, '\n');
        self.start = true;
    }

    /// Writes the code of `e`.
    fn visit_expr(&mut self, e: &Expr)
        requires
            write_s(Some(old(self)@), expr_code(*e, old(self)@.locals)) is Some,
        ensures
            Some(final(self)@) == write_s(Some(old(self)@), expr_code(*e, old(self)@.locals)),
        decreases e,
    {
        let ghost o = Some(self@);
        let ghost locals = self@.locals;
        match e {
            Expr::NumLit(n) => {
                self.write(n.as_str());
            },
            Expr::StrLit(t) => {
                proof {
                    lemma_write_write(o, "\""@, t@);
                    lemma_write_write(write_s(o, "\""@), t@, "\""@);
                    lemma_write_write(o, "\""@ + t@, "\""@);
                }
                self.write("\"");
                self.write(t.as_str());
                self.write("\"");
            },
            Expr::Var(v) => {
                if self.contains_local(v.as_str()) {
                    self.write(v.as_str());
                } else {
                    proof {
                        lemma_write_write(o, "self."@, v@);
                    }
                    self.write("self.");
                    self.write(v.as_str());
                }
            },
            Expr::Filter(name, inner) => {
                let ghost a = "askama::filters::"@ + name@ + "(&"@;
                let ghost ic = expr_code(**inner, locals);
                proof {
                    lemma_write_write(o, "askama::filters::"@, name@);
                    lemma_write_write(o, "askama::filters::"@ + name@, "(&"@);
                    lemma_write_write(o, a, ic);
                    lemma_write_write(o, a + ic, ")"@);
                    lemma_write_write(write_s(o, "askama::filters::"@), name@, "(&"@);
                    lemma_write_write(write_s(o, a), ic, ")"@);
                }
                self.write("askama::filters::");
                self.write(name.as_str());
                self.write("(&");
                self.visit_expr(inner);
                self.write(")");
            },
            Expr::BinOp(op, l, r) => {
                let ghost lc = expr_code(**l, locals);
                let ghost rc = expr_code(**r, locals);
                proof {
                    lemma_write_write(o, lc, " "@);
                    lemma_write_write(o, lc + " "@, op@);
                    lemma_write_write(o, lc + " "@ + op@, " "@);
                    lemma_write_write(o, lc + " "@ + op@ + " "@, rc);
                    lemma_write_write(write_s(o, lc), " "@, op@);
                    lemma_write_write(write_s(o, lc), " "@ + op@, " "@);
                    lemma_write_write(write_s(o, lc + " "@), op@, " "@);
                    lemma_write_write(write_s(o, lc + " "@ + op@), " "@, rc);
                    assert(lc + " "@ + op@ + " "@ + rc == expr_code(*e, locals));
                }
                self.visit_expr(l);
                self.write(" ");
                self.write(op.as_str());
                self.write(" ");
                self.visit_expr(r);
            },
        }
    }

    /// Whether `name` is a loop variable in scope.
    fn contains_local(&self, name: &str) -> (r: bool)
        ensures
            r == self@.locals.contains(name@),
    {
        let mut i: usize = 0;
        while i < self.locals.len()
            invariant
                i <= self.locals.len(),
                forall|j: int| 0 <= j < i ==> self@.locals[j] != name@,
            decreases self.locals.len() - i,
        {
            if str_eq(self.locals[i].as_str(), name) {
                assert(self@.locals[i as int] == name@);
                return true;
            }
            i = i + 1;
        }
        false
    }

    fn insert_local(&mut self, name: String)
        ensures
            Some(final(self)@) == add_local_s(Some(old(self)@), name@),
    {
        if !self.contains_local(name.as_str()) {
            let ghost n = name@;
            self.locals.push(name);
            assert(self@.locals =~= old(self)@.locals.push(n));
        }
    }

    fn remove_local(&mut self, name: &str)
        ensures
            Some(final(self)@) == remove_local_s(Some(old(self)@), name@),
    {
        let ghost ls = self@.locals;
        let mut i: usize = 0;
        assert(ls.subrange(0, 0) + seq_remove(ls.subrange(0, ls.len() as int), name@) =~= seq_remove(
            ls,
            name@,
        )) by {
            assert(ls.subrange(0, ls.len() as int) =~= ls);
        }
        while i < self.locals.len()
            invariant
                i <= self.locals.len(),
                ls == self@.locals,
                self@ == old(self)@,
                forall|j: int| 0 <= j < i ==> ls[j] != name@,
                seq_remove(ls, name@) == ls.subrange(0, i as int) + seq_remove(
                    ls.subrange(i as int, ls.len() as int),
                    name@,
                ),
            decreases self.locals.len() - i,
        {
            let ghost rest = ls.subrange(i as int, ls.len() as int);
            if str_eq(self.locals[i].as_str(), name) {
                self.locals.remove(i);
                assert(rest.drop_first() =~= ls.subrange(i + 1, ls.len() as int));
                assert(self@.locals =~= seq_remove(ls, name@));
                return;
            }
            assert(rest.drop_first() =~= ls.subrange(i + 1, ls.len() as int));
            assert(ls.subrange(0, i as int) + seq![ls[i as int]] =~= ls.subrange(0, i + 1));
            assert(ls.subrange(0, i + 1) + seq_remove(ls.subrange(i + 1, ls.len() as int), name@)
                =~= ls.subrange(0, i as int) + (seq![rest[0]] + seq_remove(rest.drop_first(), name@)));
            i = i + 1;
        }
        assert(ls.subrange(i as int, ls.len() as int) =~= Seq::<Seq<char>>::empty());
        assert(ls.subrange(0, i as int) =~= ls);
    }

    fn line_for_text(v: &str) -> (r: String)
        ensures
            r@ == write_str_line(v@),
    {
        let mut line = String::new();
        string_push_str(&mut line, "writer.write_str(");
        let q = debug_quote(v);
        string_push_str(&mut line, q.as_str());
        string_push_str(&mut line, ").unwrap();");
        assert(line@ =~= write_str_line(v@));
        line
    }

    /// Writes the pending whitespace of the last literal, unless the tag's
    /// left `-` drops it.
    fn flush_ws(&mut self, ws: WS)
        requires
            flush_s(Some(old(self)@), ws) is Some,
        ensures
            Some(final(self)@) == flush_s(Some(old(self)@), ws),
    {
        match &self.next_ws {
            Some(val) => {
                if !ws.0 && !val.as_str().is_empty() {
                    let line = Self::line_for_text(val.as_str());
                    self.writeln(line.as_str());
                }
            },
            None => {},
        }
        self.next_ws = None;
    }

    /// Notes whether the next literal's leading whitespace is dropped.
    fn prepare_ws(&mut self, ws: WS)
        ensures
            Some(final(self)@) == prepare_s(Some(old(self)@), ws),
    {
        self.skip_ws = ws.1;
    }

    fn handle_ws(&mut self, ws: WS)
        requires
            handle_ws_s(Some(old(self)@), ws) is Some,
        ensures
            Some(final(self)@) == handle_ws_s(Some(old(self)@), ws),
    {
        self.flush_ws(ws);
        self.prepare_ws(ws);
    }

    fn write_lit(&mut self, lws: &String, val: &String, rws: &String)
        requires
            lit_s(Some(old(self)@), lws@, val@, rws@) is Some,
        ensures
            Some(final(self)@) == lit_s(Some(old(self)@), lws@, val@, rws@),
    {
        if !lws.as_str().is_empty() {
            if self.skip_ws {
                self.skip_ws = false;
            } else if val.as_str().is_empty() {
                self.next_ws = Some(lws.clone());
            } else {
                let line = Self::line_for_text(lws.as_str());
                self.writeln(line.as_str());
            }
        }
        if !val.as_str().is_empty() {
            let line = Self::line_for_text(val.as_str());
            self.writeln(line.as_str());
        }
        if !rws.as_str().is_empty() {
            self.next_ws = Some(rws.clone());
        }
    }

    fn write_expr(&mut self, ws: WS, e: &Expr)
        requires
            expr_node_s(Some(old(self)@), ws, *e) is Some,
        ensures
            Some(final(self)@) == expr_node_s(Some(old(self)@), ws, *e),
    {
        self.handle_ws(ws);
        self.write("writer.write_fmt(format_args!(\"{}\", ");
        self.visit_expr(e);
        self.writeln(")).unwrap();");
    }
}

// ---------------------------------------------------------------------------
// Nodes.
// ---------------------------------------------------------------------------

/// The name a loop binds.
pub open spec fn target_name(t: Target) -> Seq<char> {
    match t {
        Target::Name(n) => n@,
    }
}

/// The head of a branch of an `if`: `if` and the condition for the first,
/// `} else if` and the condition for the others, `} else` for `else`.
pub open spec fn cond_head_s(o: Option<GenState>, cond: Option<Expr>, first: bool) -> Option<GenState> {
    match cond {
        Some(e) => {
            let s1 = write_s(
                o,
                if first {
                    "if "@
                } else {
                    "} else if "@
                },
            );
            write_s(s1, expr_code(e, locals_of(s1)))
        },
        None => writeln_s(o, "} else"@),
    }
}

/// The branches of an `if`, each its tag's whitespace, its head, then its
/// nodes one level deeper.
pub open spec fn conds_s(o: Option<GenState>, v: Seq<(WS, Option<Expr>, Vec<Node>)>) -> Option<GenState>
    decreases v,
{
    if v.len() == 0 {
        o
    } else {
        proof {
            assert(decreases_to!(v => v.drop_last()));
            assert(decreases_to!(v => v.last()));
        }
        let c = v.last();
        let s1 = handle_ws_s(conds_s(o, v.drop_last()), c.0);
        let s2 = writeln_s(cond_head_s(s1, c.1, v.len() == 1), " {"@);
        dedent_s(nodes_s(indent_s(s2), c.2@))
    }
}

/// A node. The generator stops at `extends`, which belongs at the top of a
/// template only.
pub open spec fn node_s(o: Option<GenState>, n: Node) -> Option<GenState>
    decreases n,
{
    match n {
        Node::Lit(l, v, r) => lit_s(o, l@, v@, r@),
        Node::Expr(ws, e) => expr_node_s(o, ws, e),
        Node::Cond(conds, ws) => writeln_s(handle_ws_s(conds_s(o, conds@), ws), "}"@),
        Node::Loop(ws1, var, iter, body, ws2) => {
            let name = target_name(var);
            let s1 = write_s(add_local_s(write_s(handle_ws_s(o, ws1), "for "@), name), name);
            let s2 = write_s(s1, " in &"@);
            let s3 = writeln_s(write_s(s2, expr_code(iter, locals_of(s2))), " {"@);
            let s4 = handle_ws_s(nodes_s(indent_s(s3), body@), ws2);
            remove_local_s(writeln_s(dedent_s(s4), "}"@), name)
        },
        Node::Extends(_) => None,
        Node::BlockDef(ws1, name, nodes, ws2) => {
            let s1 = writeln_s(
                writeln_s(o, "#[allow(unused_variables)]"@),
                "fn impl_block_"@ + name@ + "_to(&self, writer: &mut std::fmt::Write) {"@,
            );
            let s2 = nodes_s(prepare_s(indent_s(s1), ws1), nodes@);
            writeln_s(dedent_s(flush_s(s2, ws2)), "}"@)
        },
        Node::Block(ws1, name, ws2) => prepare_s(
            writeln_s(flush_s(o, ws1), "self.render_block_"@ + name@ + "_to(writer);"@),
            ws2,
        ),
    }
}

/// The nodes, one after the other.
pub open spec fn nodes_s(o: Option<GenState>, v: Seq<Node>) -> Option<GenState>
    decreases v,
{
    if v.len() == 0 {
        o
    } else {
        proof {
            assert(decreases_to!(v => v.drop_last()));
        }
        node_s(nodes_s(o, v.drop_last()), v.last())
    }
}

/// Once the generator has stopped, it stays stopped.
pub proof fn lemma_stopped_node(n: Node)
    ensures
        node_s(None, n) is None,
    decreases n,
{
    match n {
        Node::Cond(conds, ws) => {
            lemma_stopped_conds(conds@);
        },
        Node::Loop(ws1, var, iter, body, ws2) => {
            let name = target_name(var);
            let s1 = write_s(add_local_s(write_s(handle_ws_s(None, ws1), "for "@), name), name);
            let s2 = write_s(s1, " in &"@);
            let s3 = writeln_s(write_s(s2, expr_code(iter, locals_of(s2))), " {"@);
            lemma_stopped_nodes(body@);
            assert(s3 is None);
        },
        Node::BlockDef(ws1, name, nodes, ws2) => {
            lemma_stopped_nodes(nodes@);
        },
        _ => {},
    }
}

/// Once the generator has stopped, it stays stopped.
pub proof fn lemma_stopped_nodes(v: Seq<Node>)
    ensures
        nodes_s(None, v) is None,
    decreases v,
{
    if v.len() > 0 {
        assert(decreases_to!(v => v.drop_last()));
        lemma_stopped_nodes(v.drop_last());
        lemma_stopped_node(v.last());
    }
}

/// Once the generator has stopped, it stays stopped.
pub proof fn lemma_stopped_conds(v: Seq<(WS, Option<Expr>, Vec<Node>)>)
    ensures
        conds_s(None, v) is None,
    decreases v,
{
    if v.len() > 0 {
        assert(decreases_to!(v => v.drop_last()));
        assert(decreases_to!(v => v.last()));
        lemma_stopped_conds(v.drop_last());
        lemma_stopped_nodes(v.last().2@);
    }
}

/// Where the generator goes through the nodes, it goes through each prefix.
proof fn lemma_nodes_prefix(o: Option<GenState>, v: Seq<Node>, k: int)
    requires
        0 <= k <= v.len(),
        nodes_s(o, v) is Some,
    ensures
        nodes_s(o, v.subrange(0, k)) is Some,
    decreases v.len() - k,
{
    if k < v.len() {
        lemma_nodes_prefix(o, v, k + 1);
        let p = v.subrange(0, k + 1);
        assert(p.drop_last() =~= v.subrange(0, k));
        if nodes_s(o, v.subrange(0, k)) is None {
            lemma_stopped_node(p.last());
        }
    } else {
        assert(v.subrange(0, k) =~= v);
    }
}

/// Where the generator goes through the branches, it goes through each prefix.
proof fn lemma_conds_prefix(o: Option<GenState>, v: Seq<(WS, Option<Expr>, Vec<Node>)>, k: int)
    requires
        0 <= k <= v.len(),
        conds_s(o, v) is Some,
    ensures
        conds_s(o, v.subrange(0, k)) is Some,
    decreases v.len() - k,
{
    if k < v.len() {
        lemma_conds_prefix(o, v, k + 1);
        let p = v.subrange(0, k + 1);
        assert(p.drop_last() =~= v.subrange(0, k));
        if conds_s(o, v.subrange(0, k)) is None {
            lemma_stopped_nodes(p.last().2@);
        }
    } else {
        assert(v.subrange(0, k) =~= v);
    }
}

/// `a`, `b` and `c` one after the other.
fn concat3(a: &str, b: &str, c: &str) -> (r: String)
    ensures
        r@ == a@ + b@ + c@,
{
    let mut r = String::new();
    string_push_str(&mut r, a);
    string_push_str(&mut r, b);
    string_push_str(&mut r, c);
    assert(r@ =~= a@ + b@ + c@);
    r
}

impl CodeGen {
    fn handle(&mut self, nodes: &[Node])
        requires
            nodes_s(Some(old(self)@), nodes@) is Some,
        ensures
            Some(final(self)@) == nodes_s(Some(old(self)@), nodes@),
        decreases nodes@, 0nat,
    {
        let ghost s0 = Some(self@);
        let mut i: usize = 0;
        assert(nodes@.subrange(0, 0) =~= Seq::<Node>::empty());
        while i < nodes.len()
            invariant
                i <= nodes@.len(),
                nodes_s(s0, nodes@) is Some,
                Some(self@) == nodes_s(s0, nodes@.subrange(0, i as int)),
            decreases nodes.len() - i,
        {
            proof {
                lemma_nodes_prefix(s0, nodes@, i + 1);
                assert(nodes@.subrange(0, i + 1).drop_last() =~= nodes@.subrange(0, i as int));
            }
            self.handle_node(&nodes[i]);
            i = i + 1;
        }
        assert(nodes@.subrange(0, i as int) =~= nodes@);
    }

    fn handle_node(&mut self, n: &Node)
        requires
            node_s(Some(old(self)@), *n) is Some,
        ensures
            Some(final(self)@) == node_s(Some(old(self)@), *n),
        decreases n, 0nat,
    {
        match n {
            Node::Lit(lws, val, rws) => {
                self.write_lit(lws, val, rws);
            },
            Node::Expr(ws, e) => {
                self.write_expr(*ws, e);
            },
            Node::Cond(conds, ws) => {
                self.write_cond(conds.as_slice(), *ws);
            },
            Node::Loop(ws1, var, iter, body, ws2) => {
                self.write_loop(*ws1, var, iter, body.as_slice(), *ws2);
            },
            Node::Extends(_) => {},
            Node::BlockDef(ws1, name, nodes, ws2) => {
                self.write_block_def(*ws1, name.as_str(), nodes.as_slice(), *ws2);
            },
            Node::Block(ws1, name, ws2) => {
                self.write_block(*ws1, name.as_str(), *ws2);
            },
        }
    }

    fn write_cond(&mut self, conds: &[(WS, Option<Expr>, Vec<Node>)], ws: WS)
        requires
            writeln_s(handle_ws_s(conds_s(Some(old(self)@), conds@), ws), "}"@) is Some,
        ensures
            Some(final(self)@) == writeln_s(handle_ws_s(conds_s(Some(old(self)@), conds@), ws), "}"@),
        decreases conds@, 1nat,
    {
        let ghost s0 = Some(self@);
        let mut i: usize = 0;
        assert(conds@.subrange(0, 0) =~= Seq::<(WS, Option<Expr>, Vec<Node>)>::empty());
        while i < conds.len()
            invariant
                i <= conds@.len(),
                conds_s(s0, conds@) is Some,
                Some(self@) == conds_s(s0, conds@.subrange(0, i as int)),
            decreases conds.len() - i,
        {
            let ghost p = conds@.subrange(0, i + 1);
            proof {
                lemma_conds_prefix(s0, conds@, i + 1);
                assert(p.drop_last() =~= conds@.subrange(0, i as int));
                assert(p.last() == conds@[i as int]);
                assert(decreases_to!(conds@ => conds@[i as int]));
                lemma_stopped_nodes(conds@[i as int].2@);
            }
            let c = &conds[i];
            self.handle_ws(c.0);
            match &c.1 {
                Some(e) => {
                    if i == 0 {
                        self.write("if ");
                    } else {
                        self.write("} else if ");
                    }
                    self.visit_expr(e);
                },
                None => {
                    self.writeln("} else");
                },
            }
            self.writeln(" {");
            self.indent();
            self.handle(c.2.as_slice());
            self.dedent();
            i = i + 1;
        }
        assert(conds@.subrange(0, i as int) =~= conds@);
        self.handle_ws(ws);
        self.writeln("}");
    }

    fn write_loop(&mut self, ws1: WS, var: &Target, iter: &Expr, body: &[Node], ws2: WS)
        requires
            ({
                let name = target_name(*var);
                let s1 = write_s(
                    add_local_s(write_s(handle_ws_s(Some(old(self)@), ws1), "for "@), name),
                    name,
                );
                let s2 = write_s(s1, " in &"@);
                let s3 = writeln_s(write_s(s2, expr_code(*iter, locals_of(s2))), " {"@);
                let s4 = handle_ws_s(nodes_s(indent_s(s3), body@), ws2);
                remove_local_s(writeln_s(dedent_s(s4), "}"@), name)
            }) is Some,
        ensures
            Some(final(self)@) == ({
                let name = target_name(*var);
                let s1 = write_s(
                    add_local_s(write_s(handle_ws_s(Some(old(self)@), ws1), "for "@), name),
                    name,
                );
                let s2 = write_s(s1, " in &"@);
                let s3 = writeln_s(write_s(s2, expr_code(*iter, locals_of(s2))), " {"@);
                let s4 = handle_ws_s(nodes_s(indent_s(s3), body@), ws2);
                remove_local_s(writeln_s(dedent_s(s4), "}"@), name)
            }),
        decreases body@, 1nat,
    {
        let ghost s0 = Some(self@);
        let name = match var {
            Target::Name(n) => n,
        };
        proof {
            lemma_stopped_nodes(body@);
        }
        self.handle_ws(ws1);
        self.write("for ");
        self.insert_local(name.clone());
        self.write(name.as_str());
        self.write(" in &");
        self.visit_expr(iter);
        self.writeln(" {");
        self.indent();
        self.handle(body);
        self.handle_ws(ws2);
        self.dedent();
        self.writeln("}");
        self.remove_local(name.as_str());
    }

    fn write_block(&mut self, ws1: WS, name: &str, ws2: WS)
        requires
            prepare_s(
                writeln_s(
                    flush_s(Some(old(self)@), ws1),
                    "self.render_block_"@ + name@ + "_to(writer);"@,
                ),
                ws2,
            ) is Some,
        ensures
            Some(final(self)@) == prepare_s(
                writeln_s(
                    flush_s(Some(old(self)@), ws1),
                    "self.render_block_"@ + name@ + "_to(writer);"@,
                ),
                ws2,
            ),
    {
        self.flush_ws(ws1);
        let line = concat3("self.render_block_", name, "_to(writer);");
        self.writeln(line.as_str());
        self.prepare_ws(ws2);
    }

    fn write_block_def(&mut self, ws1: WS, name: &str, nodes: &[Node], ws2: WS)
        requires
            ({
                let s1 = writeln_s(
                    writeln_s(Some(old(self)@), "#[allow(unused_variables)]"@),
                    "fn impl_block_"@ + name@ + "_to(&self, writer: &mut std::fmt::Write) {"@,
                );
                let s2 = nodes_s(prepare_s(indent_s(s1), ws1), nodes@);
                writeln_s(dedent_s(flush_s(s2, ws2)), "}"@)
            }) is Some,
        ensures
            Some(final(self)@) == ({
                let s1 = writeln_s(
                    writeln_s(Some(old(self)@), "#[allow(unused_variables)]"@),
                    "fn impl_block_"@ + name@ + "_to(&self, writer: &mut std::fmt::Write) {"@,
                );
                let s2 = nodes_s(prepare_s(indent_s(s1), ws1), nodes@);
                writeln_s(dedent_s(flush_s(s2, ws2)), "}"@)
            }),
        decreases nodes@, 1nat,
    {
        proof {
            lemma_stopped_nodes(nodes@);
        }
        self.writeln("#[allow(unused_variables)]");
        let line = concat3("fn impl_block_", name, "_to(&self, writer: &mut std::fmt::Write) {");
        self.writeln(line.as_str());
        self.indent();
        self.prepare_ws(ws1);
        self.handle(nodes);
        self.flush_ws(ws2);
        self.dedent();
        self.writeln("}");
    }
}

// ---------------------------------------------------------------------------
// Implementations and traits.
// ---------------------------------------------------------------------------

/// The lifetimes as plain values.
pub open spec fn lifetimes_view(l: Seq<String>) -> Seq<Seq<char>> {
    l.map_values(|s: String| s@)
}

/// A type alias named after the template's path, for the item.
pub open spec fn path_based_name_s(o: Option<GenState>, ident: Seq<char>, anno: Seq<char>, path: Seq<char>) -> Option<GenState> {
    writeln_s(
        writeln_s(o, "#[allow(dead_code, non_camel_case_types)]"@),
        "type TemplateFrom"@ + path_ident(path) + anno + " = "@ + ident + anno + ";"@,
    )
}

/// An inherent implementation for the item holding the given nodes (the
/// block definitions).
pub open spec fn struct_impl_s(o: Option<GenState>, ident: Seq<char>, anno: Seq<char>, blocks: Seq<Node>) -> Option<GenState> {
    let s1 = indent_s(writeln_s(o, "impl"@ + anno + " "@ + ident + anno + " {"@));
    writeln_s(dedent_s(nodes_s(s1, blocks)), "}"@)
}

/// A method `render_to` made of the nodes.
pub open spec fn render_to_s(o: Option<GenState>, nodes: Seq<Node>) -> Option<GenState> {
    let s1 = indent_s(writeln_s(o, "fn render_to(&self, writer: &mut std::fmt::Write) {"@));
    writeln_s(dedent_s(flush_s(nodes_s(s1, nodes), WS(false, false))), "}"@)
}

/// `Template` for the item, rendering the nodes.
pub open spec fn template_impl_s(o: Option<GenState>, ident: Seq<char>, anno: Seq<char>, nodes: Seq<Node>) -> Option<GenState> {
    let s1 = indent_s(writeln_s(o, "impl"@ + anno + " askama::Template for "@ + ident + anno + " {"@));
    writeln_s(dedent_s(render_to_s(s1, nodes)), "}"@)
}

/// A method `render_block_NAME_to` that calls `impl_block_NAME_to`.
pub open spec fn block_fn_s(o: Option<GenState>, name: Seq<char>) -> Option<GenState> {
    let s1 = indent_s(
        writeln_s(o, "fn render_block_"@ + name + "_to(&self, writer: &mut std::fmt::Write) {"@),
    );
    writeln_s(dedent_s(writeln_s(s1, "self.impl_block_"@ + name + "_to(writer);"@)), "}"@)
}

/// One `render_block_NAME_to` method per block, in order.
pub open spec fn block_fns_s(o: Option<GenState>, names: Seq<Seq<char>>) -> Option<GenState>
    decreases names.len(),
{
    if names.len() == 0 {
        o
    } else {
        block_fn_s(block_fns_s(o, names.drop_last()), names.last())
    }
}

/// The implementation, for the item, of the trait of the template at `base`.
pub open spec fn trait_impl_s(
    o: Option<GenState>,
    ident: Seq<char>,
    anno: Seq<char>,
    base: Seq<char>,
    names: Seq<Seq<char>>,
) -> Option<GenState> {
    let s1 = indent_s(
        writeln_s(o, "impl"@ + anno + " TraitFrom"@ + path_ident(base) + " for "@ + ident + anno + " {"@),
    );
    writeln_s(dedent_s(flush_s(block_fns_s(s1, names), WS(false, false))), "}"@)
}

/// `Template` for the item, rendering through its trait.
pub open spec fn trait_based_impl_s(o: Option<GenState>, ident: Seq<char>, anno: Seq<char>) -> Option<GenState> {
    let s1 = indent_s(writeln_s(o, "impl"@ + anno + " askama::Template for "@ + ident + anno + " {"@));
    let s2 = indent_s(writeln_s(s1, "fn render_to(&self, writer: &mut std::fmt::Write) {"@));
    writeln_s(dedent_s(writeln_s(dedent_s(writeln_s(s2, "self.render_trait_to(writer);"@)), "}"@)), "}"@)
}

/// One declaration of a `render_block_NAME_to` method per block, in order.
pub open spec fn block_decls_s(o: Option<GenState>, names: Seq<Seq<char>>) -> Option<GenState>
    decreases names.len(),
{
    if names.len() == 0 {
        o
    } else {
        writeln_s(
            block_decls_s(o, names.drop_last()),
            "fn render_block_"@ + names.last() + "_to(&self, writer: &mut std::fmt::Write);"@,
        )
    }
}

/// The trait of the template at `path`: a method per block, and a method
/// `render_trait_to` made of the nodes.
pub open spec fn template_trait_s(
    o: Option<GenState>,
    anno: Seq<char>,
    path: Seq<char>,
    names: Seq<Seq<char>>,
    nodes: Seq<Node>,
) -> Option<GenState> {
    let s1 = indent_s(writeln_s(o, "trait"@ + anno + " TraitFrom"@ + path_ident(path) + anno + " {"@));
    let s2 = indent_s(
        writeln_s(block_decls_s(s1, names), "fn render_trait_to(&self, writer: &mut std::fmt::Write) {"@),
    );
    writeln_s(dedent_s(writeln_s(dedent_s(flush_s(nodes_s(s2, nodes), WS(false, false))), "}"@)), "}"@)
}

/// Once the generator has stopped, it stays stopped.
proof fn lemma_stopped_names(names: Seq<Seq<char>>)
    ensures
        block_fns_s(None, names) is None,
        block_decls_s(None, names) is None,
    decreases names.len(),
{
    if names.len() > 0 {
        lemma_stopped_names(names.drop_last());
    }
}

impl CodeGen {
    fn path_based_name(&mut self, ident: &str, lifetimes: &Vec<String>, path: &str)
        requires
            path_based_name_s(
                Some(old(self)@),
                ident@,
                annotation_of(lifetimes_view(lifetimes@)),
                path@,
            ) is Some,
        ensures
            Some(final(self)@) == path_based_name_s(
                Some(old(self)@),
                ident@,
                annotation_of(lifetimes_view(lifetimes@)),
                path@,
            ),
    {
        let encoded = path_as_identifier(path);
        let anno = annotations(lifetimes);
        self.writeln("#[allow(dead_code, non_camel_case_types)]");
        let mut line = concat3("type TemplateFrom", encoded.as_str(), anno.as_str());
        string_push_str(&mut line, " = ");
        string_push_str(&mut line, ident);
        string_push_str(&mut line, anno.as_str());
        string_push_str(&mut line, ";");
        assert(line@ =~= "type TemplateFrom"@ + path_ident(path@) + anno@ + " = "@ + ident@ + anno@
            + ";"@);
        self.writeln(line.as_str());
    }

    fn struct_impl(&mut self, ident: &str, lifetimes: &Vec<String>, blocks: &[Node])
        requires
            struct_impl_s(
                Some(old(self)@),
                ident@,
                annotation_of(lifetimes_view(lifetimes@)),
                blocks@,
            ) is Some,
        ensures
            Some(final(self)@) == struct_impl_s(
                Some(old(self)@),
                ident@,
                annotation_of(lifetimes_view(lifetimes@)),
                blocks@,
            ),
    {
        proof {
            lemma_stopped_nodes(blocks@);
        }
        let anno = annotations(lifetimes);
        let mut line = concat3("impl", anno.as_str(), " ");
        string_push_str(&mut line, ident);
        string_push_str(&mut line, anno.as_str());
        string_push_str(&mut line, " {");
        assert(line@ =~= "impl"@ + anno@ + " "@ + ident@ + anno@ + " {"@);
        self.writeln(line.as_str());
        self.indent();
        self.handle(blocks);
        self.dedent();
        self.writeln("}");
    }

    fn render_to(&mut self, nodes: &[Node])
        requires
            render_to_s(Some(old(self)@), nodes@) is Some,
        ensures
            Some(final(self)@) == render_to_s(Some(old(self)@), nodes@),
    {
        proof {
            lemma_stopped_nodes(nodes@);
        }
        self.writeln("fn render_to(&self, writer: &mut std::fmt::Write) {");
        self.indent();
        self.handle(nodes);
        self.flush_ws(WS(false, false));
        self.dedent();
        self.writeln("}");
    }

    fn template_impl(&mut self, ident: &str, lifetimes: &Vec<String>, nodes: &[Node])
        requires
            template_impl_s(
                Some(old(self)@),
                ident@,
                annotation_of(lifetimes_view(lifetimes@)),
                nodes@,
            ) is Some,
        ensures
            Some(final(self)@) == template_impl_s(
                Some(old(self)@),
                ident@,
                annotation_of(lifetimes_view(lifetimes@)),
                nodes@,
            ),
    {
        proof {
            lemma_stopped_nodes(nodes@);
        }
        let anno = annotations(lifetimes);
        let mut line = concat3("impl", anno.as_str(), " askama::Template for ");
        string_push_str(&mut line, ident);
        string_push_str(&mut line, anno.as_str());
        string_push_str(&mut line, " {");
        assert(line@ =~= "impl"@ + anno@ + " askama::Template for "@ + ident@ + anno@ + " {"@);
        self.writeln(line.as_str());
        self.indent();
        self.render_to(nodes);
        self.dedent();
        self.writeln("}");
    }

    fn block_fns(&mut self, block_names: &Vec<String>)
        requires
            block_fns_s(Some(old(self)@), lifetimes_view(block_names@)) is Some,
        ensures
            Some(final(self)@) == block_fns_s(Some(old(self)@), lifetimes_view(block_names@)),
    {
        let ghost s0 = Some(self@);
        let ghost names = lifetimes_view(block_names@);
        let mut i: usize = 0;
        assert(names.subrange(0, 0) =~= Seq::<Seq<char>>::empty());
        while i < block_names.len()
            invariant
                i <= block_names.len(),
                names == lifetimes_view(block_names@),
                block_fns_s(s0, names) is Some,
                Some(self@) == block_fns_s(s0, names.subrange(0, i as int)),
            decreases block_names.len() - i,
        {
            proof {
                lemma_block_fns_prefix(s0, names, i + 1);
                assert(names.subrange(0, i + 1).drop_last() =~= names.subrange(0, i as int));
            }
            let name = block_names[i].as_str();
            let l1 = concat3("fn render_block_", name, "_to(&self, writer: &mut std::fmt::Write) {");
            self.writeln(l1.as_str());
            self.indent();
            let l2 = concat3("self.impl_block_", name, "_to(writer);");
            self.writeln(l2.as_str());
            self.dedent();
            self.writeln("}");
            i = i + 1;
        }
        assert(names.subrange(0, i as int) =~= names);
    }

    fn trait_impl(&mut self, ident: &str, lifetimes: &Vec<String>, base: &str, block_names: &Vec<String>)
        requires
            trait_impl_s(
                Some(old(self)@),
                ident@,
                annotation_of(lifetimes_view(lifetimes@)),
                base@,
                lifetimes_view(block_names@),
            ) is Some,
        ensures
            Some(final(self)@) == trait_impl_s(
                Some(old(self)@),
                ident@,
                annotation_of(lifetimes_view(lifetimes@)),
                base@,
                lifetimes_view(block_names@),
            ),
    {
        proof {
            lemma_stopped_names(lifetimes_view(block_names@));
        }
        let anno = annotations(lifetimes);
        let encoded = path_as_identifier(base);
        let mut line = concat3("impl", anno.as_str(), " TraitFrom");
        string_push_str(&mut line, encoded.as_str());
        string_push_str(&mut line, " for ");
        string_push_str(&mut line, ident);
        string_push_str(&mut line, anno.as_str());
        string_push_str(&mut line, " {");
        assert(line@ =~= "impl"@ + anno@ + " TraitFrom"@ + path_ident(base@) + " for "@ + ident@ + anno@
            + " {"@);
        self.writeln(line.as_str());
        self.indent();
        self.block_fns(block_names);
        self.flush_ws(WS(false, false));
        self.dedent();
        self.writeln("}");
    }

    fn trait_based_impl(&mut self, ident: &str, lifetimes: &Vec<String>)
        requires
            trait_based_impl_s(Some(old(self)@), ident@, annotation_of(lifetimes_view(lifetimes@))) is Some,
        ensures
            Some(final(self)@) == trait_based_impl_s(
                Some(old(self)@),
                ident@,
                annotation_of(lifetimes_view(lifetimes@)),
            ),
    {
        let anno = annotations(lifetimes);
        let mut line = concat3("impl", anno.as_str(), " askama::Template for ");
        string_push_str(&mut line, ident);
        string_push_str(&mut line, anno.as_str());
        string_push_str(&mut line, " {");
        assert(line@ =~= "impl"@ + anno@ + " askama::Template for "@ + ident@ + anno@ + " {"@);
        self.writeln(line.as_str());
        self.indent();
        self.writeln("fn render_to(&self, writer: &mut std::fmt::Write) {");
        self.indent();
        self.writeln("self.render_trait_to(writer);");
        self.dedent();
        self.writeln("}");
        self.dedent();
        self.writeln("}");
    }

    fn block_decls(&mut self, block_names: &Vec<String>)
        requires
            block_decls_s(Some(old(self)@), lifetimes_view(block_names@)) is Some,
        ensures
            Some(final(self)@) == block_decls_s(Some(old(self)@), lifetimes_view(block_names@)),
    {
        let ghost s0 = Some(self@);
        let ghost names = lifetimes_view(block_names@);
        let mut i: usize = 0;
        assert(names.subrange(0, 0) =~= Seq::<Seq<char>>::empty());
        while i < block_names.len()
            invariant
                i <= block_names.len(),
                names == lifetimes_view(block_names@),
                block_decls_s(s0, names) is Some,
                Some(self@) == block_decls_s(s0, names.subrange(0, i as int)),
            decreases block_names.len() - i,
        {
            proof {
                lemma_block_decls_prefix(s0, names, i + 1);
                assert(names.subrange(0, i + 1).drop_last() =~= names.subrange(0, i as int));
            }
            let l = concat3(
                "fn render_block_",
                block_names[i].as_str(),
                "_to(&self, writer: &mut std::fmt::Write);",
            );
            self.writeln(l.as_str());
            i = i + 1;
        }
        assert(names.subrange(0, i as int) =~= names);
    }

    fn template_trait(&mut self, lifetimes: &Vec<String>, path: &str, block_names: &Vec<String>, nodes: &[Node])
        requires
            template_trait_s(
                Some(old(self)@),
                annotation_of(lifetimes_view(lifetimes@)),
                path@,
                lifetimes_view(block_names@),
                nodes@,
            ) is Some,
        ensures
            Some(final(self)@) == template_trait_s(
                Some(old(self)@),
                annotation_of(lifetimes_view(lifetimes@)),
                path@,
                lifetimes_view(block_names@),
                nodes@,
            ),
    {
        proof {
            lemma_stopped_names(lifetimes_view(block_names@));
            lemma_stopped_nodes(nodes@);
        }
        let anno = annotations(lifetimes);
        let encoded = path_as_identifier(path);
        let mut line = concat3("trait", anno.as_str(), " TraitFrom");
        string_push_str(&mut line, encoded.as_str());
        string_push_str(&mut line, anno.as_str());
        string_push_str(&mut line, " {");
        assert(line@ =~= "trait"@ + anno@ + " TraitFrom"@ + path_ident(path@) + anno@ + " {"@);
        self.writeln(line.as_str());
        self.indent();
        self.block_decls(block_names);
        self.writeln("fn render_trait_to(&self, writer: &mut std::fmt::Write) {");
        self.indent();
        self.handle(nodes);
        self.flush_ws(WS(false, false));
        self.dedent();
        self.writeln("}");
        self.dedent();
        self.writeln("}");
    }

    fn result(self) -> (r: String)
        ensures
            r@ == self@.buf,
    {
        self.buf
    }
}

proof fn lemma_block_fns_prefix(o: Option<GenState>, v: Seq<Seq<char>>, k: int)
    requires
        0 <= k <= v.len(),
        block_fns_s(o, v) is Some,
    ensures
        block_fns_s(o, v.subrange(0, k)) is Some,
    decreases v.len() - k,
{
    if k < v.len() {
        lemma_block_fns_prefix(o, v, k + 1);
        assert(v.subrange(0, k + 1).drop_last() =~= v.subrange(0, k));
    } else {
        assert(v.subrange(0, k) =~= v);
    }
}

proof fn lemma_block_decls_prefix(o: Option<GenState>, v: Seq<Seq<char>>, k: int)
    requires
        0 <= k <= v.len(),
        block_decls_s(o, v) is Some,
    ensures
        block_decls_s(o, v.subrange(0, k)) is Some,
    decreases v.len() - k,
{
    if k < v.len() {
        lemma_block_decls_prefix(o, v, k + 1);
        assert(v.subrange(0, k + 1).drop_last() =~= v.subrange(0, k));
    } else {
        assert(v.subrange(0, k) =~= v);
    }
}

// ---------------------------------------------------------------------------
// A whole template.
// ---------------------------------------------------------------------------

/// How many `extends` the nodes hold at the top.
pub open spec fn extends_count(v: Seq<Node>) -> nat
    decreases v.len(),
{
    if v.len() == 0 {
        0
    } else {
        extends_count(v.drop_last()) + if v.last() is Extends {
            1nat
        } else {
            0nat
        }
    }
}

/// The parts of a template: its parent (from `extends`), its block
/// definitions, their names, and its content, where each block definition
/// is replaced by a use of the block and `extends` is left out.
pub open spec fn split_nodes(v: Seq<Node>) -> (Option<Expr>, Seq<Node>, Seq<Seq<char>>, Seq<Node>)
    decreases v.len(),
{
    if v.len() == 0 {
        (None, seq![], seq![], seq![])
    } else {
        let r = split_nodes(v.drop_last());
        match v.last() {
            Node::Extends(e) => (Some(e), r.1, r.2, r.3),
            Node::BlockDef(ws1, name, _, ws2) => (
                r.0,
                r.1.push(v.last()),
                r.2.push(name@),
                r.3.push(Node::Block(ws1, name, ws2)),
            ),
            _ => (r.0, r.1, r.2, r.3.push(v.last())),
        }
    }
}

/// The path whose trait a template with blocks implements: its parent's,
/// when that is a string, else its own.
pub open spec fn trait_path(base: Option<Expr>, path: Seq<char>) -> Seq<char> {
    match base {
        Some(Expr::StrLit(p)) => p@,
        _ => path,
    }
}

/// The generation of a template with the given nodes, at `path`, for the
/// item `ident` with the given lifetimes: a type alias named after the path;
/// then, for a template with blocks, an implementation holding the blocks,
/// the template's trait (unless it extends another), the implementation of
/// the trait and `Template` through it; for one without, `Template` itself.
pub open spec fn generate_s(ident: Seq<char>, lifetimes: Seq<Seq<char>>, path: Seq<char>, nodes: Seq<Node>) -> Option<GenState> {
    let parts = split_nodes(nodes);
    let anno = annotation_of(lifetimes);
    let s1 = path_based_name_s(Some(initial_state()), ident, anno, path);
    if parts.1.len() > 0 {
        let s2 = struct_impl_s(s1, ident, anno, parts.1);
        let s3 = if parts.0 is None {
            template_trait_s(s2, anno, path, parts.2, parts.3)
        } else {
            s2
        };
        trait_based_impl_s(
            trait_impl_s(s3, ident, anno, trait_path(parts.0, path), parts.2),
            ident,
            anno,
        )
    } else {
        template_impl_s(s1, ident, anno, parts.3)
    }
}

/// The parts of a template: its parent, its block definitions, their
/// names, and its content.
fn split_template(nodes: Vec<Node>) -> (r: (Option<Expr>, Vec<Node>, Vec<String>, Vec<Node>))
    requires
        extends_count(nodes@) <= 1,
    ensures
        (r.0, r.1@, lifetimes_view(r.2@), r.3@) == split_nodes(nodes@),
{
    let ghost all = nodes@;
    let total = nodes.len();
    assert(all.len() == total);
    let mut rest = nodes;
    let mut base: Option<Expr> = None;
    let mut blocks: Vec<Node> = Vec::new();
    let mut block_names: Vec<String> = Vec::new();
    let mut content: Vec<Node> = Vec::new();
    let mut k: usize = 0;
    proof {
        assert(all.subrange(0, 0) =~= Seq::<Node>::empty());
        assert(all.subrange(0, all.len() as int) =~= all);
        assert(lifetimes_view(block_names@) =~= Seq::<Seq<char>>::empty());
    }
    while rest.len() > 0
        invariant
            all.len() <= usize::MAX,
            k + rest@.len() == all.len(),
            rest@ == all.subrange(k as int, all.len() as int),
            extends_count(all) <= 1,
            base is Some <==> extends_count(all.subrange(0, k as int)) > 0,
            split_nodes(all.subrange(0, k as int)) == (
                base,
                blocks@,
                lifetimes_view(block_names@),
                content@,
            ),
        decreases rest.len(),
    {
        let ghost before = all.subrange(0, k as int);
        let ghost after = all.subrange(0, k + 1);
        proof {
            assert(after.drop_last() =~= before);
            assert(rest@[0] == all[k as int]);
            lemma_extends_count_prefix(all, k + 1);
        }
        let n = rest.remove(0);
        match n {
            Node::Extends(e) => {
                base = Some(e);
            },
            Node::BlockDef(ws1, name, nodes, ws2) => {
                let name2 = name.clone();
                let name3 = name.clone();
                blocks.push(Node::BlockDef(ws1, name, nodes, ws2));
                block_names.push(name2);
                content.push(Node::Block(ws1, name3, ws2));
                assert(lifetimes_view(block_names@) =~= split_nodes(after).2);
            },
            other => {
                content.push(other);
            },
        }
        k = k + 1;
        assert(rest@ =~= all.subrange(k as int, all.len() as int));
    }
    assert(all.subrange(0, k as int) =~= all);
    (base, blocks, block_names, content)
}

/// The code generated for the template with the nodes `nodes`, at `path`,
/// for the item `ident` with the lifetimes `lifetimes`.
pub fn generate(ident: &str, lifetimes: &Vec<String>, path: &str, nodes: Vec<Node>) -> (r: String)
    requires
        extends_count(nodes@) <= 1,
        generate_s(ident@, lifetimes_view(lifetimes@), path@, nodes@) is Some,
    ensures
        Some(r@) == match generate_s(ident@, lifetimes_view(lifetimes@), path@, nodes@) {
            Some(s) => Some(s.buf),
            None => None,
        },
{
    let ghost all = nodes@;
    let (base, blocks, block_names, content) = split_template(nodes);
    let ghost anno = annotation_of(lifetimes_view(lifetimes@));
    let ghost names = lifetimes_view(block_names@);
    let ghost s1 = path_based_name_s(Some(initial_state()), ident@, anno, path@);
    proof {
        lemma_stopped_nodes(blocks@);
        lemma_stopped_nodes(content@);
        lemma_stopped_names(names);
    }
    let mut g = CodeGen::new();
    g.path_based_name(ident, lifetimes, path);
    if blocks.len() > 0 {
        let ghost s2 = struct_impl_s(s1, ident@, anno, blocks@);
        let ghost s3 = if base is None {
            template_trait_s(s2, anno, path@, names, content@)
        } else {
            s2
        };
        let ghost s4 = trait_impl_s(s3, ident@, anno, trait_path(base, path@), names);
        assert(trait_based_impl_s(s4, ident@, anno) is Some);
        assert(s4 is Some);
        assert(s3 is Some);
        assert(s2 is Some);
        g.struct_impl(ident, lifetimes, blocks.as_slice());
        if base.is_none() {
            g.template_trait(lifetimes, path, &block_names, content.as_slice());
        }
        let tmpl_path: &str = match &base {
            Some(Expr::StrLit(p)) => p.as_str(),
            _ => path,
        };
        g.trait_impl(ident, lifetimes, tmpl_path, &block_names);
        g.trait_based_impl(ident, lifetimes);
    } else {
        g.template_impl(ident, lifetimes, content.as_slice());
    }
    g.result()
}

/// The `extends` of a prefix are among those of the whole.
proof fn lemma_extends_count_prefix(v: Seq<Node>, k: int)
    requires
        0 <= k <= v.len(),
    ensures
        extends_count(v.subrange(0, k)) <= extends_count(v),
    decreases v.len() - k,
{
    if k < v.len() {
        lemma_extends_count_prefix(v, k + 1);
        assert(v.subrange(0, k + 1).drop_last() =~= v.subrange(0, k));
    } else {
        assert(v.subrange(0, k) =~= v);
    }
}

} // verus!
