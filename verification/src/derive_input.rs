//! The header of the item that derives `Template`, read from its tokens:
//! its attributes, its name, its generic parameters and its `where` clause.
//!
//! The tokens are given as plain values: each identifier and literal with
//! its text, each punctuation character, and each delimited group with its
//! delimiter, its own tokens and the text it prints as.

use vstd::prelude::*;
use crate::filters::{join_spec, trim_chars, trim_uws};
use crate::lex::{has_tag, tag_at};
use crate::text::{chars_to_string, extend_chars, str_to_chars};

verus! {

/// How a group of tokens is delimited.
#[derive(Debug, Clone, Copy, PartialEq, Eq)]
pub enum Delimiter {
    Parenthesis,
    Brace,
    Bracket,
    /// A group without visible delimiters.
    Invisible,
}

/// A token of the item's source.
#[derive(Debug, PartialEq, Eq)]
pub enum TokenTree {
    /// An identifier, as written.
    Ident(String),
    /// A punctuation character.
    Punct(char),
    /// A literal, as written.
    Literal(String),
    /// A delimited group: its delimiter, its tokens, and the text it prints as.
    Group(Delimiter, Vec<TokenTree>, String),
}

/// The text a token prints as.
pub open spec fn token_text(t: TokenTree) -> Seq<char> {
    match t {
        TokenTree::Ident(s) => s@,
        TokenTree::Punct(c) => seq![c],
        TokenTree::Literal(s) => s@,
        TokenTree::Group(_, _, s) => s@,
    }
}

/// Whether the token is the punctuation character `c`.
pub open spec fn is_punct(t: TokenTree, c: char) -> bool {
    match t {
        TokenTree::Punct(p) => p == c,
        _ => false,
    }
}

/// Whether the token is a group with visible delimiters.
pub open spec fn is_visible_group(t: TokenTree) -> bool {
    match t {
        TokenTree::Group(d, _, _) => d != Delimiter::Invisible,
        _ => false,
    }
}

/// The texts of the tokens `toks[i..j]`, one after the other.
pub open spec fn texts(toks: Seq<TokenTree>, i: int, j: int) -> Seq<char>
    decreases j - i,
{
    if j <= i {
        seq![]
    } else {
        texts(toks, i, j - 1) + token_text(toks[j - 1])
    }
}

/// The text of a token.
pub fn text_of(t: &TokenTree) -> (r: Vec<char>)
    ensures
        r@ == token_text(*t),
{
    match t {
        TokenTree::Ident(s) => str_to_chars(s.as_str()),
        TokenTree::Punct(c) => {
            let mut v: Vec<char> = Vec::new();
            v.push(*c);
            assert(v@ =~= seq![*c]);
            v
        },
        TokenTree::Literal(s) => str_to_chars(s.as_str()),
        TokenTree::Group(_, _, s) => str_to_chars(s.as_str()),
    }
}

/// Whether the token is the punctuation character `c`.
pub fn punct_is(t: &TokenTree, c: char) -> (r: bool)
    ensures
        r == is_punct(*t, c),
{
    match t {
        TokenTree::Punct(p) => *p == c,
        _ => false,
    }
}

/// Appends the texts of `toks[i..j]` to `out`.
fn push_texts(toks: &Vec<TokenTree>, i: usize, j: usize, out: &mut Vec<char>)
    requires
        i <= j <= toks.len(),
    ensures
        final(out)@ == old(out)@ + texts(toks@, i as int, j as int),
{
    let mut k = i;
    while k < j
        invariant
            i <= k <= j <= toks.len(),
            out@ == old(out)@ + texts(toks@, i as int, k as int),
        decreases j - k,
    {
        let t = text_of(&toks[k]);
        extend_chars(out, t.as_slice());
        k = k + 1;
        assert(texts(toks@, i as int, k as int) == texts(toks@, i as int, k - 1) + token_text(
            toks@[k - 1],
        ));
    }
}

// ---------------------------------------------------------------------------
// Skipping over angle brackets.
// ---------------------------------------------------------------------------

/// Where a scan that starts at `i`, inside `level` open angle brackets,
/// stops: just past the `>` that closes the outermost of them, or at the end.
pub open spec fn skip_back(toks: Seq<TokenTree>, i: int, level: int) -> int
    decreases toks.len() - i,
{
    if !(0 <= i < toks.len()) {
        i
    } else if is_punct(toks[i], '>') {
        if level - 1 < 1 {
            i + 1
        } else {
            skip_back(toks, i + 1, level - 1)
        }
    } else if is_punct(toks[i], '<') {
        skip_back(toks, i + 1, level + 1)
    } else {
        skip_back(toks, i + 1, level)
    }
}

/// The scan moves forward and stays within the tokens.
pub proof fn lemma_skip_back_bounds(toks: Seq<TokenTree>, i: int, level: int)
    requires
        0 <= i <= toks.len(),
    ensures
        i <= skip_back(toks, i, level) <= toks.len(),
    decreases toks.len() - i,
{
    if i < toks.len() {
        lemma_skip_back_bounds(toks, i + 1, level - 1);
        lemma_skip_back_bounds(toks, i + 1, level + 1);
        lemma_skip_back_bounds(toks, i + 1, level);
    }
}

/// Skips the tokens up to the `>` that closes an angle bracket opened just
/// before `start`, and returns the position after it (or the end).
pub fn skip_until_back_to_first_level(toks: &Vec<TokenTree>, start: usize) -> (end: usize)
    requires
        0 < start <= toks.len(),
    ensures
        end == skip_back(toks@, start as int, 1),
{
    let mut i = start;
    let mut level: usize = 1;
    while i < toks.len()
        invariant
            0 < start <= i <= toks.len(),
            1 <= level <= i - start + 1,
            skip_back(toks@, i as int, level as int) == skip_back(toks@, start as int, 1),
        decreases toks.len() - i,
    {
        if punct_is(&toks[i], '>') {
            if level - 1 < 1 {
                return i + 1;
            }
            level = level - 1;
        } else if punct_is(&toks[i], '<') {
            level = level + 1;
        }
        i = i + 1;
    }
    i
}

/// Where the scan for the next generic parameter stops, and whether one
/// follows: past the next `,` (one follows), past the closing `>` (none
/// does), or at the end (none does). Nested angle brackets are skipped.
pub open spec fn next_generic(toks: Seq<TokenTree>, i: int) -> (int, bool)
    decreases toks.len() - i,
{
    if !(0 <= i < toks.len()) {
        (i, false)
    } else if is_punct(toks[i], ',') {
        (i + 1, true)
    } else if is_punct(toks[i], '>') {
        (i + 1, false)
    } else if is_punct(toks[i], '<') {
        let j = skip_back(toks, i + 1, 1);
        if i < j <= toks.len() {
            next_generic(toks, j)
        } else {
            (j, false)
        }
    } else {
        next_generic(toks, i + 1)
    }
}

/// The scan moves forward and stays within the tokens.
pub proof fn lemma_next_generic_bounds(toks: Seq<TokenTree>, i: int)
    requires
        0 <= i <= toks.len(),
    ensures
        i <= next_generic(toks, i).0 <= toks.len(),
    decreases toks.len() - i,
{
    if i < toks.len() {
        lemma_skip_back_bounds(toks, i + 1, 1);
        let j = skip_back(toks, i + 1, 1);
        lemma_next_generic_bounds(toks, j);
        lemma_next_generic_bounds(toks, i + 1);
    }
}

/// Skips to the next generic parameter: returns the position after the next
/// `,` or closing `>`, and whether another parameter follows.
pub fn skip_until_next_generic(toks: &Vec<TokenTree>, start: usize) -> (r: (usize, bool))
    requires
        start <= toks.len(),
    ensures
        (r.0 as int, r.1) == next_generic(toks@, start as int),
{
    let mut i = start;
    while i < toks.len()
        invariant
            start <= i <= toks.len(),
            next_generic(toks@, i as int) == next_generic(toks@, start as int),
        decreases toks.len() - i,
    {
        if punct_is(&toks[i], ',') {
            return (i + 1, true);
        } else if punct_is(&toks[i], '>') {
            return (i + 1, false);
        } else if punct_is(&toks[i], '<') {
            proof {
                lemma_skip_back_bounds(toks@, i + 1, 1);
            }
            i = skip_until_back_to_first_level(toks, i + 1);
        } else {
            i = i + 1;
        }
    }
    (i, false)
}

// ---------------------------------------------------------------------------
// Generic parameters and the `where` clause.
// ---------------------------------------------------------------------------

/// A generic parameter: its declaration and its bounds, if any.
#[derive(Debug, Clone, PartialEq, Eq)]
pub struct GenericParam {
    pub name: String,
    pub bounds: Option<String>,
}

/// The characters of an optional string.
pub open spec fn opt_chars(o: Option<String>) -> Option<Seq<char>> {
    match o {
        Some(s) => Some(s@),
        None => None,
    }
}

/// A parameter as plain values.
pub open spec fn param_view(p: GenericParam) -> (Seq<char>, Option<Seq<char>>) {
    (p.name@, opt_chars(p.bounds))
}

/// The generic parameters of the item, lifetimes first.
#[derive(Debug, Clone, PartialEq, Eq)]
pub struct Generics {
    pub inner: Vec<GenericParam>,
}

impl View for Generics {
    type V = Seq<(Seq<char>, Option<Seq<char>>)>;

    open spec fn view(&self) -> Seq<(Seq<char>, Option<Seq<char>>)> {
        self.inner@.map_values(|p: GenericParam| param_view(p))
    }
}

/// The parameters after adding `name` with `bounds`, both trimmed: nothing
/// is added for an empty name, and empty bounds count as none.
pub open spec fn with_generic(
    gens: Seq<(Seq<char>, Option<Seq<char>>)>,
    name: Seq<char>,
    bounds: Seq<char>,
) -> Seq<(Seq<char>, Option<Seq<char>>)> {
    let n = trim_uws(name);
    let b = trim_uws(bounds);
    if n.len() == 0 {
        gens
    } else if b.len() == 0 {
        gens.push((n, None))
    } else {
        gens.push((n, Some(b)))
    }
}

/// The parameters after putting the lifetime `lt` with `bounds`, both
/// trimmed, in front: nothing is added for an empty lifetime.
pub open spec fn with_lifetime(
    gens: Seq<(Seq<char>, Option<Seq<char>>)>,
    lt: Seq<char>,
    bounds: Seq<char>,
) -> Seq<(Seq<char>, Option<Seq<char>>)> {
    let l = trim_uws(lt);
    let b = trim_uws(bounds);
    if l.len() == 0 {
        gens
    } else if b.len() == 0 {
        seq![(l, None)] + gens
    } else {
        seq![(l, Some(b))] + gens
    }
}

/// `const ` before a const parameter's name.
pub open spec fn const_prefix() -> Seq<char> {
    seq!['c', 'o', 'n', 's', 't', ' ']
}

/// The anonymous lifetime `'_`.
pub open spec fn anon_lifetime() -> Seq<char> {
    seq!['\'', '_']
}

/// A parameter as it is named among the arguments: without `const `.
pub open spec fn shown_param(n: Seq<char>) -> Seq<char> {
    if tag_at(n, 0, const_prefix()) {
        n.subrange(6, n.len() as int)
    } else {
        n
    }
}

/// The parameters named among the arguments: all but the anonymous lifetime.
pub open spec fn shown_params(gens: Seq<(Seq<char>, Option<Seq<char>>)>) -> Seq<Seq<char>>
    decreases gens.len(),
{
    if gens.len() == 0 {
        seq![]
    } else if gens.last().0 == anon_lifetime() {
        shown_params(gens.drop_last())
    } else {
        shown_params(gens.drop_last()).push(shown_param(gens.last().0))
    }
}

/// The arguments that name the parameters, as in `Foo<'a, T>`: nothing when
/// there are no parameters.
pub open spec fn generics_args(gens: Seq<(Seq<char>, Option<Seq<char>>)>) -> Seq<char> {
    if gens.len() == 0 {
        seq![]
    } else {
        seq!['<'] + join_spec(shown_params(gens), seq![',']) + seq!['>']
    }
}

/// A parameter with its bounds, as declared: `T: Bound`.
pub open spec fn param_decl(p: (Seq<char>, Option<Seq<char>>)) -> Seq<char> {
    match p.1 {
        Some(b) => p.0 + seq![':', ' '] + b,
        None => p.0,
    }
}

/// The declarations of the parameters with their bounds, as in
/// `impl<'a, T: Bound>`: nothing when there are no parameters.
pub open spec fn generics_decl(gens: Seq<(Seq<char>, Option<Seq<char>>)>) -> Seq<char> {
    if gens.len() == 0 {
        seq![]
    } else {
        seq!['<'] + join_spec(gens.map_values(|p: (Seq<char>, Option<Seq<char>>)| param_decl(p)), seq![',']) + seq!['>']
    }
}

/// Appends `sep` then `item` to a join, or only `item` when it is the first.
proof fn lemma_join_push(items: Seq<Seq<char>>, sep: Seq<char>, item: Seq<char>)
    ensures
        join_spec(items.push(item), sep) == if items.len() == 0 {
            item
        } else {
            join_spec(items, sep) + sep + item
        },
{
    assert(items.push(item).drop_last() =~= items);
}

impl Generics {
    /// No parameters.
    pub fn new() -> (r: Self)
        ensures
            r@ == Seq::<(Seq<char>, Option<Seq<char>>)>::empty(),
    {
        let r = Generics { inner: Vec::new() };
        assert(r@ =~= Seq::<(Seq<char>, Option<Seq<char>>)>::empty());
        r
    }

    fn param_of(name: &Vec<char>, bounds: &Vec<char>) -> (r: Option<GenericParam>)
        ensures
            r is None <==> trim_uws(name@).len() == 0,
            r matches Some(p) ==> param_view(p) == (trim_uws(name@), if trim_uws(bounds@).len()
                == 0 {
                None
            } else {
                Some(trim_uws(bounds@))
            }),
    {
        let n = trim_chars(name);
        if n.len() == 0 {
            return None;
        }
        let b = trim_chars(bounds);
        let bounds = if b.len() == 0 {
            None
        } else {
            Some(chars_to_string(b.as_slice()))
        };
        Some(GenericParam { name: chars_to_string(n.as_slice()), bounds })
    }

    fn push_param(&mut self, name: &Vec<char>, bounds: &Vec<char>)
        ensures
            final(self)@ == with_generic(old(self)@, name@, bounds@),
    {
        match Self::param_of(name, bounds) {
            Some(p) => {
                self.inner.push(p);
                assert(self@ =~= with_generic(old(self)@, name@, bounds@));
            },
            None => {},
        }
    }

    /// Adds the parameter `bound_name` with `bounds` at the end; both are
    /// trimmed, and nothing is added for an empty name.
    pub fn add_generic(&mut self, bound_name: &str, bounds: &str)
        ensures
            final(self)@ == with_generic(old(self)@, bound_name@, bounds@),
    {
        let n = str_to_chars(bound_name);
        let b = str_to_chars(bounds);
        self.push_param(&n, &b);
    }

    /// Puts the lifetime `lifetime` with `bounds` in front; both are trimmed,
    /// and nothing is added for an empty lifetime.
    pub fn add_lifetime(&mut self, lifetime: &str, bounds: &str)
        ensures
            final(self)@ == with_lifetime(old(self)@, lifetime@, bounds@),
    {
        let l = str_to_chars(lifetime);
        let b = str_to_chars(bounds);
        match Self::param_of(&l, &b) {
            Some(p) => {
                self.inner.insert(0, p);
                assert(self@ =~= with_lifetime(old(self)@, lifetime@, bounds@));
            },
            None => {},
        }
    }

    /// The arguments that name the parameters, as in `<'a,T>`; the anonymous
    /// lifetime is left out and `const ` is dropped. Empty without parameters.
    pub fn to_string(&self) -> (r: String)
        ensures
            r@ == generics_args(self@),
    {
        if self.inner.len() == 0 {
            return String::new();
        }
        let cp: &[char] = &['c', 'o', 'n', 's', 't', ' '];
        let anon: &[char] = &['\'', '_'];
        assert(cp@ =~= const_prefix());
        assert(anon@ =~= anon_lifetime());
        let mut out: Vec<char> = Vec::new();
        out.push('<');
        let mut k: usize = 0;
        let mut started = false;
        while k < self.inner.len()
            invariant
                k <= self.inner.len(),
                started == (shown_params(self@.subrange(0, k as int)).len() > 0),
                cp@ == const_prefix(),
                anon@ == anon_lifetime(),
                out@ == seq!['<'] + join_spec(shown_params(self@.subrange(0, k as int)), seq![',']),
            decreases self.inner.len() - k,
        {
            let ghost before = self@.subrange(0, k as int);
            let ghost after = self@.subrange(0, k + 1);
            assert(after.drop_last() =~= before);
            let name = str_to_chars(self.inner[k].name.as_str());
            let is_anon = name.len() == 2 && has_tag(&name, 0, anon);
            proof {
                if name@.len() == 2 && tag_at(name@, 0, anon@) {
                    assert(name@ =~= name@.subrange(0, 2));
                }
                if name@ == anon_lifetime() {
                    assert(name@.subrange(0, 2) =~= name@);
                }
            }
            if !is_anon {
                let shown = if has_tag(&name, 0, cp) {
                    crate::lex::sub_chars(&name, 6, name.len())
                } else {
                    name
                };
                proof {
                    lemma_join_push(shown_params(before), seq![','], shown@);
                }
                if started {
                    out.push(',');
                }
                extend_chars(&mut out, shown.as_slice());
                started = true;
                assert(out@ =~= seq!['<'] + join_spec(shown_params(after), seq![',']));
            }
            k = k + 1;
        }
        out.push('>');
        assert(self@.subrange(0, self@.len() as int) =~= self@);
        chars_to_string(out.as_slice())
    }

    /// The parameters with their bounds, as in `<'a,T: Bound>`. Empty
    /// without parameters.
    pub fn display_with_bounds(&self) -> (r: String)
        ensures
            r@ == generics_decl(self@),
    {
        if self.inner.len() == 0 {
            return String::new();
        }
        let ghost decls = self@.map_values(|p: (Seq<char>, Option<Seq<char>>)| param_decl(p));
        let mut out: Vec<char> = Vec::new();
        out.push('<');
        let mut k: usize = 0;
        while k < self.inner.len()
            invariant
                k <= self.inner.len(),
                decls == self@.map_values(|p: (Seq<char>, Option<Seq<char>>)| param_decl(p)),
                out@ == seq!['<'] + join_spec(decls.subrange(0, k as int), seq![',']),
            decreases self.inner.len() - k,
        {
            let p = &self.inner[k];
            let mut item = str_to_chars(p.name.as_str());
            match &p.bounds {
                Some(b) => {
                    item.push(':');
                    item.push(' ');
                    let bc = str_to_chars(b.as_str());
                    extend_chars(&mut item, bc.as_slice());
                },
                None => {},
            }
            assert(item@ =~= param_decl(self@[k as int]));
            proof {
                lemma_join_push(decls.subrange(0, k as int), seq![','], item@);
                assert(decls.subrange(0, k as int).push(item@) =~= decls.subrange(0, k + 1));
            }
            if k > 0 {
                out.push(',');
            }
            extend_chars(&mut out, item.as_slice());
            k = k + 1;
        }
        out.push('>');
        assert(decls.subrange(0, decls.len() as int) =~= decls);
        chars_to_string(out.as_slice())
    }
}

impl Default for Generics {
    fn default() -> (r: Self)
        ensures
            r@ == Seq::<(Seq<char>, Option<Seq<char>>)>::empty(),
    {
        Generics::new()
    }
}

/// The `where` clause of the item: its predicates, if it has one.
#[derive(Debug, Clone, PartialEq, Eq)]
pub struct WhereClause {
    pub inner: Option<String>,
}

impl View for WhereClause {
    type V = Option<Seq<char>>;

    open spec fn view(&self) -> Option<Seq<char>> {
        opt_chars(self.inner)
    }
}

/// The clause after adding the predicate `pred`, trimmed: nothing is added
/// for an empty one, and a `,` separates it from the predicates before.
pub open spec fn with_predicate(w: Option<Seq<char>>, pred: Seq<char>) -> Option<Seq<char>> {
    let p = trim_uws(pred);
    if p.len() == 0 {
        w
    } else {
        match w {
            Some(s) => if s.len() > 0 && s.last() == ',' {
                Some(s + p)
            } else {
                Some(s.push(',') + p)
            },
            None => Some(p),
        }
    }
}

/// The clause as written: `where ` and the predicates, or nothing.
pub open spec fn where_text(w: Option<Seq<char>>) -> Seq<char> {
    match w {
        Some(s) => seq!['w', 'h', 'e', 'r', 'e', ' '] + s,
        None => seq![],
    }
}

impl WhereClause {
    /// No clause.
    pub fn new() -> (r: Self)
        ensures
            r@ is None,
    {
        WhereClause { inner: None }
    }

    /// Adds the predicate `predicate`, trimmed; nothing is added for an
    /// empty one.
    pub fn add_predicate(&mut self, predicate: &str)
        ensures
            final(self)@ == with_predicate(old(self)@, predicate@),
    {
        let pc = str_to_chars(predicate);
        let p = trim_chars(&pc);
        if p.len() == 0 {
            return;
        }
        match &self.inner {
            Some(s) => {
                let mut c = str_to_chars(s.as_str());
                if !(c.len() > 0 && c[c.len() - 1] == ',') {
                    c.push(',');
                }
                extend_chars(&mut c, p.as_slice());
                self.inner = Some(chars_to_string(c.as_slice()));
            },
            None => {
                self.inner = Some(chars_to_string(p.as_slice()));
            },
        }
    }

    /// The clause as written: `where ` and the predicates, or nothing.
    pub fn to_string(&self) -> (r: String)
        ensures
            r@ == where_text(self@),
    {
        match &self.inner {
            Some(s) => {
                let mut out: Vec<char> = Vec::new();
                out.push('w');
                out.push('h');
                out.push('e');
                out.push('r');
                out.push('e');
                out.push(' ');
                let c = str_to_chars(s.as_str());
                extend_chars(&mut out, c.as_slice());
                assert(out@ =~= where_text(self@));
                chars_to_string(out.as_slice())
            },
            None => String::new(),
        }
    }
}

impl Default for WhereClause {
    fn default() -> (r: Self)
        ensures
            r@ is None,
    {
        WhereClause::new()
    }
}

// ---------------------------------------------------------------------------
// Reading the header.
// ---------------------------------------------------------------------------

/// The scan of a parameter's bounds, from `i`, with `acc` read so far: where
/// it stops, whether another parameter follows, and the bounds' text. A
/// nested `<..>` is taken whole (its `<` written after the rest), a default
/// after `=` is skipped.
pub open spec fn bounds_scan(toks: Seq<TokenTree>, i: int, acc: Seq<char>) -> (int, bool, Seq<char>)
    decreases toks.len() - i,
{
    if !(0 <= i < toks.len()) {
        (i, false, acc)
    } else if is_punct(toks[i], '>') {
        (i + 1, false, acc)
    } else if is_punct(toks[i], '<') {
        let j = skip_back(toks, i + 1, 1);
        if i < j <= toks.len() {
            bounds_scan(toks, j, acc + texts(toks, i + 1, j) + seq!['<'])
        } else {
            (j, false, acc)
        }
    } else if is_punct(toks[i], ',') {
        (i + 1, true, acc)
    } else if is_punct(toks[i], '=') {
        let r = next_generic(toks, i + 1);
        (r.0, r.1, acc)
    } else {
        bounds_scan(toks, i + 1, acc + token_text(toks[i]))
    }
}

/// The scan moves forward and stays within the tokens.
pub proof fn lemma_bounds_scan_bounds(toks: Seq<TokenTree>, i: int, acc: Seq<char>)
    requires
        0 <= i <= toks.len(),
    ensures
        i <= bounds_scan(toks, i, acc).0 <= toks.len(),
    decreases toks.len() - i,
{
    if i < toks.len() {
        lemma_skip_back_bounds(toks, i + 1, 1);
        lemma_next_generic_bounds(toks, i + 1);
        let j = skip_back(toks, i + 1, 1);
        lemma_bounds_scan_bounds(toks, j, acc + texts(toks, i + 1, j) + seq!['<']);
        lemma_bounds_scan_bounds(toks, i + 1, acc + token_text(toks[i]));
    }
}

/// Reads the bounds of a parameter from `start` into `bounds`; returns where
/// it stopped and whether another parameter follows.
pub fn only_bounds(toks: &Vec<TokenTree>, start: usize, bounds: &mut Vec<char>) -> (r: (
    usize,
    bool,
))
    requires
        start <= toks.len(),
    ensures
        bounds_scan(toks@, start as int, old(bounds)@) == (r.0 as int, r.1, final(bounds)@),
{
    let mut i = start;
    while i < toks.len()
        invariant
            start <= i <= toks.len(),
            bounds_scan(toks@, i as int, bounds@) == bounds_scan(toks@, start as int, old(bounds)@),
        decreases toks.len() - i,
    {
        if punct_is(&toks[i], '>') {
            return (i + 1, false);
        } else if punct_is(&toks[i], '<') {
            let j = skip_until_back_to_first_level(toks, i + 1);
            proof {
                lemma_skip_back_bounds(toks@, i + 1, 1);
            }
            let ghost b0 = bounds@;
            push_texts(toks, i + 1, j, bounds);
            bounds.push('<');
            assert(bounds@ =~= b0 + texts(toks@, i + 1, j as int) + seq!['<']);
            i = j;
        } else if punct_is(&toks[i], ',') {
            return (i + 1, true);
        } else if punct_is(&toks[i], '=') {
            return skip_until_next_generic(toks, i + 1);
        } else {
            let t = text_of(&toks[i]);
            extend_chars(bounds, t.as_slice());
            i = i + 1;
        }
    }
    (i, false)
}

/// The scan of the generic parameters, from `i`, with the declaration
/// `generic` read so far and the parameters `acc`: where it stops, and the
/// parameters. Each parameter ends at `,`, `:` (its bounds follow) or `>`
/// (the last); a default after `=` is skipped, and `=` starts the next
/// declaration; an identifier is followed by a space.
pub open spec fn generics_scan(
    toks: Seq<TokenTree>,
    i: int,
    generic: Seq<char>,
    acc: Seq<(Seq<char>, Option<Seq<char>>)>,
) -> (int, Seq<(Seq<char>, Option<Seq<char>>)>)
    decreases toks.len() - i,
{
    if !(0 <= i < toks.len()) {
        (i, acc)
    } else if is_punct(toks[i], '>') {
        (i + 1, with_generic(acc, generic, seq![]))
    } else if is_punct(toks[i], '=') {
        let acc1 = with_generic(acc, generic, seq![]);
        let r = next_generic(toks, i + 1);
        if r.1 && i < r.0 <= toks.len() {
            generics_scan(toks, r.0, seq!['='], acc1)
        } else {
            (r.0, acc1)
        }
    } else if is_punct(toks[i], ':') {
        if i + 1 >= toks.len() {
            (i + 1, acc)
        } else if is_punct(toks[i + 1], ':') {
            generics_scan(toks, i + 2, generic + seq![':', ':'], acc)
        } else {
            let r = bounds_scan(toks, i + 2, token_text(toks[i + 1]));
            let acc1 = with_generic(acc, generic, r.2);
            if r.1 && i < r.0 <= toks.len() {
                generics_scan(toks, r.0, seq![], acc1)
            } else {
                (r.0, acc1)
            }
        }
    } else if is_punct(toks[i], ',') {
        generics_scan(toks, i + 1, seq![], with_generic(acc, generic, seq![]))
    } else {
        let g = generic + token_text(toks[i]);
        generics_scan(toks, i + 1, if toks[i] is Ident { g.push(' ') } else { g }, acc)
    }
}

/// The scan moves forward and stays within the tokens.
pub proof fn lemma_generics_scan_bounds(
    toks: Seq<TokenTree>,
    i: int,
    generic: Seq<char>,
    acc: Seq<(Seq<char>, Option<Seq<char>>)>,
)
    requires
        0 <= i <= toks.len(),
    ensures
        i <= generics_scan(toks, i, generic, acc).0 <= toks.len(),
    decreases toks.len() - i,
{
    if i < toks.len() {
        lemma_next_generic_bounds(toks, i + 1);
        let r = next_generic(toks, i + 1);
        lemma_generics_scan_bounds(toks, r.0, seq!['='], with_generic(acc, generic, seq![]));
        if i + 1 < toks.len() {
            lemma_generics_scan_bounds(toks, i + 2, generic + seq![':', ':'], acc);
            lemma_bounds_scan_bounds(toks, i + 2, token_text(toks[i + 1]));
            let b = bounds_scan(toks, i + 2, token_text(toks[i + 1]));
            lemma_generics_scan_bounds(toks, b.0, seq![], with_generic(acc, generic, b.2));
        }
        lemma_generics_scan_bounds(toks, i + 1, seq![], with_generic(acc, generic, seq![]));
        let g = generic + token_text(toks[i]);
        lemma_generics_scan_bounds(toks, i + 1, g, acc);
        lemma_generics_scan_bounds(toks, i + 1, g.push(' '), acc);
    }
}

/// Reads the generic parameters from `start`, just past the opening `<`,
/// into `generics`; returns where it stopped.
fn scan_generics(toks: &Vec<TokenTree>, start: usize, generics: &mut Generics) -> (end: usize)
    requires
        start <= toks.len(),
    ensures
        (end as int, final(generics)@) == generics_scan(toks@, start as int, seq![], old(generics)@),
{
    let mut i = start;
    let mut generic: Vec<char> = Vec::new();
    let none: Vec<char> = Vec::new();
    while i < toks.len()
        invariant
            start <= i <= toks.len(),
            none@ == Seq::<char>::empty(),
            generics_scan(toks@, i as int, generic@, generics@) == generics_scan(
                toks@,
                start as int,
                seq![],
                old(generics)@,
            ),
        decreases toks.len() - i,
    {
        if punct_is(&toks[i], '>') {
            generics.push_param(&generic, &none);
            return i + 1;
        } else if punct_is(&toks[i], '=') {
            generics.push_param(&generic, &none);
            let (j, more) = skip_until_next_generic(toks, i + 1);
            proof {
                lemma_next_generic_bounds(toks@, i + 1);
            }
            if !more {
                return j;
            }
            generic = Vec::new();
            generic.push('=');
            assert(generic@ =~= seq!['=']);
            i = j;
        } else if punct_is(&toks[i], ':') {
            if i + 1 >= toks.len() {
                return i + 1;
            }
            if punct_is(&toks[i + 1], ':') {
                let ghost g0 = generic@;
                generic.push(':');
                generic.push(':');
                assert(generic@ =~= g0 + seq![':', ':']);
                i = i + 2;
            } else {
                let mut bounds = text_of(&toks[i + 1]);
                let (j, more) = only_bounds(toks, i + 2, &mut bounds);
                proof {
                    lemma_bounds_scan_bounds(toks@, i + 2, token_text(toks@[i + 1]));
                }
                generics.push_param(&generic, &bounds);
                if !more {
                    return j;
                }
                generic = Vec::new();
                assert(generic@ =~= Seq::<char>::empty());
                i = j;
            }
        } else if punct_is(&toks[i], ',') {
            generics.push_param(&generic, &none);
            generic = Vec::new();
            assert(generic@ =~= Seq::<char>::empty());
            i = i + 1;
        } else {
            let t = text_of(&toks[i]);
            extend_chars(&mut generic, t.as_slice());
            if let TokenTree::Ident(_) = &toks[i] {
                generic.push(' ');
            }
            i = i + 1;
        }
    }
    i
}

/// The scan of a `where` clause, from `i`, inside `level` angle brackets,
/// with `acc` read so far: where it stops, and the clause's text. It stops
/// past the first visibly delimited group outside angle brackets (the
/// item's body); a `:` there is followed by a space, `::` is kept whole.
pub open spec fn where_scan(toks: Seq<TokenTree>, i: int, level: int, acc: Seq<char>) -> (int, Seq<char>)
    decreases toks.len() - i,
{
    if !(0 <= i < toks.len()) {
        (i, acc)
    } else if is_punct(toks[i], '<') {
        where_scan(toks, i + 1, level + 1, acc + seq!['<'])
    } else if is_punct(toks[i], '>') {
        where_scan(toks, i + 1, level - 1, acc + seq!['>'])
    } else if is_punct(toks[i], ':') && level == 0 {
        if i + 1 >= toks.len() {
            (i + 1, acc + seq![':'])
        } else if is_punct(toks[i + 1], ':') {
            where_scan(toks, i + 2, level, acc + seq![':', ':'])
        } else {
            where_scan(toks, i + 2, level, acc + seq![':', ' '] + token_text(toks[i + 1]))
        }
    } else if level == 0 && is_visible_group(toks[i]) {
        (i + 1, acc)
    } else {
        where_scan(toks, i + 1, level, acc + token_text(toks[i]))
    }
}

/// The scan moves forward and stays within the tokens.
pub proof fn lemma_where_scan_bounds(toks: Seq<TokenTree>, i: int, level: int, acc: Seq<char>)
    requires
        0 <= i <= toks.len(),
    ensures
        i <= where_scan(toks, i, level, acc).0 <= toks.len(),
    decreases toks.len() - i,
{
    if i < toks.len() {
        lemma_where_scan_bounds(toks, i + 1, level + 1, acc + seq!['<']);
        lemma_where_scan_bounds(toks, i + 1, level - 1, acc + seq!['>']);
        if i + 1 < toks.len() {
            lemma_where_scan_bounds(toks, i + 2, level, acc + seq![':', ':']);
            lemma_where_scan_bounds(
                toks,
                i + 2,
                level,
                acc + seq![':', ' '] + token_text(toks[i + 1]),
            );
        }
        lemma_where_scan_bounds(toks, i + 1, level, acc + token_text(toks[i]));
    }
}

/// Whether the token is a visibly delimited group.
fn visible_group(t: &TokenTree) -> (r: bool)
    ensures
        r == is_visible_group(*t),
{
    match t {
        TokenTree::Group(d, _, _) => match d {
            Delimiter::Invisible => false,
            _ => true,
        },
        _ => false,
    }
}

/// Reads a `where` clause from `start`; returns where it stopped and the
/// clause's text.
fn scan_where(toks: &Vec<TokenTree>, start: usize) -> (r: (usize, Vec<char>))
    requires
        start <= toks.len(),
    ensures
        (r.0 as int, r.1@) == where_scan(toks@, start as int, 0, seq![]),
{
    let mut i = start;
    let mut opens: usize = 0;
    let mut closes: usize = 0;
    let mut out: Vec<char> = Vec::new();
    while i < toks.len()
        invariant
            start <= i <= toks.len(),
            opens + closes <= i - start,
            where_scan(toks@, i as int, opens - closes, out@) == where_scan(
                toks@,
                start as int,
                0,
                seq![],
            ),
        decreases toks.len() - i,
    {
        let ghost o0 = out@;
        if punct_is(&toks[i], '<') {
            opens = opens + 1;
            out.push('<');
            assert(out@ =~= o0 + seq!['<']);
            i = i + 1;
        } else if punct_is(&toks[i], '>') {
            closes = closes + 1;
            out.push('>');
            assert(out@ =~= o0 + seq!['>']);
            i = i + 1;
        } else if punct_is(&toks[i], ':') && opens == closes {
            if i + 1 >= toks.len() {
                out.push(':');
                assert(out@ =~= o0 + seq![':']);
                return (i + 1, out);
            } else if punct_is(&toks[i + 1], ':') {
                out.push(':');
                out.push(':');
                assert(out@ =~= o0 + seq![':', ':']);
                i = i + 2;
            } else {
                out.push(':');
                out.push(' ');
                let t = text_of(&toks[i + 1]);
                extend_chars(&mut out, t.as_slice());
                assert(out@ =~= o0 + seq![':', ' '] + token_text(toks@[i + 1]));
                i = i + 2;
            }
        } else if opens == closes && visible_group(&toks[i]) {
            return (i + 1, out);
        } else {
            let t = text_of(&toks[i]);
            extend_chars(&mut out, t.as_slice());
            i = i + 1;
        }
    }
    (i, out)
}

/// `where` as an identifier.
pub open spec fn where_kw() -> Seq<char> {
    seq!['w', 'h', 'e', 'r', 'e']
}

/// Whether the token is the identifier `kw`.
pub open spec fn is_ident_named(t: TokenTree, kw: Seq<char>) -> bool {
    t is Ident && token_text(t) == kw
}

/// Whether the token is the identifier `kw`.
fn ident_is(t: &TokenTree, kw: &[char]) -> (r: bool)
    ensures
        r == is_ident_named(*t, kw@),
{
    match t {
        TokenTree::Ident(s) => {
            let c = str_to_chars(s.as_str());
            if c.len() != kw.len() {
                return false;
            }
            let r = has_tag(&c, 0, kw);
            proof {
                if r {
                    assert(c@.subrange(0, kw@.len() as int) =~= c@);
                }
                if c@ == kw@ {
                    assert(c@.subrange(0, kw@.len() as int) =~= c@);
                }
            }
            r
        },
        _ => false,
    }
}

/// The reading of the item's name, generic parameters and `where` clause,
/// from `i` (just past `struct`, `enum`, `union` or `type`), over what was
/// read before: where it stops, the name, the parameters, the clause.
/// It stops early, keeping what it has, where the name, the opening `<` or
/// `where` is missing.
pub open spec fn header_scan(
    toks: Seq<TokenTree>,
    i: int,
    ident: Option<Seq<char>>,
    gens: Seq<(Seq<char>, Option<Seq<char>>)>,
    wc: Option<Seq<char>>,
) -> (int, Option<Seq<char>>, Seq<(Seq<char>, Option<Seq<char>>)>, Option<Seq<char>>) {
    if !(0 <= i < toks.len()) {
        (i, ident, gens, wc)
    } else if !(toks[i] is Ident) {
        (i + 1, ident, gens, wc)
    } else {
        let id = Some(token_text(toks[i]));
        if i + 1 >= toks.len() {
            (i + 1, id, gens, wc)
        } else if !is_punct(toks[i + 1], '<') {
            (i + 2, id, gens, wc)
        } else {
            let g = generics_scan(toks, i + 2, seq![], gens);
            if !(0 <= g.0 < toks.len()) {
                (g.0, id, g.1, wc)
            } else if !is_ident_named(toks[g.0], where_kw()) {
                (g.0 + 1, id, g.1, wc)
            } else {
                let w = where_scan(toks, g.0 + 1, 0, seq![]);
                (w.0, id, g.1, Some(w.1))
            }
        }
    }
}

/// The reading moves forward and stays within the tokens.
pub proof fn lemma_header_scan_bounds(
    toks: Seq<TokenTree>,
    i: int,
    ident: Option<Seq<char>>,
    gens: Seq<(Seq<char>, Option<Seq<char>>)>,
    wc: Option<Seq<char>>,
)
    requires
        0 <= i <= toks.len(),
    ensures
        i <= header_scan(toks, i, ident, gens, wc).0 <= toks.len(),
        i < toks.len() ==> i < header_scan(toks, i, ident, gens, wc).0,
{
    if i + 2 <= toks.len() {
        lemma_generics_scan_bounds(toks, i + 2, seq![], gens);
        let g = generics_scan(toks, i + 2, seq![], gens);
        if g.0 < toks.len() {
            lemma_where_scan_bounds(toks, g.0 + 1, 0, seq![]);
        }
    }
}

/// Reads the item's name, generic parameters and `where` clause from
/// `*pos`, just past `struct`, `enum`, `union` or `type`, and leaves `*pos`
/// where the reading stopped. The parameters are added to `generics`.
pub fn get_generics_and_type_name(
    toks: &Vec<TokenTree>,
    pos: &mut usize,
    ident: &mut Option<String>,
    generics: &mut Generics,
    where_clause: &mut WhereClause,
)
    requires
        *old(pos) <= toks.len(),
    ensures
        header_scan(
            toks@,
            *old(pos) as int,
            opt_chars(*old(ident)),
            old(generics)@,
            old(where_clause)@,
        ) == (*final(pos) as int, opt_chars(*final(ident)), final(generics)@, final(where_clause)@),
{
    let i = *pos;
    if i >= toks.len() {
        return;
    }
    *pos = i + 1;
    match &toks[i] {
        TokenTree::Ident(id) => {
            *ident = Some(id.clone());
        },
        _ => {
            return;
        },
    }
    if i + 1 >= toks.len() {
        return;
    }
    *pos = i + 2;
    if !punct_is(&toks[i + 1], '<') {
        return;
    }
    let j = scan_generics(toks, i + 2, generics);
    proof {
        lemma_generics_scan_bounds(toks@, i + 2, seq![], old(generics)@);
    }
    *pos = j;
    if j >= toks.len() {
        return;
    }
    *pos = j + 1;
    let kw: &[char] = &['w', 'h', 'e', 'r', 'e'];
    assert(kw@ =~= where_kw());
    if !ident_is(&toks[j], kw) {
        return;
    }
    let (k, w) = scan_where(toks, j + 1);
    *pos = k;
    *where_clause = WhereClause { inner: Some(chars_to_string(w.as_slice())) };
}

// ---------------------------------------------------------------------------
// The whole item.
// ---------------------------------------------------------------------------

/// Whether the token is `struct`, `enum`, `union` or `type`.
pub open spec fn is_item_keyword(t: TokenTree) -> bool {
    ||| is_ident_named(t, seq!['s', 't', 'r', 'u', 'c', 't'])
    ||| is_ident_named(t, seq!['e', 'n', 'u', 'm'])
    ||| is_ident_named(t, seq!['u', 'n', 'i', 'o', 'n'])
    ||| is_ident_named(t, seq!['t', 'y', 'p', 'e'])
}

/// Whether the token is a group in square brackets.
pub open spec fn is_bracket_group(t: TokenTree) -> bool {
    match t {
        TokenTree::Group(d, _, _) => d == Delimiter::Bracket,
        _ => false,
    }
}

/// Whether the token is a group in square brackets whose tokens are `stream`.
pub open spec fn is_attr_of(t: TokenTree, stream: Vec<TokenTree>) -> bool {
    match t {
        TokenTree::Group(d, v, _) => d == Delimiter::Bracket && v == stream,
        _ => false,
    }
}

/// The reading of the item's tokens from `i`, over what was read before:
/// the positions of the attributes' groups (a `#` followed by a group in
/// square brackets), and the name, parameters and `where` clause read after
/// each `struct`, `enum`, `union` or `type`. Other tokens are passed over.
pub open spec fn derive_scan(
    toks: Seq<TokenTree>,
    i: int,
    ps: Seq<int>,
    ident: Option<Seq<char>>,
    gens: Seq<(Seq<char>, Option<Seq<char>>)>,
    wc: Option<Seq<char>>,
) -> (Seq<int>, Option<Seq<char>>, Seq<(Seq<char>, Option<Seq<char>>)>, Option<Seq<char>>)
    decreases toks.len() - i,
{
    if !(0 <= i < toks.len()) {
        (ps, ident, gens, wc)
    } else if is_punct(toks[i], '#') {
        if i + 1 < toks.len() {
            derive_scan(
                toks,
                i + 2,
                if is_bracket_group(toks[i + 1]) {
                    ps.push(i + 1)
                } else {
                    ps
                },
                ident,
                gens,
                wc,
            )
        } else {
            (ps, ident, gens, wc)
        }
    } else if is_item_keyword(toks[i]) {
        let h = header_scan(toks, i + 1, ident, gens, wc);
        if i < h.0 <= toks.len() {
            derive_scan(toks, h.0, ps, h.1, h.2, h.3)
        } else {
            (ps, h.1, h.2, h.3)
        }
    } else {
        derive_scan(toks, i + 1, ps, ident, gens, wc)
    }
}

/// Whether the token is a group in square brackets.
fn bracket_group(t: &TokenTree) -> (r: bool)
    ensures
        r == is_bracket_group(*t),
{
    match t {
        TokenTree::Group(d, _, _) => match d {
            Delimiter::Bracket => true,
            _ => false,
        },
        _ => false,
    }
}

/// The item that derives `Template`: its attributes (the tokens inside each
/// `#[..]`), its name, its generic parameters and its `where` clause.
#[derive(Debug, PartialEq, Eq)]
pub struct DeriveInput {
    pub attrs: Vec<Vec<TokenTree>>,
    pub ident: String,
    pub generics: Generics,
    pub where_clause: WhereClause,
}

impl DeriveInput {
    /// Reads the item from its tokens.
    pub fn new(f: Vec<TokenTree>) -> (r: Self)
        ensures
            ({
                let d = derive_scan(f@, 0, seq![], None, seq![], None);
                &&& r.attrs@.len() == d.0.len()
                &&& forall|k: int|
                    0 <= k < d.0.len() ==> 0 <= #[trigger] d.0[k] < f@.len() && is_attr_of(
                        f@[d.0[k]],
                        r.attrs@[k],
                    )
                &&& r.ident@ == match d.1 {
                    Some(s) => s,
                    None => Seq::<char>::empty(),
                }
                &&& r.generics@ == d.2
                &&& r.where_clause@ == d.3
            }),
    {
        let sk: &[char] = &['s', 't', 'r', 'u', 'c', 't'];
        let ek: &[char] = &['e', 'n', 'u', 'm'];
        let uk: &[char] = &['u', 'n', 'i', 'o', 'n'];
        let tk: &[char] = &['t', 'y', 'p', 'e'];
        assert(sk@ =~= seq!['s', 't', 'r', 'u', 'c', 't']);
        assert(ek@ =~= seq!['e', 'n', 'u', 'm']);
        assert(uk@ =~= seq!['u', 'n', 'i', 'o', 'n']);
        assert(tk@ =~= seq!['t', 'y', 'p', 'e']);
        let ghost start = derive_scan(f@, 0, seq![], None, seq![], None);
        let mut pos: usize = 0;
        let mut ps: Vec<usize> = Vec::new();
        let mut ident: Option<String> = None;
        let mut generics = Generics::new();
        let mut where_clause = WhereClause::new();
        assert(ps@.map_values(|p: usize| p as int) =~= Seq::<int>::empty());
        while pos < f.len()
            invariant
                pos <= f.len(),
                sk@ == seq!['s', 't', 'r', 'u', 'c', 't'],
                ek@ == seq!['e', 'n', 'u', 'm'],
                uk@ == seq!['u', 'n', 'i', 'o', 'n'],
                tk@ == seq!['t', 'y', 'p', 'e'],
                derive_scan(
                    f@,
                    pos as int,
                    ps@.map_values(|p: usize| p as int),
                    opt_chars(ident),
                    generics@,
                    where_clause@,
                ) == start,
                forall|k: int|
                    0 <= k < ps@.len() ==> #[trigger] ps@[k] < pos && is_bracket_group(
                        f@[ps@[k] as int],
                    ),
                forall|a: int, b: int| 0 <= a < b < ps@.len() ==> ps@[a] < ps@[b],
            decreases f.len() - pos,
        {
            let i = pos;
            if punct_is(&f[i], '#') {
                if i + 1 < f.len() {
                    if bracket_group(&f[i + 1]) {
                        let ghost before = ps@;
                        ps.push(i + 1);
                        assert(ps@.map_values(|p: usize| p as int) =~= before.map_values(
                            |p: usize| p as int,
                        ).push(i + 1));
                    }
                    pos = i + 2;
                } else {
                    pos = f.len();
                }
            } else if ident_is(&f[i], sk) || ident_is(&f[i], ek) || ident_is(&f[i], uk)
                || ident_is(&f[i], tk) {
                pos = i + 1;
                proof {
                    lemma_header_scan_bounds(
                        f@,
                        i + 1,
                        opt_chars(ident),
                        generics@,
                        where_clause@,
                    );
                }
                get_generics_and_type_name(&f, &mut pos, &mut ident, &mut generics, &mut where_clause);
            } else {
                pos = i + 1;
            }
        }
        let ghost f0 = f@;
        let n = ps.len();
        let mut toks = f;
        let mut attrs: Vec<Vec<TokenTree>> = Vec::new();
        let mut k = n;
        while k > 0
            invariant
                k <= n == ps@.len(),
                f0.len() == f@.len(),
                forall|j: int| 0 <= j < ps@.len() ==> #[trigger] ps@[j] < f0.len() && is_bracket_group(
                    f0[ps@[j] as int],
                ),
                forall|a: int, b: int| 0 <= a < b < ps@.len() ==> ps@[a] < ps@[b],
                forall|q: int|
                    0 <= q < (if k == n {
                        f0.len() as int
                    } else {
                        ps@[k as int] as int
                    }) ==> q < toks@.len() && #[trigger] toks@[q] == f0[q],
                attrs@.len() == n - k,
                forall|j: int|
                    0 <= j < n - k ==> is_attr_of(f0[ps@[k + j] as int], #[trigger] attrs@[j]),
            decreases k,
        {
            let p = ps[k - 1];
            assert(toks@[p as int] == f0[p as int]);
            let t = toks.remove(p);
            let ghost old_attrs = attrs@;
            match t {
                TokenTree::Group(_, stream, _) => {
                    attrs.insert(0, stream);
                },
                _ => {},
            }
            assert(attrs@.len() == n - k + 1);
            assert forall|j: int| 0 <= j < n - (k - 1) implies is_attr_of(
                f0[ps@[k - 1 + j] as int],
                #[trigger] attrs@[j],
            ) by {
                if j > 0 {
                    assert(attrs@[j] == old_attrs[j - 1]);
                    assert(k - 1 + j == k + (j - 1));
                }
            }
            k = k - 1;
        }
        let ident = match ident {
            Some(s) => s,
            None => String::new(),
        };
        DeriveInput { attrs, ident, generics, where_clause }
    }
}

} // verus!
