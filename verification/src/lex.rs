//! Lexical level of the template grammar: whitespace, tags, identifiers,
//! keywords and the literal forms (numbers, strings, characters), each stated
//! as a spec function over the character sequence of the source and
//! implemented by an executable scanner proved against it.

use vstd::prelude::*;
use crate::text::chars_to_string;
use crate::ast::strs_m;

verus! {

// ---------------------------------------------------------------------------
// Parse results.
// ---------------------------------------------------------------------------

/// The block tags whose end tag may repeat the block's name.
#[derive(Clone, Copy, Debug, PartialEq, Eq)]
pub enum EndKind {
    Block,
    Macro,
}

/// The message attached to a fatal parse error.  Names are kept as spans
/// `(start, end)` of character positions into the source.
#[derive(Clone, Copy, Debug, PartialEq, Eq)]
pub enum Msg {
    Plain,
    EmptyCharLit,
    InvalidChar,
    AsciiRange,
    UnicodeRange,
    NamedArgsLast,
    NamedArgTwice(usize, usize),
    CannotUseName(usize, usize),
    UnknownElif,
    EndName(EndKind, usize, usize, usize, usize),
    ExtendsWs,
    CommentsTooDeep,
}

/// A parse error at character position `pos`.  A non-fatal error lets the
/// enclosing alternative try its next branch; a fatal one ends the parse.
#[derive(Clone, Copy, Debug, PartialEq, Eq)]
pub struct PErr {
    pub pos: usize,
    pub fatal: bool,
    pub msg: Msg,
}

/// The mathematical result of a parser started at some position: success
/// with the position after the consumed input and a value, a recoverable
/// error, or a fatal error with its message.
pub enum SR<T> {
    Parsed(int, T),
    Backtrack(int),
    Fail(int, Msg),
}

/// The model of an executable parse error.
pub open spec fn err_sr<T>(e: PErr) -> SR<T> {
    if e.fatal {
        SR::Fail(e.pos as int, e.msg)
    } else {
        SR::Backtrack(e.pos as int)
    }
}

/// Every position an executable parser hands back lies in `p..=len` when it
/// succeeds, and in `0..=len` when it fails.
pub open spec fn res_bounds<T>(r: Result<(usize, T), PErr>, p: int, len: int) -> bool {
    match r {
        Ok((i, _)) => p <= i <= len,
        Err(e) => e.pos <= len && msg_ok(e.msg, len) && (!e.fatal ==> e.msg == Msg::Plain),
    }
}

/// The spans a message names lie within the input.
pub open spec fn msg_ok(m: Msg, len: int) -> bool {
    match m {
        Msg::NamedArgTwice(a, b) => a <= b <= len,
        Msg::CannotUseName(a, b) => a <= b <= len,
        Msg::EndName(_, a, b, c, d) => a <= b <= len && c <= d <= len,
        _ => true,
    }
}

pub fn soft(pos: usize) -> (e: PErr)
    ensures
        e == (PErr { pos, fatal: false, msg: Msg::Plain }),
{
    PErr { pos, fatal: false, msg: Msg::Plain }
}

pub fn hard(pos: usize, msg: Msg) -> (e: PErr)
    ensures
        e == (PErr { pos, fatal: true, msg }),
{
    PErr { pos, fatal: true, msg }
}

/// `cut`: a recoverable error becomes fatal at the same position.
pub fn cut(e: PErr) -> (r: PErr)
    ensures
        r == (PErr { pos: e.pos, fatal: true, msg: e.msg }),
{
    PErr { pos: e.pos, fatal: true, msg: e.msg }
}

pub open spec fn cut_sr<T>(r: SR<T>) -> SR<T> {
    match r {
        SR::Backtrack(p) => SR::Fail(p, Msg::Plain),
        _ => r,
    }
}

// ---------------------------------------------------------------------------
// Character classes and runs.
// ---------------------------------------------------------------------------

/// Template whitespace: space, tab, carriage return and line feed.
pub open spec fn is_ws(c: char) -> bool {
    c == ' ' || c == '\t' || c == '\r' || c == '\n'
}

pub open spec fn is_ascii_alpha(c: char) -> bool {
    ('a' <= c && c <= 'z') || ('A' <= c && c <= 'Z')
}

pub open spec fn is_dec(c: char) -> bool {
    '0' <= c && c <= '9'
}

/// First character of an identifier.
pub open spec fn is_id_start(c: char) -> bool {
    is_ascii_alpha(c) || c == '_' || c >= '\u{80}'
}

/// Later characters of an identifier.
pub open spec fn is_id_cont(c: char) -> bool {
    is_id_start(c) || is_dec(c)
}

/// A digit in the given radix (2, 8, 10 or 16).
pub open spec fn is_digit(c: char, radix: u32) -> bool {
    if radix == 2 {
        c == '0' || c == '1'
    } else if radix == 8 {
        '0' <= c && c <= '7'
    } else if radix == 10 {
        is_dec(c)
    } else {
        is_dec(c) || ('a' <= c && c <= 'f') || ('A' <= c && c <= 'F')
    }
}

pub enum Class {
    Ws,
    IdCont,
    Digits(u32),
    Underscore,
    Hex,
}

pub open spec fn in_class(c: char, k: Class) -> bool {
    match k {
        Class::Ws => is_ws(c),
        Class::IdCont => is_id_cont(c),
        Class::Digits(r) => c == '_' || is_digit(c, r),
        Class::Underscore => c == '_',
        Class::Hex => is_digit(c, 16),
    }
}

/// The end of the longest run of characters of class `k` starting at `p`.
pub open spec fn run(s: Seq<char>, p: int, k: Class) -> int
    decreases s.len() - p,
{
    if 0 <= p < s.len() && in_class(s[p], k) {
        run(s, p + 1, k)
    } else {
        p
    }
}

pub open spec fn skip_ws(s: Seq<char>, p: int) -> int {
    run(s, p, Class::Ws)
}

pub proof fn lemma_run(s: Seq<char>, p: int, k: Class)
    requires
        0 <= p <= s.len(),
    ensures
        p <= run(s, p, k) <= s.len(),
        run(s, p, k) < s.len() ==> !in_class(s[run(s, p, k)], k),
        forall|j: int| p <= j < run(s, p, k) ==> in_class(#[trigger] s[j], k),
    decreases s.len() - p,
{
    if p < s.len() && in_class(s[p], k) {
        lemma_run(s, p + 1, k);
    }
}

pub proof fn lemma_skip_ws(s: Seq<char>, p: int)
    requires
        0 <= p <= s.len(),
    ensures
        p <= skip_ws(s, p) <= s.len(),
        skip_ws(s, p) < s.len() ==> !is_ws(s[skip_ws(s, p)]),
{
    lemma_run(s, p, Class::Ws);
}

pub fn in_class_exec(c: char, k: &Class) -> (r: bool)
    ensures
        r == in_class(c, *k),
{
    match k {
        Class::Ws => c == ' ' || c == '\t' || c == '\r' || c == '\n',
        Class::IdCont => ('a' <= c && c <= 'z') || ('A' <= c && c <= 'Z') || c == '_' || c
            >= '\u{80}' || ('0' <= c && c <= '9'),
        Class::Digits(r) => c == '_' || digit_exec(c, *r),
        Class::Underscore => c == '_',
        Class::Hex => digit_exec(c, 16),
    }
}

pub fn digit_exec(c: char, radix: u32) -> (r: bool)
    ensures
        r == is_digit(c, radix),
{
    if radix == 2 {
        c == '0' || c == '1'
    } else if radix == 8 {
        '0' <= c && c <= '7'
    } else if radix == 10 {
        '0' <= c && c <= '9'
    } else {
        ('0' <= c && c <= '9') || ('a' <= c && c <= 'f') || ('A' <= c && c <= 'F')
    }
}

pub fn run_exec(s: &Vec<char>, p: usize, k: &Class) -> (r: usize)
    requires
        p <= s.len(),
    ensures
        r == run(s@, p as int, *k),
        p <= r <= s.len(),
{
    let mut i = p;
    while i < s.len() && in_class_exec(s[i], k)
        invariant
            p <= i <= s.len(),
            run(s@, i as int, *k) == run(s@, p as int, *k),
        decreases s.len() - i,
    {
        i = i + 1;
    }
    i
}

pub fn skip_ws_exec(s: &Vec<char>, p: usize) -> (r: usize)
    requires
        p <= s.len(),
    ensures
        r == skip_ws(s@, p as int),
        p <= r <= s.len(),
{
    run_exec(s, p, &Class::Ws)
}

// ---------------------------------------------------------------------------
// Tags and single characters.
// ---------------------------------------------------------------------------

/// `t` occurs in `s` at position `p`.
pub open spec fn tag_at(s: Seq<char>, p: int, t: Seq<char>) -> bool {
    0 <= p && p + t.len() <= s.len() && s.subrange(p, p + t.len()) == t
}

pub open spec fn char_at(s: Seq<char>, p: int, c: char) -> bool {
    0 <= p < s.len() && s[p] == c
}

pub fn has_tag(s: &Vec<char>, p: usize, t: &[char]) -> (r: bool)
    requires
        p <= s.len(),
    ensures
        r == tag_at(s@, p as int, t@),
{
    if t.len() > s.len() - p {
        return false;
    }
    let mut k: usize = 0;
    while k < t.len()
        invariant
            k <= t.len(),
            p + t@.len() <= s.len(),
            forall|j: int| 0 <= j < k ==> s@[p + j] == t@[j],
        decreases t.len() - k,
    {
        if s[p + k] != t[k] {
            assert(s@.subrange(p as int, p + t@.len())[k as int] != t@[k as int]);
            return false;
        }
        k = k + 1;
    }
    assert(s@.subrange(p as int, p + t@.len()) =~= t@);
    true
}

pub fn has_char(s: &Vec<char>, p: usize, c: char) -> (r: bool)
    ensures
        r == char_at(s@, p as int, c),
{
    p < s.len() && s[p] == c
}

// ---------------------------------------------------------------------------
// Substrings.
// ---------------------------------------------------------------------------

pub fn sub_chars(s: &Vec<char>, a: usize, b: usize) -> (r: Vec<char>)
    requires
        a <= b <= s.len(),
    ensures
        r@ == s@.subrange(a as int, b as int),
{
    let mut out: Vec<char> = Vec::new();
    let mut i = a;
    while i < b
        invariant
            a <= i <= b <= s.len(),
            out@ == s@.subrange(a as int, i as int),
        decreases b - i,
    {
        out.push(s[i]);
        i = i + 1;
        assert(out@ =~= s@.subrange(a as int, i as int));
    }
    out
}

pub fn sub_string(s: &Vec<char>, a: usize, b: usize) -> (r: String)
    requires
        a <= b <= s.len(),
    ensures
        r@ == s@.subrange(a as int, b as int),
{
    let v = sub_chars(s, a, b);
    chars_to_string(v.as_slice())
}

// ---------------------------------------------------------------------------
// Identifiers and keywords.
// ---------------------------------------------------------------------------

/// An identifier starting at `p` ends at the returned position.
pub open spec fn ident(s: Seq<char>, p: int) -> Option<int> {
    if 0 <= p < s.len() && is_id_start(s[p]) {
        Some(run(s, p + 1, Class::IdCont))
    } else {
        None
    }
}

pub proof fn lemma_ident(s: Seq<char>, p: int)
    requires
        0 <= p <= s.len(),
    ensures
        ident(s, p) matches Some(e) ==> p < e <= s.len(),
{
    if p < s.len() {
        lemma_run(s, p + 1, Class::IdCont);
    }
}

pub fn ident_exec(s: &Vec<char>, p: usize) -> (r: Option<usize>)
    requires
        p <= s.len(),
    ensures
        r matches Some(e) ==> ident(s@, p as int) == Some(e as int) && p < e <= s.len(),
        r is None ==> ident(s@, p as int) is None,
{
    if p < s.len() {
        let c = s[p];
        if ('a' <= c && c <= 'z') || ('A' <= c && c <= 'Z') || c == '_' || c >= '\u{80}' {
            return Some(run_exec(s, p + 1, &Class::IdCont));
        }
    }
    None
}

/// The keyword `k` at `p`: an identifier spelled exactly `k`.
pub open spec fn keyword(s: Seq<char>, p: int, k: Seq<char>) -> Option<int> {
    match ident(s, p) {
        Some(e) => if s.subrange(p, e) == k {
            Some(e)
        } else {
            None
        },
        None => None,
    }
}

pub fn keyword_exec(s: &Vec<char>, p: usize, k: &[char]) -> (r: Option<usize>)
    requires
        p <= s.len(),
    ensures
        r matches Some(e) ==> keyword(s@, p as int, k@) == Some(e as int) && p < e <= s.len(),
        r is None ==> keyword(s@, p as int, k@) is None,
{
    match ident_exec(s, p) {
        Some(e) => {
            if e - p == k.len() && has_tag(s, p, k) {
                Some(e)
            } else {
                None
            }
        },
        None => None,
    }
}

/// `ws(keyword(k))`: the end of the keyword and of the whitespace after it.
pub open spec fn ws_keyword(s: Seq<char>, p: int, k: Seq<char>) -> Option<int> {
    match keyword(s, skip_ws(s, p), k) {
        Some(e) => Some(skip_ws(s, e)),
        None => None,
    }
}

pub fn ws_keyword_exec(s: &Vec<char>, p: usize, k: &[char]) -> (r: Option<usize>)
    requires
        p <= s.len(),
    ensures
        r matches Some(e) ==> ws_keyword(s@, p as int, k@) == Some(e as int) && p < e <= s.len(),
        r is None ==> ws_keyword(s@, p as int, k@) is None,
{
    let q = skip_ws_exec(s, p);
    match keyword_exec(s, q, k) {
        Some(e) => Some(skip_ws_exec(s, e)),
        None => None,
    }
}

// ---------------------------------------------------------------------------
// Whitespace-control markers.
// ---------------------------------------------------------------------------

use crate::ast::Whitespace;

/// The marker `+`, `-` or `~` at `p`, if there is one.
pub open spec fn ws_mark(s: Seq<char>, p: int) -> Option<Whitespace> {
    if 0 <= p < s.len() {
        if s[p] == '+' {
            Some(Whitespace::Preserve)
        } else if s[p] == '-' {
            Some(Whitespace::Suppress)
        } else if s[p] == '~' {
            Some(Whitespace::Minimize)
        } else {
            None
        }
    } else {
        None
    }
}

/// The position after an optional marker at `p`.
pub open spec fn after_mark(s: Seq<char>, p: int) -> int {
    if ws_mark(s, p) is Some {
        p + 1
    } else {
        p
    }
}

pub fn ws_mark_exec(s: &Vec<char>, p: usize) -> (r: (Option<Whitespace>, usize))
    requires
        p <= s.len(),
    ensures
        r.0 == ws_mark(s@, p as int),
        r.1 == after_mark(s@, p as int),
        p <= r.1 <= s.len(),
{
    if p < s.len() {
        let c = s[p];
        if c == '+' {
            return (Some(Whitespace::Preserve), p + 1);
        } else if c == '-' {
            return (Some(Whitespace::Suppress), p + 1);
        } else if c == '~' {
            return (Some(Whitespace::Minimize), p + 1);
        }
    }
    (None, p)
}

// ---------------------------------------------------------------------------
// Number literals.
// ---------------------------------------------------------------------------

/// Digits of the given radix separated by underscores; unless `start`, the
/// run may begin with underscores.  Returns the end of the run.
pub open spec fn sep_digits(s: Seq<char>, p: int, radix: u32, start: bool) -> Option<int> {
    let q = if start {
        p
    } else {
        run(s, p, Class::Underscore)
    };
    if 0 <= q < s.len() && is_digit(s[q], radix) {
        Some(run(s, q + 1, Class::Digits(radix)))
    } else {
        None
    }
}

pub proof fn lemma_sep_digits(s: Seq<char>, p: int, radix: u32, start: bool)
    requires
        0 <= p <= s.len(),
    ensures
        sep_digits(s, p, radix, start) matches Some(e) ==> p < e <= s.len(),
{
    lemma_run(s, p, Class::Underscore);
    let q = if start {
        p
    } else {
        run(s, p, Class::Underscore)
    };
    if 0 <= q < s.len() {
        lemma_run(s, q + 1, Class::Digits(radix));
    }
}

pub fn sep_digits_exec(s: &Vec<char>, p: usize, radix: u32, start: bool) -> (r: Option<usize>)
    requires
        p <= s.len(),
    ensures
        r matches Some(e) ==> sep_digits(s@, p as int, radix, start) == Some(e as int) && p < e
            <= s.len(),
        r is None ==> sep_digits(s@, p as int, radix, start) is None,
{
    let q = if start {
        p
    } else {
        run_exec(s, p, &Class::Underscore)
    };
    if q < s.len() && digit_exec(s[q], radix) {
        Some(run_exec(s, q + 1, &Class::Digits(radix)))
    } else {
        None
    }
}

/// Length of the integer type suffix at `p` (`i8` .. `usize`), or 0.
pub open spec fn int_suffix(s: Seq<char>, p: int) -> int {
    if tag_at(s, p, seq!['i', '8']) {
        2
    } else if tag_at(s, p, seq!['i', '1', '6']) {
        3
    } else if tag_at(s, p, seq!['i', '3', '2']) {
        3
    } else if tag_at(s, p, seq!['i', '6', '4']) {
        3
    } else if tag_at(s, p, seq!['i', '1', '2', '8']) {
        4
    } else if tag_at(s, p, seq!['i', 's', 'i', 'z', 'e']) {
        5
    } else if tag_at(s, p, seq!['u', '8']) {
        2
    } else if tag_at(s, p, seq!['u', '1', '6']) {
        3
    } else if tag_at(s, p, seq!['u', '3', '2']) {
        3
    } else if tag_at(s, p, seq!['u', '6', '4']) {
        3
    } else if tag_at(s, p, seq!['u', '1', '2', '8']) {
        4
    } else if tag_at(s, p, seq!['u', 's', 'i', 'z', 'e']) {
        5
    } else {
        0
    }
}

pub fn int_suffix_exec(s: &Vec<char>, p: usize) -> (r: usize)
    requires
        p <= s.len(),
    ensures
        r == int_suffix(s@, p as int),
        p + r <= s.len(),
{
    if has_tag(s, p, &['i', '8']) {
        2
    } else if has_tag(s, p, &['i', '1', '6']) {
        3
    } else if has_tag(s, p, &['i', '3', '2']) {
        3
    } else if has_tag(s, p, &['i', '6', '4']) {
        3
    } else if has_tag(s, p, &['i', '1', '2', '8']) {
        4
    } else if has_tag(s, p, &['i', 's', 'i', 'z', 'e']) {
        5
    } else if has_tag(s, p, &['u', '8']) {
        2
    } else if has_tag(s, p, &['u', '1', '6']) {
        3
    } else if has_tag(s, p, &['u', '3', '2']) {
        3
    } else if has_tag(s, p, &['u', '6', '4']) {
        3
    } else if has_tag(s, p, &['u', '1', '2', '8']) {
        4
    } else if has_tag(s, p, &['u', 's', 'i', 'z', 'e']) {
        5
    } else {
        0
    }
}

/// Length of the float type suffix at `p` (`f32`, `f64`), or 0.
pub open spec fn float_suffix(s: Seq<char>, p: int) -> int {
    if tag_at(s, p, seq!['f', '3', '2']) || tag_at(s, p, seq!['f', '6', '4']) {
        3
    } else {
        0
    }
}

pub fn float_suffix_exec(s: &Vec<char>, p: usize) -> (r: usize)
    requires
        p <= s.len(),
    ensures
        r == float_suffix(s@, p as int),
        p + r <= s.len(),
{
    if has_tag(s, p, &['f', '3', '2']) || has_tag(s, p, &['f', '6', '4']) {
        3
    } else {
        0
    }
}

/// An exponent part at `e`: an optional fraction, `e`/`E`, an optional sign,
/// digits and an optional float suffix.
pub open spec fn exp_part(s: Seq<char>, e: int) -> Option<int> {
    let e1 = if char_at(s, e, '.') && sep_digits(s, e + 1, 10, true) is Some {
        sep_digits(s, e + 1, 10, true)->0
    } else {
        e
    };
    if char_at(s, e1, 'e') || char_at(s, e1, 'E') {
        let e2 = if char_at(s, e1 + 1, '+') || char_at(s, e1 + 1, '-') {
            e1 + 2
        } else {
            e1 + 1
        };
        match sep_digits(s, e2, 10, false) {
            Some(d) => Some(d + float_suffix(s, d)),
            None => None,
        }
    } else {
        None
    }
}

/// A fraction part at `e`: `.`, digits and an optional float suffix.
pub open spec fn dot_part(s: Seq<char>, e: int) -> Option<int> {
    if char_at(s, e, '.') {
        match sep_digits(s, e + 1, 10, true) {
            Some(d) => Some(d + float_suffix(s, d)),
            None => None,
        }
    } else {
        None
    }
}

/// What may follow the digits of a decimal literal ending at `e`.
pub open spec fn dec_tail(s: Seq<char>, e: int) -> int {
    if int_suffix(s, e) > 0 {
        e + int_suffix(s, e)
    } else if float_suffix(s, e) > 0 {
        e + float_suffix(s, e)
    } else if exp_part(s, e) is Some {
        exp_part(s, e)->0
    } else if dot_part(s, e) is Some {
        dot_part(s, e)->0
    } else {
        e
    }
}

/// The radix named by the letter after a leading `0`, or 0.
pub open spec fn radix_letter(c: char) -> u32 {
    if c == 'b' {
        2
    } else if c == 'o' {
        8
    } else if c == 'x' {
        16
    } else {
        0
    }
}

/// A number literal at `p`: an optional `-`, then either `0b`/`0o`/`0x`
/// digits with an optional integer suffix, or decimal digits with an
/// optional suffix, exponent or fraction.  Returns the literal's end.
pub open spec fn num_lit(s: Seq<char>, p: int) -> Option<int> {
    let q = if char_at(s, p, '-') {
        p + 1
    } else {
        p
    };
    let prefixed = if char_at(s, q, '0') && q + 1 < s.len() && radix_letter(s[q + 1]) != 0 {
        sep_digits(s, q + 2, radix_letter(s[q + 1]), false)
    } else {
        None
    };
    match prefixed {
        Some(e) => Some(e + int_suffix(s, e)),
        None => match sep_digits(s, q, 10, true) {
            Some(e) => Some(dec_tail(s, e)),
            None => None,
        },
    }
}

pub fn exp_part_exec(s: &Vec<char>, e: usize) -> (r: Option<usize>)
    requires
        e <= s.len(),
    ensures
        r matches Some(x) ==> exp_part(s@, e as int) == Some(x as int) && e < x <= s.len(),
        r is None ==> exp_part(s@, e as int) is None,
{
    let mut e1 = e;
    if has_char(s, e, '.') {
        match sep_digits_exec(s, e + 1, 10, true) {
            Some(d) => {
                e1 = d;
            },
            None => {},
        }
    }
    if has_char(s, e1, 'e') || has_char(s, e1, 'E') {
        let e2 = if has_char(s, e1 + 1, '+') || has_char(s, e1 + 1, '-') {
            e1 + 2
        } else {
            e1 + 1
        };
        match sep_digits_exec(s, e2, 10, false) {
            Some(d) => Some(d + float_suffix_exec(s, d)),
            None => None,
        }
    } else {
        None
    }
}

pub fn dot_part_exec(s: &Vec<char>, e: usize) -> (r: Option<usize>)
    requires
        e <= s.len(),
    ensures
        r matches Some(x) ==> dot_part(s@, e as int) == Some(x as int) && e < x <= s.len(),
        r is None ==> dot_part(s@, e as int) is None,
{
    if has_char(s, e, '.') {
        match sep_digits_exec(s, e + 1, 10, true) {
            Some(d) => Some(d + float_suffix_exec(s, d)),
            None => None,
        }
    } else {
        None
    }
}

pub fn num_lit_exec(s: &Vec<char>, p: usize) -> (r: Option<usize>)
    requires
        p <= s.len(),
    ensures
        r matches Some(e) ==> num_lit(s@, p as int) == Some(e as int) && p < e <= s.len(),
        r is None ==> num_lit(s@, p as int) is None,
{
    let q = if has_char(s, p, '-') {
        p + 1
    } else {
        p
    };
    if has_char(s, q, '0') && q + 1 < s.len() {
        let c = s[q + 1];
        let radix: u32 = if c == 'b' {
            2
        } else if c == 'o' {
            8
        } else if c == 'x' {
            16
        } else {
            0
        };
        if radix != 0 {
            match sep_digits_exec(s, q + 2, radix, false) {
                Some(e) => {
                    return Some(e + int_suffix_exec(s, e));
                },
                None => {},
            }
        }
    }
    match sep_digits_exec(s, q, 10, true) {
        Some(e) => {
            let k = int_suffix_exec(s, e);
            if k > 0 {
                return Some(e + k);
            }
            let f = float_suffix_exec(s, e);
            if f > 0 {
                return Some(e + f);
            }
            match exp_part_exec(s, e) {
                Some(x) => {
                    return Some(x);
                },
                None => {},
            }
            match dot_part_exec(s, e) {
                Some(x) => Some(x),
                None => Some(e),
            }
        },
        None => None,
    }
}

// ---------------------------------------------------------------------------
// String and character literals.
// ---------------------------------------------------------------------------

/// Scans the body of a quoted literal from `p`: plain characters, or a
/// backslash followed by any character, up to the closing `quote`.
/// `None` when a backslash is the last character of the input.
pub open spec fn esc_scan(s: Seq<char>, p: int, quote: char) -> Option<int>
    decreases s.len() - p,
{
    if p < 0 || p >= s.len() {
        Some(s.len() as int)
    } else if s[p] == '\\' {
        if p + 1 >= s.len() {
            None
        } else {
            esc_scan(s, p + 2, quote)
        }
    } else if s[p] == quote {
        Some(p)
    } else {
        esc_scan(s, p + 1, quote)
    }
}

/// The end of the body of a quoted literal whose body starts at `a`.
pub open spec fn body_end(s: Seq<char>, a: int, quote: char) -> int {
    match esc_scan(s, a, quote) {
        Some(e) => e,
        None => a,
    }
}

pub fn body_end_exec(s: &Vec<char>, a: usize, quote: char) -> (r: usize)
    requires
        a <= s.len(),
    ensures
        r == body_end(s@, a as int, quote),
        a <= r <= s.len(),
{
    let mut k = a;
    while k < s.len()
        invariant
            a <= k <= s.len(),
            esc_scan(s@, k as int, quote) == esc_scan(s@, a as int, quote),
        decreases s.len() - k,
    {
        if s[k] == '\\' {
            if k + 1 >= s.len() {
                return a;
            }
            k = k + 2;
        } else if s[k] == quote {
            return k;
        } else {
            k = k + 1;
        }
    }
    s.len()
}

/// A string literal at `p`: `Some((e, e + 1))` where the body is `p + 1 .. e`.
pub open spec fn str_lit(s: Seq<char>, p: int) -> Option<int> {
    if char_at(s, p, '"') && char_at(s, body_end(s, p + 1, '"'), '"') {
        Some(body_end(s, p + 1, '"'))
    } else {
        None
    }
}

/// Where a string literal at `p` stops matching.
pub open spec fn str_lit_err(s: Seq<char>, p: int) -> int {
    if char_at(s, p, '"') {
        body_end(s, p + 1, '"')
    } else {
        p
    }
}

/// A string literal at `p`: `Ok(e)` with the body at `p + 1 .. e` and the
/// literal ending at `e + 1`, or the error position.
pub fn str_lit_exec(s: &Vec<char>, p: usize) -> (r: Result<usize, usize>)
    requires
        p <= s.len(),
    ensures
        r matches Ok(e) ==> str_lit(s@, p as int) == Some(e as int) && p < e < s.len(),
        r matches Err(x) ==> str_lit(s@, p as int) is None && x == str_lit_err(s@, p as int)
            && x <= s.len(),
{
    if !has_char(s, p, '"') {
        return Err(p);
    }
    let e = body_end_exec(s, p + 1, '"');
    if has_char(s, e, '"') {
        Ok(e)
    } else {
        Err(e)
    }
}

/// The shape of the body of a character literal.
pub enum CharKind {
    Literal,
    Escaped,
    Ascii(int),
    Unicode(int),
    Invalid,
}

pub open spec fn hex_digit_val(c: char) -> int {
    if is_dec(c) {
        c as int - '0' as int
    } else if 'a' <= c && c <= 'f' {
        c as int - 'a' as int + 10
    } else {
        c as int - 'A' as int + 10
    }
}

/// The value of a sequence of hexadecimal digits.
pub open spec fn hex_val(d: Seq<char>) -> int
    decreases d.len(),
{
    if d.len() == 0 {
        0
    } else {
        hex_val(d.drop_last()) * 16 + hex_digit_val(d.last())
    }
}

pub open spec fn simple_escape(c: char) -> bool {
    c == 'n' || c == 'r' || c == 't' || c == '\\' || c == '0' || c == '\'' || c == '"'
}

/// Number of hexadecimal digits (at most six) starting at `3` in `c`.
pub open spec fn hex_count(c: Seq<char>) -> int {
    let k = run(c, 3, Class::Hex) - 3;
    if k > 6 {
        6
    } else {
        k
    }
}

/// Classifies the body of a character literal as Rust does: one character,
/// a simple escape, `\xHH` or `\u{H..}`.
pub open spec fn char_kind(c: Seq<char>) -> CharKind {
    if c.len() == 1 {
        CharKind::Literal
    } else if c.len() >= 2 && c[0] == '\\' {
        if simple_escape(c[1]) {
            if c.len() == 2 {
                CharKind::Escaped
            } else {
                CharKind::Invalid
            }
        } else if c[1] == 'x' && c.len() == 4 && is_digit(c[2], 16) && is_digit(c[3], 16) {
            CharKind::Ascii(hex_val(c.subrange(2, 4)))
        } else if c[1] == 'u' && c.len() >= 3 && c[2] == '{' && hex_count(c) >= 1 && c.len() == 4
            + hex_count(c) && c[3 + hex_count(c)] == '}' {
            CharKind::Unicode(hex_val(c.subrange(3, 3 + hex_count(c))))
        } else {
            CharKind::Invalid
        }
    } else {
        CharKind::Invalid
    }
}

/// A character literal at `p`; success carries the end of the body (the
/// body starts at `p + 1` and the literal ends one past the body).
pub open spec fn char_lit(s: Seq<char>, p: int) -> SR<int> {
    let a = p + 1;
    let e = body_end(s, a, '\'');
    if !char_at(s, p, '\'') {
        SR::Backtrack(p)
    } else if !char_at(s, e, '\'') {
        SR::Backtrack(e)
    } else if e == a {
        SR::Fail(p, Msg::EmptyCharLit)
    } else {
        match char_kind(s.subrange(a, e)) {
            CharKind::Literal => SR::Parsed(e + 1, e),
            CharKind::Escaped => SR::Parsed(e + 1, e),
            CharKind::Ascii(v) => if v > 0x7f {
                SR::Fail(p, Msg::AsciiRange)
            } else {
                SR::Parsed(e + 1, e)
            },
            CharKind::Unicode(v) => if v > 0x10ffff {
                SR::Fail(p, Msg::UnicodeRange)
            } else {
                SR::Parsed(e + 1, e)
            },
            CharKind::Invalid => SR::Fail(p, Msg::InvalidChar),
        }
    }
}

pub fn hex_digit_exec(c: char) -> (r: u32)
    requires
        is_digit(c, 16),
    ensures
        r == hex_digit_val(c),
        r < 16,
{
    if '0' <= c && c <= '9' {
        (c as u32) - ('0' as u32)
    } else if 'a' <= c && c <= 'f' {
        (c as u32) - ('a' as u32) + 10
    } else {
        (c as u32) - ('A' as u32) + 10
    }
}

/// The value of the hexadecimal digits `s[a..b]`, at most six of them.
pub fn hex_val_exec(s: &Vec<char>, a: usize, b: usize) -> (r: u32)
    requires
        a <= b <= s.len(),
        b - a <= 6,
        forall|j: int| a <= j < b ==> is_digit(#[trigger] s@[j], 16),
    ensures
        r == hex_val(s@.subrange(a as int, b as int)),
{
    let mut v: u32 = 0;
    let mut i = a;
    while i < b
        invariant
            a <= i <= b <= s.len(),
            b - a <= 6,
            forall|j: int| a <= j < b ==> is_digit(#[trigger] s@[j], 16),
            v == hex_val(s@.subrange(a as int, i as int)),
            v < pow16(i - a),
        decreases b - i,
    {
        let d = hex_digit_exec(s[i]);
        proof {
            let t = s@.subrange(a as int, i + 1);
            assert(t.drop_last() =~= s@.subrange(a as int, i as int));
            assert(t.last() == s@[i as int]);
            lemma_pow16_bound((i - a) as nat);
        }
        v = v * 16 + d;
        i = i + 1;
    }
    v
}

pub open spec fn pow16(n: int) -> int
    decreases n,
{
    if n <= 0 {
        1
    } else {
        16 * pow16(n - 1)
    }
}

proof fn lemma_pow16_bound(n: nat)
    requires
        n <= 5,
    ensures
        pow16(n as int) <= 0x100000,
        pow16(n as int + 1) == 16 * pow16(n as int),
{
    reveal_with_fuel(pow16, 7);
}

pub fn char_lit_exec(s: &Vec<char>, p: usize) -> (r: Result<(usize, usize), PErr>)
    requires
        p <= s.len(),
    ensures
        match r {
            Ok((i, e)) => char_lit(s@, p as int) == SR::Parsed(i as int, e as int) && i == e + 1 && p
                < e < s.len(),
            Err(x) => char_lit(s@, p as int) == err_sr::<int>(x) && x.pos <= s.len() && msg_ok(
                x.msg,
                s.len() as int,
            ) && (!x.fatal ==> x.msg == Msg::Plain),
        },
{
    if !has_char(s, p, '\'') {
        return Err(soft(p));
    }
    let a = p + 1;
    let e = body_end_exec(s, a, '\'');
    if !has_char(s, e, '\'') {
        return Err(soft(e));
    }
    if e == a {
        return Err(hard(p, Msg::EmptyCharLit));
    }
    let ghost c = s@.subrange(a as int, e as int);
    if e - a == 1 {
        return Ok((e + 1, e));
    }
    if s[a] != '\\' {
        return Err(hard(p, Msg::InvalidChar));
    }
    let c1 = s[a + 1];
    assert(c[1] == c1);
    if c1 == 'n' || c1 == 'r' || c1 == 't' || c1 == '\\' || c1 == '0' || c1 == '\'' || c1 == '"' {
        if e - a == 2 {
            return Ok((e + 1, e));
        }
        return Err(hard(p, Msg::InvalidChar));
    }
    if c1 == 'x' {
        if e - a == 4 && digit_exec(s[a + 2], 16) && digit_exec(s[a + 3], 16) {
            let v = hex_val_exec(s, a + 2, a + 4);
            assert(c.subrange(2, 4) =~= s@.subrange(a + 2, a + 4));
            if v > 0x7f {
                return Err(hard(p, Msg::AsciiRange));
            }
            return Ok((e + 1, e));
        }
        return Err(hard(p, Msg::InvalidChar));
    }
    if c1 == 'u' && e - a >= 3 && s[a + 2] == '{' {
        let h = run_exec(s, a + 3, &Class::Hex);
        let k = if h - (a + 3) > 6 {
            6
        } else {
            h - (a + 3)
        };
        proof {
            lemma_run_sub(s@, a as int, e as int, 3, Class::Hex);
            lemma_run(s@, a + 3, Class::Hex);
        }
        assert(k == hex_count(c));
        if k >= 1 && e - a == 4 + k && s[a + 3 + k] == '}' {
            let v = hex_val_exec(s, a + 3, a + 3 + k);
            assert(c.subrange(3, 3 + k) =~= s@.subrange(a + 3, a + 3 + k));
            if v > 0x10ffff {
                return Err(hard(p, Msg::UnicodeRange));
            }
            return Ok((e + 1, e));
        }
        return Err(hard(p, Msg::InvalidChar));
    }
    Err(hard(p, Msg::InvalidChar))
}

/// A run inside a subrange ends where the run in the whole sequence ends,
/// capped by the subrange's end.
pub proof fn lemma_run_sub(s: Seq<char>, a: int, e: int, k: int, cl: Class)
    requires
        0 <= a <= e <= s.len(),
        0 <= k <= e - a,
    ensures
        run(s.subrange(a, e), k, cl) == (if run(s, a + k, cl) < e {
            run(s, a + k, cl)
        } else {
            e
        }) - a,
    decreases e - a - k,
{
    let t = s.subrange(a, e);
    if k < e - a {
        assert(t[k] == s[a + k]);
        if in_class(s[a + k], cl) {
            lemma_run_sub(s, a, e, k + 1, cl);
            assert(run(t, k, cl) == run(t, k + 1, cl));
            assert(run(s, a + k, cl) == run(s, a + k + 1, cl));
        } else {
            assert(run(t, k, cl) == k);
            assert(run(s, a + k, cl) == a + k);
        }
    } else {
        lemma_run(s, e, cl);
        assert(run(t, k, cl) == k);
    }
}

// ---------------------------------------------------------------------------
// Paths and identifiers in expressions.
// ---------------------------------------------------------------------------

/// What the first character's `char::is_lowercase` returns.
pub uninterp spec fn char_lowercase(c: char) -> bool;

/// `char::is_lowercase`: whether `c` has the Unicode `Lowercase` property.
/// Stated: the result is the named property of `c`; among ASCII
/// characters exactly `a` to `z` have it.
#[verifier::external_body]
pub(crate) fn char_is_lowercase(c: char) -> (r: bool)
    ensures
        r == char_lowercase(c),
        c < '\u{80}' ==> (r <==> ('a' <= c && c <= 'z')),
{
    c.is_lowercase()
}

/// A `::`-separated path or a plain identifier.
pub enum Poi {
    Path(Seq<Seq<char>>),
    Ident(Seq<char>),
}

/// The `:: ident` segments after position `i`, appended to `acc`.
pub open spec fn path_tail(s: Seq<char>, i: int, acc: Seq<Seq<char>>) -> (Seq<Seq<char>>, int)
    decreases s.len() - i,
{
    let q = skip_ws(s, i);
    let q2 = skip_ws(s, q + 2);
    if 0 <= i <= s.len() && tag_at(s, q, seq![':', ':']) && ident(s, q2) is Some {
        let e = ident(s, q2)->0;
        proof {
            lemma_skip_ws(s, i);
            lemma_skip_ws(s, q + 2);
            lemma_ident(s, q2);
        }
        path_tail(s, e, acc.push(s.subrange(q2, e)))
    } else {
        (acc, i)
    }
}

/// `path_or_identifier` at `p`: optional leading `::`, an identifier, more
/// `::`-separated identifiers.  A single identifier whose first character is
/// lowercase is a plain identifier; anything else is a path, with an empty
/// first segment when it starts with `::`.
pub open spec fn poi(s: Seq<char>, p: int) -> Option<(int, Poi)> {
    let q0 = skip_ws(s, p);
    let root = tag_at(s, q0, seq![':', ':']);
    let q1 = if root {
        q0 + 2
    } else {
        q0
    };
    let q2 = skip_ws(s, q1);
    match ident(s, q2) {
        None => None,
        Some(e) => {
            let name = s.subrange(q2, e);
            let (rest, end) = path_tail(s, e, seq![]);
            if root {
                Some((end, Poi::Path(seq![seq![], name] + rest)))
            } else if rest.len() == 0 && char_lowercase(name[0]) {
                Some((end, Poi::Ident(name)))
            } else {
                Some((end, Poi::Path(seq![name] + rest)))
            }
        },
    }
}

/// Executable result of `poi`: the end, whether it is a path, and the
/// segments (one segment for a plain identifier).
pub fn poi_exec(s: &Vec<char>, p: usize) -> (r: Option<(usize, bool, Vec<String>)>)
    requires
        p <= s.len(),
    ensures
        match r {
            Some((e, is_path, v)) => p < e <= s.len() && poi(s@, p as int) == Some(
                (
                    e as int,
                    if is_path {
                        Poi::Path(strs_m(v@))
                    } else {
                        Poi::Ident(v@[0]@)
                    },
                ),
            ) && (!is_path ==> v@.len() == 1),
            None => poi(s@, p as int) is None,
        },
{
    let q0 = skip_ws_exec(s, p);
    let root = has_tag(s, q0, &[':', ':']);
    let q1 = if root {
        q0 + 2
    } else {
        q0
    };
    let q2 = skip_ws_exec(s, q1);
    let e = match ident_exec(s, q2) {
        None => {
            return None;
        },
        Some(e) => e,
    };
    let name = sub_string(s, q2, e);
    let mut parts: Vec<String> = Vec::new();
    if root {
        parts.push(String::new());
    }
    parts.push(name);
    let ghost first: Seq<Seq<char>> = if root {
        seq![seq![], s@.subrange(q2 as int, e as int)]
    } else {
        seq![s@.subrange(q2 as int, e as int)]
    };
    assert(strs_m(parts@) =~= first);
    let mut i = e;
    let mut n_rest: usize = 0;
    let ghost acc: Seq<Seq<char>> = seq![];
    loop
        invariant
            q2 < e <= i <= s.len(),
            path_tail(s@, i as int, acc) == path_tail(s@, e as int, seq![]),
            strs_m(parts@) == first + acc,
            n_rest == acc.len(),
            n_rest <= i - e,
        ensures
            q2 < e <= i <= s.len(),
            path_tail(s@, i as int, acc) == path_tail(s@, e as int, seq![]),
            path_tail(s@, i as int, acc) == (acc, i as int),
            strs_m(parts@) == first + acc,
            n_rest == acc.len(),
        decreases s.len() - i,
    {
        let q = skip_ws_exec(s, i);
        if !has_tag(s, q, &[':', ':']) {
            break;
        }
        let q3 = skip_ws_exec(s, q + 2);
        match ident_exec(s, q3) {
            None => {
                break;
            },
            Some(e2) => {
                let seg = sub_string(s, q3, e2);
                let ghost old_parts = parts@;
                proof {
                    acc = acc.push(s@.subrange(q3 as int, e2 as int));
                }
                parts.push(seg);
                assert(parts@ == old_parts.push(seg));
                assert(strs_m(parts@) =~= strs_m(old_parts).push(seg@));
                assert(strs_m(parts@) =~= first + acc);
                n_rest = n_rest + 1;
                i = e2;
            },
        }
    }
    if root {
        Some((i, true, parts))
    } else if n_rest == 0 {
        let lower = char_is_lowercase(s[q2]);
        assert(s@.subrange(q2 as int, e as int)[0] == s@[q2 as int]);
        if lower {
            assert(first + acc =~= first);
            assert(strs_m(parts@)[0] == parts@[0]@);
            assert(parts@[0]@ == s@.subrange(q2 as int, e as int));
            Some((i, false, parts))
        } else {
            Some((i, true, parts))
        }
    } else {
        Some((i, true, parts))
    }
}

// ---------------------------------------------------------------------------
// Rust macro arguments.
// ---------------------------------------------------------------------------

/// Scans macro arguments from `k` for the `)` that closes the call,
/// skipping parentheses inside string literals.  `a` is where the scan
/// began; the result is the position of the closing `)` (or `a` when the
/// input ends with the parentheses balanced), `None` when unbalanced.
pub open spec fn paren_scan(s: Seq<char>, a: int, k: int, nested: int, in_str: bool, escaped: bool) -> Option<int>
    decreases s.len() - k,
{
    if k < 0 || k >= s.len() {
        if nested == 0 {
            Some(a)
        } else {
            None
        }
    } else {
        let c = s[k];
        let consider = !(c == '(' || c == ')') || !in_str;
        if consider && c == ')' && nested == 0 {
            Some(k)
        } else {
            let nested2 = if consider && c == '(' {
                nested + 1
            } else if consider && c == ')' {
                nested - 1
            } else {
                nested
            };
            let in_str2 = if consider && c == '"' {
                if in_str {
                    escaped
                } else {
                    true
                }
            } else {
                in_str
            };
            let esc2 = if consider && c == '\\' {
                !escaped
            } else {
                escaped
            };
            let esc3 = if esc2 && c != '\\' {
                false
            } else {
                esc2
            };
            paren_scan(s, a, k + 1, nested2, in_str2, esc3)
        }
    }
}

pub fn paren_scan_exec(s: &Vec<char>, a: usize) -> (r: Option<usize>)
    requires
        a <= s.len(),
    ensures
        r matches Some(e) ==> paren_scan(s@, a as int, a as int, 0, false, false) == Some(e as int)
            && a <= e <= s.len(),
        r is None ==> paren_scan(s@, a as int, a as int, 0, false, false) is None,
{
    let mut k = a;
    let mut nested: usize = 0;
    let mut in_str = false;
    let mut escaped = false;
    while k < s.len()
        invariant
            a <= k <= s.len(),
            nested <= k - a,
            paren_scan(s@, a as int, k as int, nested as int, in_str, escaped) == paren_scan(
                s@,
                a as int,
                a as int,
                0,
                false,
                false,
            ),
        decreases s.len() - k,
    {
        let c = s[k];
        let consider = !(c == '(' || c == ')') || !in_str;
        if consider && c == ')' && nested == 0 {
            return Some(k);
        }
        if consider && c == '(' {
            nested = nested + 1;
        } else if consider && c == ')' {
            nested = nested - 1;
        }
        if consider && c == '"' {
            if in_str {
                in_str = escaped;
            } else {
                in_str = true;
            }
        }
        if consider && c == '\\' {
            escaped = !escaped;
        }
        if escaped && c != '\\' {
            escaped = false;
        }
        k = k + 1;
    }
    if nested == 0 {
        Some(a)
    } else {
        None
    }
}

} // verus!
