//! Escapers for HTML, plain text and LaTeX output, and the wrappers that mark
//! a rendered value as safe or in need of escaping.

use vstd::prelude::*;
use crate::text::{chars_to_string, extend_chars, str_to_chars, string_push_str};

verus! {

/// Applies a per-character replacement to every character of `s`, in order.
pub open spec fn flat_map_chars(s: Seq<char>, f: spec_fn(char) -> Seq<char>) -> Seq<char>
    decreases s.len(),
{
    if s.len() == 0 {
        seq![]
    } else {
        flat_map_chars(s.drop_last(), f) + f(s.last())
    }
}

/// `flat_map_chars` distributes over concatenation.
pub proof fn lemma_flat_map_concat(a: Seq<char>, b: Seq<char>, f: spec_fn(char) -> Seq<char>)
    ensures
        flat_map_chars(a + b, f) == flat_map_chars(a, f) + flat_map_chars(b, f),
    decreases b.len(),
{
    if b.len() == 0 {
        assert(a + b =~= a);
    } else {
        lemma_flat_map_concat(a, b.drop_last(), f);
        assert((a + b).drop_last() =~= a + b.drop_last());
        assert((a + b).last() == b.last());
    }
}

/// The HTML replacement of one character: `<`, `>`, `&`, `"`, `'`, `\` and
/// `/` become entities, every other character stays.
pub open spec fn html_escape_char(c: char) -> Seq<char> {
    if c == '<' {
        seq!['&', 'l', 't', ';']
    } else if c == '>' {
        seq!['&', 'g', 't', ';']
    } else if c == '&' {
        seq!['&', 'a', 'm', 'p', ';']
    } else if c == '"' {
        seq!['&', 'q', 'u', 'o', 't', ';']
    } else if c == '\'' {
        seq!['&', '#', 'x', '2', '7', ';']
    } else if c == '\\' {
        seq!['&', '#', 'x', '5', 'c', ';']
    } else if c == '/' {
        seq!['&', '#', 'x', '2', 'f', ';']
    } else {
        seq![c]
    }
}

/// The LaTeX replacement of one character.
pub open spec fn latex_escape_char(c: char) -> Seq<char> {
    if (c as u32) <= 0x1f || c == '\u{7f}' {
        seq![' ']
    } else if c == '"' {
        seq!['{', '\\', 't', 'e', 'x', 't', 'q', 'u', 'o', 't', 'e', 'd', 'b', 'l', '}']
    } else if c == '#' {
        seq!['{', '\\', 'c', 'h', 'a', 'r', '3', '5', '}']
    } else if c == '$' {
        seq!['{', '\\', 't', 'e', 'x', 't', 'd', 'o', 'l', 'l', 'a', 'r', '}']
    } else if c == '%' {
        seq!['{', '\\', 'c', 'h', 'a', 'r', '3', '7', '}']
    } else if c == '&' {
        seq!['{', '\\', 'c', 'h', 'a', 'r', '3', '8', '}']
    } else if c == '\'' {
        seq!['{', '\\', 't', 'e', 'x', 't', 'q', 'u', 'o', 't', 'e', 's', 'i', 'n', 'g', 'l', 'e', '}']
    } else if c == ',' {
        seq!['{', '\\', 'c', 'h', 'a', 'r', '4', '4', '}']
    } else if c == '-' {
        seq!['{', '\\', 'c', 'h', 'a', 'r', '4', '5', '}']
    } else if c == '<' {
        seq!['{', '\\', 't', 'e', 'x', 't', 'l', 'e', 's', 's', '}']
    } else if c == '>' {
        seq!['{', '\\', 't', 'e', 'x', 't', 'g', 'r', 'e', 'a', 't', 'e', 'r', '}']
    } else if c == '[' {
        seq!['{', '\\', 'c', 'h', 'a', 'r', '9', '1', '}']
    } else if c == '\\' {
        seq!['{', '\\', 't', 'e', 'x', 't', 'b', 'a', 'c', 'k', 's', 'l', 'a', 's', 'h', '}']
    } else if c == ']' {
        seq!['{', '\\', 'c', 'h', 'a', 'r', '9', '3', '}']
    } else if c == '^' {
        seq!['{', '\\', 't', 'e', 'x', 't', 'a', 's', 'c', 'i', 'i', 'c', 'i', 'r', 'c', 'u', 'm', '}']
    } else if c == '_' {
        seq!['{', '\\', 'c', 'h', 'a', 'r', '9', '5', '}']
    } else if c == '`' {
        seq!['{', '\\', 'c', 'h', 'a', 'r', '9', '6', '}']
    } else if c == '{' {
        seq!['{', '\\', 'c', 'h', 'a', 'r', '1', '2', '3', '}']
    } else if c == '|' {
        seq!['{', '\\', 't', 'e', 'x', 't', 'b', 'a', 'r', '}']
    } else if c == '}' {
        seq!['{', '\\', 'c', 'h', 'a', 'r', '1', '2', '5', '}']
    } else if c == '~' {
        seq!['{', '\\', 't', 'e', 'x', 't', 'a', 's', 'c', 'i', 'i', 't', 'i', 'l', 'd', 'e', '}']
    } else {
        seq![c]
    }
}

pub open spec fn html_escape(s: Seq<char>) -> Seq<char> {
    flat_map_chars(s, |c: char| html_escape_char(c))
}

pub open spec fn latex_escape(s: Seq<char>) -> Seq<char> {
    flat_map_chars(s, |c: char| latex_escape_char(c))
}

/// The HTML replacement of `c`, as characters.
fn html_replacement(c: char) -> (r: Vec<char>)
    ensures
        r@ == html_escape_char(c),
{
    if c == '<' {
        vec!['&', 'l', 't', ';']
    } else if c == '>' {
        vec!['&', 'g', 't', ';']
    } else if c == '&' {
        vec!['&', 'a', 'm', 'p', ';']
    } else if c == '"' {
        vec!['&', 'q', 'u', 'o', 't', ';']
    } else if c == '\'' {
        vec!['&', '#', 'x', '2', '7', ';']
    } else if c == '\\' {
        vec!['&', '#', 'x', '5', 'c', ';']
    } else if c == '/' {
        vec!['&', '#', 'x', '2', 'f', ';']
    } else {
        vec![c]
    }
}

/// The LaTeX replacement of `c`, as characters.
fn latex_replacement(c: char) -> (r: Vec<char>)
    ensures
        r@ == latex_escape_char(c),
{
    if (c as u32) <= 0x1f || c == '\u{7f}' {
        vec![' ']
    } else if c == '"' {
        vec!['{', '\\', 't', 'e', 'x', 't', 'q', 'u', 'o', 't', 'e', 'd', 'b', 'l', '}']
    } else if c == '#' {
        vec!['{', '\\', 'c', 'h', 'a', 'r', '3', '5', '}']
    } else if c == '$' {
        vec!['{', '\\', 't', 'e', 'x', 't', 'd', 'o', 'l', 'l', 'a', 'r', '}']
    } else if c == '%' {
        vec!['{', '\\', 'c', 'h', 'a', 'r', '3', '7', '}']
    } else if c == '&' {
        vec!['{', '\\', 'c', 'h', 'a', 'r', '3', '8', '}']
    } else if c == '\'' {
        vec!['{', '\\', 't', 'e', 'x', 't', 'q', 'u', 'o', 't', 'e', 's', 'i', 'n', 'g', 'l', 'e', '}']
    } else if c == ',' {
        vec!['{', '\\', 'c', 'h', 'a', 'r', '4', '4', '}']
    } else if c == '-' {
        vec!['{', '\\', 'c', 'h', 'a', 'r', '4', '5', '}']
    } else if c == '<' {
        vec!['{', '\\', 't', 'e', 'x', 't', 'l', 'e', 's', 's', '}']
    } else if c == '>' {
        vec!['{', '\\', 't', 'e', 'x', 't', 'g', 'r', 'e', 'a', 't', 'e', 'r', '}']
    } else if c == '[' {
        vec!['{', '\\', 'c', 'h', 'a', 'r', '9', '1', '}']
    } else if c == '\\' {
        vec!['{', '\\', 't', 'e', 'x', 't', 'b', 'a', 'c', 'k', 's', 'l', 'a', 's', 'h', '}']
    } else if c == ']' {
        vec!['{', '\\', 'c', 'h', 'a', 'r', '9', '3', '}']
    } else if c == '^' {
        vec!['{', '\\', 't', 'e', 'x', 't', 'a', 's', 'c', 'i', 'i', 'c', 'i', 'r', 'c', 'u', 'm', '}']
    } else if c == '_' {
        vec!['{', '\\', 'c', 'h', 'a', 'r', '9', '5', '}']
    } else if c == '`' {
        vec!['{', '\\', 'c', 'h', 'a', 'r', '9', '6', '}']
    } else if c == '{' {
        vec!['{', '\\', 'c', 'h', 'a', 'r', '1', '2', '3', '}']
    } else if c == '|' {
        vec!['{', '\\', 't', 'e', 'x', 't', 'b', 'a', 'r', '}']
    } else if c == '}' {
        vec!['{', '\\', 'c', 'h', 'a', 'r', '1', '2', '5', '}']
    } else if c == '~' {
        vec!['{', '\\', 't', 'e', 'x', 't', 'a', 's', 'c', 'i', 'i', 't', 'i', 'l', 'd', 'e', '}']
    } else {
        vec![c]
    }
}

/// HTML-escapes the characters of `s`.
pub fn html_escape_chars(s: &[char]) -> (r: Vec<char>)
    ensures
        r@ == html_escape(s@),
{
    let mut out: Vec<char> = Vec::new();
    let mut i: usize = 0;
    while i < s.len()
        invariant
            i <= s.len(),
            out@ == html_escape(s@.subrange(0, i as int)),
        decreases s.len() - i,
    {
        let rep = html_replacement(s[i]);
        extend_chars(&mut out, rep.as_slice());
        i = i + 1;
        assert(s@.subrange(0, i as int).drop_last() =~= s@.subrange(0, i - 1));
    }
    assert(s@.subrange(0, s.len() as int) =~= s@);
    out
}

/// LaTeX-escapes the characters of `s`.
pub fn latex_escape_chars(s: &[char]) -> (r: Vec<char>)
    ensures
        r@ == latex_escape(s@),
{
    let mut out: Vec<char> = Vec::new();
    let mut i: usize = 0;
    while i < s.len()
        invariant
            i <= s.len(),
            out@ == latex_escape(s@.subrange(0, i as int)),
        decreases s.len() - i,
    {
        let rep = latex_replacement(s[i]);
        extend_chars(&mut out, rep.as_slice());
        i = i + 1;
        assert(s@.subrange(0, i as int).drop_last() =~= s@.subrange(0, i - 1));
    }
    assert(s@.subrange(0, s.len() as int) =~= s@);
    out
}

/// An escaping mode: how a string is rewritten before it is written out.
pub trait Escaper {
    /// The escaped form of `s`.
    spec fn escape_spec(&self, s: Seq<char>) -> Seq<char>;

    /// Appends the escaped form of `string` to `out`.
    fn write_escaped(&self, out: &mut String, string: &str)
        ensures
            final(out)@ == old(out)@ + self.escape_spec(string@),
    ;
}

/// HTML escaping of `<`, `>`, `&`, `"`, `'`, `\` and `/`, as the
/// documentation of the template engine promises.
#[derive(Clone, Copy, Debug)]
pub struct Html;

/// No escaping at all.
#[derive(Clone, Copy, Debug)]
pub struct Text;

/// LaTeX escaping of the characters LaTeX treats specially; control
/// characters become spaces.
#[derive(Clone, Copy, Debug)]
pub struct Latex;

impl Escaper for Html {
    open spec fn escape_spec(&self, s: Seq<char>) -> Seq<char> {
        html_escape(s)
    }

    fn write_escaped(&self, out: &mut String, string: &str) {
        let chars = str_to_chars(string);
        let escaped = html_escape_chars(chars.as_slice());
        let t = chars_to_string(escaped.as_slice());
        string_push_str(out, t.as_str());
    }
}

impl Escaper for Text {
    open spec fn escape_spec(&self, s: Seq<char>) -> Seq<char> {
        s
    }

    fn write_escaped(&self, out: &mut String, string: &str) {
        string_push_str(out, string);
    }
}

impl Escaper for Latex {
    open spec fn escape_spec(&self, s: Seq<char>) -> Seq<char> {
        latex_escape(s)
    }

    fn write_escaped(&self, out: &mut String, string: &str) {
        let chars = str_to_chars(string);
        let escaped = latex_escape_chars(chars.as_slice());
        let t = chars_to_string(escaped.as_slice());
        string_push_str(out, t.as_str());
    }
}

/// A value to be written out, either as it is or through an escaper.
#[derive(Clone, Debug, PartialEq, Eq)]
pub enum DisplayValue {
    /// Written out unchanged.
    Safe(String),
    /// Written out through the escaper.
    Unsafe(String),
}

/// A value paired with the escaper that renders it.
#[derive(Debug)]
pub struct MarkupDisplay<E: Escaper> {
    pub value: DisplayValue,
    pub escaper: E,
}

impl<E: Escaper> MarkupDisplay<E> {
    /// A value that is escaped when rendered.
    pub fn new_unsafe(value: String, escaper: E) -> (r: Self)
        ensures
            r.value == DisplayValue::Unsafe(value),
            r.escaper == escaper,
    {
        MarkupDisplay { value: DisplayValue::Unsafe(value), escaper }
    }

    /// A value that is rendered unchanged.
    pub fn new_safe(value: String, escaper: E) -> (r: Self)
        ensures
            r.value == DisplayValue::Safe(value),
            r.escaper == escaper,
    {
        MarkupDisplay { value: DisplayValue::Safe(value), escaper }
    }

    /// The same value, now rendered unchanged.
    pub fn mark_safe(self) -> (r: Self)
        ensures
            r.escaper == self.escaper,
            r.value == (match self.value {
                DisplayValue::Unsafe(t) => DisplayValue::Safe(t),
                DisplayValue::Safe(t) => DisplayValue::Safe(t),
            }),
    {
        let MarkupDisplay { value, escaper } = self;
        let value = match value {
            DisplayValue::Unsafe(t) => DisplayValue::Safe(t),
            DisplayValue::Safe(t) => DisplayValue::Safe(t),
        };
        MarkupDisplay { value, escaper }
    }

    /// The rendered text: the escaped value when unsafe, the value itself when safe.
    pub fn render(&self) -> (r: String)
        ensures
            r@ == (match self.value {
                DisplayValue::Unsafe(t) => self.escaper.escape_spec(t@),
                DisplayValue::Safe(t) => t@,
            }),
    {
        let mut out = String::new();
        match &self.value {
            DisplayValue::Unsafe(t) => self.escaper.write_escaped(&mut out, t.as_str()),
            DisplayValue::Safe(t) => string_push_str(&mut out, t.as_str()),
        }
        out
    }
}

/// A string slice that renders escaped.
pub struct Escaped<'a, E: Escaper> {
    pub string: &'a str,
    pub escaper: E,
}

impl<'a, E: Escaper> Escaped<'a, E> {
    /// The escaped text.
    pub fn render(&self) -> (r: String)
        ensures
            r@ == self.escaper.escape_spec(self.string@),
    {
        let mut out = String::new();
        self.escaper.write_escaped(&mut out, self.string);
        out
    }
}

/// Pairs `string` with `escaper`.
pub fn escape<'a, E: Escaper>(string: &'a str, escaper: E) -> (r: Escaped<'a, E>)
    ensures
        r.string == string,
        r.escaper == escaper,
{
    Escaped { string, escaper }
}

/// A writer that escapes everything written to it before appending it to its output.
pub struct EscapeWriter<'a, E: Escaper> {
    pub fmt: String,
    pub escaper: &'a E,
}

impl<'a, E: Escaper> EscapeWriter<'a, E> {
    /// A writer with empty output.
    pub fn new(escaper: &'a E) -> (r: Self)
        ensures
            r.fmt@ == Seq::<char>::empty(),
            r.escaper == escaper,
    {
        EscapeWriter { fmt: String::new(), escaper }
    }

    /// Appends the escaped form of `s` to the output.
    pub fn write_str(&mut self, s: &str)
        ensures
            final(self).fmt@ == old(self).fmt@ + old(self).escaper.escape_spec(s@),
            final(self).escaper == old(self).escaper,
    {
        self.escaper.write_escaped(&mut self.fmt, s);
    }
}

/// The JSON replacement of one byte: `&`, `'`, `<` and `>` become `\u00XX` escapes.
pub open spec fn json_escape_byte(b: u8) -> Seq<u8> {
    if b == 0x26 {
        seq![0x5cu8, 0x75, 0x30, 0x30, 0x32, 0x36]
    } else if b == 0x27 {
        seq![0x5cu8, 0x75, 0x30, 0x30, 0x32, 0x37]
    } else if b == 0x3c {
        seq![0x5cu8, 0x75, 0x30, 0x30, 0x33, 0x63]
    } else if b == 0x3e {
        seq![0x5cu8, 0x75, 0x30, 0x30, 0x33, 0x65]
    } else {
        seq![b]
    }
}

/// The JSON-escaped form of `s`.
pub open spec fn json_escape(s: Seq<u8>) -> Seq<u8>
    decreases s.len(),
{
    if s.len() == 0 {
        seq![]
    } else {
        json_escape(s.drop_last()) + json_escape_byte(s.last())
    }
}

/// A byte buffer that escapes `&`, `'`, `<` and `>` in everything written to it.
#[derive(Debug, Clone, Default)]
pub struct JsonEscapeBuffer(pub Vec<u8>);

impl View for JsonEscapeBuffer {
    type V = Seq<u8>;

    open spec fn view(&self) -> Seq<u8> {
        self.0@
    }
}

/// The string whose UTF-8 encoding is `v`.
#[verifier::external_body]
pub(crate) fn string_from_utf8(v: Vec<u8>) -> (r: String)
    requires
        vstd::utf8::valid_utf8(v@),
    ensures
        r@ == vstd::utf8::decode_utf8(v@),
{
    String::from_utf8(v).unwrap()
}

impl JsonEscapeBuffer {
    /// An empty buffer.
    pub fn new() -> (r: Self)
        ensures
            r@ == Seq::<u8>::empty(),
    {
        JsonEscapeBuffer(Vec::new())
    }

    /// Appends the escaped form of `bytes`; returns the number of bytes taken.
    pub fn write(&mut self, bytes: &[u8]) -> (r: usize)
        ensures
            final(self)@ == old(self)@ + json_escape(bytes@),
            r == bytes@.len(),
    {
        let mut i: usize = 0;
        while i < bytes.len()
            invariant
                i <= bytes.len(),
                self@ == old(self)@ + json_escape(bytes@.subrange(0, i as int)),
            decreases bytes.len() - i,
        {
            let b = bytes[i];
            let ghost before = self@;
            if b == 0x26 {
                self.0.push(0x5c); self.0.push(0x75); self.0.push(0x30); self.0.push(0x30); self.0.push(0x32); self.0.push(0x36);
            } else if b == 0x27 {
                self.0.push(0x5c); self.0.push(0x75); self.0.push(0x30); self.0.push(0x30); self.0.push(0x32); self.0.push(0x37);
            } else if b == 0x3c {
                self.0.push(0x5c); self.0.push(0x75); self.0.push(0x30); self.0.push(0x30); self.0.push(0x33); self.0.push(0x63);
            } else if b == 0x3e {
                self.0.push(0x5c); self.0.push(0x75); self.0.push(0x30); self.0.push(0x30); self.0.push(0x33); self.0.push(0x65);
            } else {
                self.0.push(b);
            }
            assert(self@ =~= before + json_escape_byte(b));
            i = i + 1;
            assert(bytes@.subrange(0, i as int).drop_last() =~= bytes@.subrange(0, i - 1));
        }
        assert(bytes@.subrange(0, bytes.len() as int) =~= bytes@);
        bytes.len()
    }

    /// The buffer's contents as a string.
    pub fn finish(self) -> (r: String)
        requires
            vstd::utf8::valid_utf8(self@),
        ensures
            r@ == vstd::utf8::decode_utf8(self@),
    {
        string_from_utf8(self.0)
    }
}

} // verus!
