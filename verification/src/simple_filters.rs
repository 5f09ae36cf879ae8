//! Filters on plain strings that return the rewritten string directly:
//! escaping of `<`, `>` and `&`, case changes and trimming.

use vstd::prelude::*;
use crate::escape::flat_map_chars;
use crate::filters::{all_ascii, ascii_lower, ascii_upper, lowercase_of, trim_chars, trim_uws, uppercase_of};
use crate::text::{chars_to_string, extend_chars, str_to_chars};

verus! {

/// The replacement of one character: `<`, `>` and `&` become entities.
pub open spec fn markup_char(c: char) -> Seq<char> {
    if c == '<' {
        seq!['&', 'l', 't', ';']
    } else if c == '>' {
        seq!['&', 'g', 't', ';']
    } else if c == '&' {
        seq!['&', 'a', 'm', 'p', ';']
    } else {
        seq![c]
    }
}

pub open spec fn escape_markup(s: Seq<char>) -> Seq<char> {
    flat_map_chars(s, |c: char| markup_char(c))
}

/// Escapes `&`, `<` and `>`; every other character is kept.
pub fn escape(s: &str) -> (r: String)
    ensures
        r@ == escape_markup(s@),
{
    let c = str_to_chars(s);
    let mut out: Vec<char> = Vec::new();
    let mut i: usize = 0;
    while i < c.len()
        invariant
            i <= c@.len(),
            c@ == s@,
            out@ == escape_markup(c@.subrange(0, i as int)),
        decreases c.len() - i,
    {
        let ch = c[i];
        if ch == '<' {
            extend_chars(&mut out, &['&', 'l', 't', ';']);
        } else if ch == '>' {
            extend_chars(&mut out, &['&', 'g', 't', ';']);
        } else if ch == '&' {
            extend_chars(&mut out, &['&', 'a', 'm', 'p', ';']);
        } else {
            out.push(ch);
        }
        proof {
            let t = c@.subrange(0, i + 1);
            assert(t.drop_last() =~= c@.subrange(0, i as int));
            assert(t.last() == ch);
            assert(out@ =~= escape_markup(c@.subrange(0, i as int)) + markup_char(ch));
        }
        i = i + 1;
    }
    assert(c@.subrange(0, c@.len() as int) =~= c@);
    chars_to_string(out.as_slice())
}

/// Alias for `escape`.
pub fn e(s: &str) -> (r: String)
    ensures
        r@ == escape_markup(s@),
{
    escape(s)
}

/// Formats its arguments with a leading format string; the code generator
/// expands the call, so the function itself does nothing.
pub fn format() {
}

/// Converts to lowercase.
pub fn lower(s: &str) -> (r: String)
    ensures
        r@ == lowercase_of(s@),
        all_ascii(s@) ==> r@ == s@.map_values(|c: char| ascii_lower(c)),
{
    crate::filters::str_to_lowercase(s)
}

/// Alias for `lower`.
pub fn lowercase(s: &str) -> (r: String)
    ensures
        r@ == lowercase_of(s@),
        all_ascii(s@) ==> r@ == s@.map_values(|c: char| ascii_lower(c)),
{
    lower(s)
}

/// Converts to uppercase.
pub fn upper(s: &str) -> (r: String)
    ensures
        r@ == uppercase_of(s@),
        all_ascii(s@) ==> r@ == s@.map_values(|c: char| ascii_upper(c)),
{
    crate::filters::str_to_uppercase(s)
}

/// Alias for `upper`.
pub fn uppercase(s: &str) -> (r: String)
    ensures
        r@ == uppercase_of(s@),
        all_ascii(s@) ==> r@ == s@.map_values(|c: char| ascii_upper(c)),
{
    upper(s)
}

/// Strips leading and trailing whitespace.
pub fn trim(s: &str) -> (r: String)
    ensures
        r@ == trim_uws(s@),
{
    let c = str_to_chars(s);
    let t = trim_chars(&c);
    chars_to_string(t.as_slice())
}

} // verus!
