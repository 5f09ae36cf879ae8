//! The built-in template filters: escaping, URL encoding, line and
//! paragraph breaks, case changes, trimming, truncation, indentation,
//! joining, centering, word counts and title case.

use vstd::prelude::*;
use vstd::string::StringSliceAdditionalSpecFns;
use std::convert::Infallible;
use crate::escape::{DisplayValue, Escaper, MarkupDisplay};
use crate::lex::tag_at;
use crate::text::{chars_to_string, spec_is_whitespace, is_whitespace, str_to_chars, string_push_str, extend_chars};

verus! {

/// Width at or above which `indent` and `center` leave their input unchanged.
pub const MAX_LEN: usize = 10000;

// ---------------------------------------------------------------------------
// Unicode case mappings.
// ---------------------------------------------------------------------------

/// What `str::to_lowercase` returns for a string.
pub uninterp spec fn lowercase_of(s: Seq<char>) -> Seq<char>;

/// What `str::to_uppercase` returns for a string.
pub uninterp spec fn uppercase_of(s: Seq<char>) -> Seq<char>;

/// What `char::to_uppercase` yields for a character.
pub uninterp spec fn char_upper(c: char) -> Seq<char>;

/// What `char::to_lowercase` yields for a character.
pub uninterp spec fn char_lower(c: char) -> Seq<char>;

/// What `char::is_uppercase` returns for a character.
pub uninterp spec fn char_uppercase(c: char) -> bool;

/// The ASCII case mappings.
pub open spec fn ascii_lower(c: char) -> char {
    if 'A' <= c && c <= 'Z' {
        ((c as u32) + 32) as char
    } else {
        c
    }
}

pub open spec fn ascii_upper(c: char) -> char {
    if 'a' <= c && c <= 'z' {
        ((c as u32) - 32) as char
    } else {
        c
    }
}

pub open spec fn all_ascii(s: Seq<char>) -> bool {
    forall|i: int| 0 <= i < s.len() ==> (s[i] as u32) < 0x80
}

/// `str::to_lowercase`: the Unicode lowercase mapping of `s`.  Stated:
/// the result is the named mapping of `s`, which for ASCII text is the
/// ASCII one; the full Unicode mapping is left unsaid.
#[verifier::external_body]
pub(crate) fn str_to_lowercase(s: &str) -> (r: String)
    ensures
        r@ == lowercase_of(s@),
        all_ascii(s@) ==> r@ == s@.map_values(|c: char| ascii_lower(c)),
{
    s.to_lowercase()
}

/// `str::to_uppercase`: the Unicode uppercase mapping of `s`.  Stated:
/// the result is the named mapping of `s`, which for ASCII text is the
/// ASCII one.
#[verifier::external_body]
pub(crate) fn str_to_uppercase(s: &str) -> (r: String)
    ensures
        r@ == uppercase_of(s@),
        all_ascii(s@) ==> r@ == s@.map_values(|c: char| ascii_upper(c)),
{
    s.to_uppercase()
}

/// `char::to_uppercase`, collected: the characters of the uppercase
/// mapping of `c`.  Stated: the result is the named mapping of `c`, and for
/// an ASCII character the ASCII uppercase (as the documentation of
/// `char::to_uppercase` and `to_ascii_uppercase` gives it).
#[verifier::external_body]
fn char_to_uppercase(c: char) -> (r: String)
    ensures
        r@ == char_upper(c),
        (c as u32) < 0x80 ==> r@ == seq![ascii_upper(c)],
{
    c.to_uppercase().collect()
}

/// `char::to_lowercase`, collected.  Stated: the result is the named
/// mapping of `c`, and for an ASCII character the ASCII lowercase.
#[verifier::external_body]
fn char_to_lowercase(c: char) -> (r: String)
    ensures
        r@ == char_lower(c),
        (c as u32) < 0x80 ==> r@ == seq![ascii_lower(c)],
{
    c.to_lowercase().collect()
}

/// `char::is_uppercase`: whether `c` has the Unicode `Uppercase` property.
/// Stated: the result is the named property of `c`; among ASCII
/// characters exactly `A` to `Z` have it.
#[verifier::external_body]
fn char_is_uppercase(c: char) -> (r: bool)
    ensures
        r == char_uppercase(c),
        c < '\u{80}' ==> (r <==> ('A' <= c && c <= 'Z')),
{
    c.is_uppercase()
}

// ---------------------------------------------------------------------------
// Replacing substrings.
// ---------------------------------------------------------------------------

/// `s` from `i` on with every occurrence of `pat` replaced by `rep`,
/// scanning left to right without overlaps.
pub open spec fn replace_from(s: Seq<char>, i: int, pat: Seq<char>, rep: Seq<char>) -> Seq<char>
    decreases s.len() - i,
{
    if i < 0 || i >= s.len() {
        seq![]
    } else if pat.len() > 0 && tag_at(s, i, pat) {
        rep + replace_from(s, i + pat.len(), pat, rep)
    } else {
        seq![s[i]] + replace_from(s, i + 1, pat, rep)
    }
}

pub open spec fn replace_all(s: Seq<char>, pat: Seq<char>, rep: Seq<char>) -> Seq<char> {
    replace_from(s, 0, pat, rep)
}

pub fn replace_chars(s: &Vec<char>, pat: &[char], rep: &[char]) -> (r: Vec<char>)
    requires
        pat@.len() > 0,
    ensures
        r@ == replace_all(s@, pat@, rep@),
{
    let mut out: Vec<char> = Vec::new();
    let mut i: usize = 0;
    while i < s.len()
        invariant
            i <= s.len(),
            pat@.len() > 0,
            out@ + replace_from(s@, i as int, pat@, rep@) == replace_all(s@, pat@, rep@),
        decreases s.len() - i,
    {
        let ghost old = out@;
        if crate::lex::has_tag(s, i, pat) {
            extend_chars(&mut out, rep);
            assert(old + replace_from(s@, i as int, pat@, rep@) =~= out@ + replace_from(
                s@,
                i + pat@.len(),
                pat@,
                rep@,
            ));
            i = i + pat.len();
        } else {
            out.push(s[i]);
            assert(old + replace_from(s@, i as int, pat@, rep@) =~= out@ + replace_from(
                s@,
                i + 1,
                pat@,
                rep@,
            ));
            i = i + 1;
        }
    }
    assert(out@ + replace_from(s@, i as int, pat@, rep@) =~= out@);
    out
}

// ---------------------------------------------------------------------------
// Escaping.
// ---------------------------------------------------------------------------

/// Marks a value as safe: it is rendered without escaping.
pub fn safe<E: Escaper>(escaper: E, v: &str) -> (r: Result<MarkupDisplay<E>, Infallible>)
    ensures
        r matches Ok(m) && m.escaper == escaper && (m.value matches DisplayValue::Safe(t) && t@ == v@),
{
    Ok(MarkupDisplay::new_safe(v.to_owned(), escaper))
}

/// Escapes a value with the given escaper when it is rendered.
pub fn escape<E: Escaper>(escaper: E, v: &str) -> (r: Result<MarkupDisplay<E>, Infallible>)
    ensures
        r matches Ok(m) && m.escaper == escaper && (m.value matches DisplayValue::Unsafe(t) && t@ == v@),
{
    Ok(MarkupDisplay::new_unsafe(v.to_owned(), escaper))
}

/// Alias for `escape`.
pub fn e<E: Escaper>(escaper: E, v: &str) -> (r: Result<MarkupDisplay<E>, Infallible>)
    ensures
        r matches Ok(m) && m.escaper == escaper && (m.value matches DisplayValue::Unsafe(t) && t@ == v@),
{
    escape(escaper, v)
}

/// Formats its arguments with a format string that follows the value; the
/// code generator expands the call, so the function itself does nothing.
pub fn fmt() {
}

/// Formats its arguments with a leading format string; the code generator
/// expands the call, so the function itself does nothing.
pub fn format() {
}

// ---------------------------------------------------------------------------
// URL encoding.
// ---------------------------------------------------------------------------

pub open spec fn hex_upper(d: u8) -> char {
    if d < 10 {
        ('0' as u8 + d) as char
    } else {
        ('A' as u8 + d - 10) as char
    }
}

/// `percent_encoding::percent_encode_byte`: `%` followed by the byte's two
/// uppercase hexadecimal digits (read off the crate's encoding table).
#[verifier::external_body]
fn percent_encode_byte(b: u8) -> (r: &'static str)
    ensures
        r@ == seq!['%', hex_upper(b / 16), hex_upper(b % 16)],
{
    percent_encoding::percent_encode_byte(b)
}

/// Bytes left as they are: ASCII letters, digits and `_ . - ~`, and `/`
/// unless `strict`.
pub open spec fn url_unreserved(b: u8, strict: bool) -> bool {
    (0x30 <= b <= 0x39) || (0x41 <= b <= 0x5a) || (0x61 <= b <= 0x7a) || b == 0x5f || b == 0x2e
        || b == 0x2d || b == 0x7e || (!strict && b == 0x2f)
}

pub open spec fn url_byte(b: u8, strict: bool) -> Seq<char> {
    if url_unreserved(b, strict) {
        seq![b as char]
    } else {
        seq!['%', hex_upper(b / 16), hex_upper(b % 16)]
    }
}

/// The percent-encoding of a byte sequence.
pub open spec fn url_encode(bytes: Seq<u8>, strict: bool) -> Seq<char>
    decreases bytes.len(),
{
    if bytes.len() == 0 {
        seq![]
    } else {
        url_encode(bytes.drop_last(), strict) + url_byte(bytes.last(), strict)
    }
}

fn url_encode_exec(s: &str, strict: bool) -> (r: String)
    ensures
        r@ == url_encode(s.spec_bytes(), strict),
{
    let bytes = s.as_bytes();
    let mut out = String::new();
    let mut i: usize = 0;
    while i < bytes.len()
        invariant
            i <= bytes@.len(),
            bytes@ == s.spec_bytes(),
            out@ == url_encode(bytes@.subrange(0, i as int), strict),
        decreases bytes.len() - i,
    {
        let b = bytes[i];
        let unreserved = (0x30 <= b && b <= 0x39) || (0x41 <= b && b <= 0x5a) || (0x61 <= b && b
            <= 0x7a) || b == 0x5f || b == 0x2e || b == 0x2d || b == 0x7e || (!strict && b == 0x2f);
        if unreserved {
            let c = chars_to_string(&[b as char]);
            string_push_str(&mut out, c.as_str());
        } else {
            string_push_str(&mut out, percent_encode_byte(b));
        }
        proof {
            assert(bytes@.subrange(0, i + 1).drop_last() =~= bytes@.subrange(0, i as int));
        }
        i = i + 1;
    }
    assert(bytes@.subrange(0, bytes@.len() as int) =~= bytes@);
    out
}

/// Percent-encodes the UTF-8 bytes of `s`, except ASCII letters, digits and
/// `_ . - ~ /`.
pub fn urlencode(s: &str) -> (r: Result<String, Infallible>)
    ensures
        r matches Ok(t) && t@ == url_encode(s.spec_bytes(), false),
{
    Ok(url_encode_exec(s, false))
}

/// Percent-encodes the UTF-8 bytes of `s`, except ASCII letters, digits and
/// `_ . - ~`; unlike `urlencode`, `/` is encoded too.
pub fn urlencode_strict(s: &str) -> (r: Result<String, Infallible>)
    ensures
        r matches Ok(t) && t@ == url_encode(s.spec_bytes(), true),
{
    Ok(url_encode_exec(s, true))
}

// ---------------------------------------------------------------------------
// Line and paragraph breaks.
// ---------------------------------------------------------------------------

pub open spec fn nl2() -> Seq<char> {
    seq!['\n', '\n']
}

pub open spec fn p_break() -> Seq<char> {
    seq!['<', '/', 'p', '>', '<', 'p', '>']
}

pub open spec fn br() -> Seq<char> {
    seq!['<', 'b', 'r', '/', '>']
}

pub open spec fn p_open() -> Seq<char> {
    seq!['<', 'p', '>']
}

pub open spec fn p_close() -> Seq<char> {
    seq!['<', '/', 'p', '>']
}

/// The patterns and replacements of the break filters.
fn break_parts() -> (r: (&'static [char], &'static [char], &'static [char], &'static [char], &'static [char], &'static [char]))
    ensures
        r.0@ == nl2(),
        r.1@ == p_break(),
        r.2@ == seq!['\n'],
        r.3@ == br(),
        r.4@ == p_open(),
        r.5@ == p_close(),
{
    let nn: &'static [char] = &['\n', '\n'];
    let pb: &'static [char] = &['<', '/', 'p', '>', '<', 'p', '>'];
    let nl: &'static [char] = &['\n'];
    let brk: &'static [char] = &['<', 'b', 'r', '/', '>'];
    let po: &'static [char] = &['<', 'p', '>'];
    let pc: &'static [char] = &['<', '/', 'p', '>'];
    assert(nn@ =~= nl2());
    assert(pb@ =~= p_break());
    assert(nl@ =~= seq!['\n']);
    assert(brk@ =~= br());
    assert(po@ =~= p_open());
    assert(pc@ =~= p_close());
    (nn, pb, nl, brk, po, pc)
}

/// A blank line becomes a paragraph break, any other newline a line break,
/// and the whole is wrapped in a paragraph.
pub fn linebreaks(s: &str) -> (r: Result<String, Infallible>)
    ensures
        r matches Ok(t) && t@ == p_open() + replace_all(replace_all(s@, nl2(), p_break()), seq!['\n'], br())
            + p_close(),
{
    let c = str_to_chars(s);
    let (nn, pb, nl, brk, po, pc) = break_parts();
    let a = replace_chars(&c, nn, pb);
    let b = replace_chars(&a, nl, brk);
    let mut out: Vec<char> = Vec::new();
    extend_chars(&mut out, po);
    extend_chars(&mut out, b.as_slice());
    extend_chars(&mut out, pc);
    Ok(chars_to_string(out.as_slice()))
}

/// Every newline becomes a line break.
pub fn linebreaksbr(s: &str) -> (r: Result<String, Infallible>)
    ensures
        r matches Ok(t) && t@ == replace_all(s@, seq!['\n'], br()),
{
    let c = str_to_chars(s);
    let (_, _, nl, brk, _, _) = break_parts();
    let b = replace_chars(&c, nl, brk);
    Ok(chars_to_string(b.as_slice()))
}

/// A blank line becomes a paragraph break, empty paragraphs are removed,
/// and the whole is wrapped in a paragraph.
pub fn paragraphbreaks(s: &str) -> (r: Result<String, Infallible>)
    ensures
        r matches Ok(t) && t@ == p_open() + replace_all(
            replace_all(s@, nl2(), p_break()),
            p_open() + p_close(),
            seq![],
        ) + p_close(),
{
    let c = str_to_chars(s);
    let (nn, pb, _, _, po, pc) = break_parts();
    let a = replace_chars(&c, nn, pb);
    let empty_para: &[char] = &['<', 'p', '>', '<', '/', 'p', '>'];
    let nothing: &[char] = &[];
    assert(empty_para@ =~= p_open() + p_close());
    assert(nothing@ =~= seq![]);
    let b = replace_chars(&a, empty_para, nothing);
    let mut out: Vec<char> = Vec::new();
    extend_chars(&mut out, po);
    extend_chars(&mut out, b.as_slice());
    extend_chars(&mut out, pc);
    Ok(chars_to_string(out.as_slice()))
}

// ---------------------------------------------------------------------------
// Case.
// ---------------------------------------------------------------------------

/// The Unicode lowercase mapping of `s`.
pub fn lower(s: &str) -> (r: Result<String, Infallible>)
    ensures
        r matches Ok(t) && t@ == lowercase_of(s@) && (all_ascii(s@) ==> t@ == s@.map_values(
            |c: char| ascii_lower(c),
        )),
{
    Ok(str_to_lowercase(s))
}

/// Alias for `lower`.
pub fn lowercase(s: &str) -> (r: Result<String, Infallible>)
    ensures
        r matches Ok(t) && t@ == lowercase_of(s@) && (all_ascii(s@) ==> t@ == s@.map_values(
            |c: char| ascii_lower(c),
        )),
{
    lower(s)
}

/// The Unicode uppercase mapping of `s`.
pub fn upper(s: &str) -> (r: Result<String, Infallible>)
    ensures
        r matches Ok(t) && t@ == uppercase_of(s@) && (all_ascii(s@) ==> t@ == s@.map_values(
            |c: char| ascii_upper(c),
        )),
{
    Ok(str_to_uppercase(s))
}

/// Alias for `upper`.
pub fn uppercase(s: &str) -> (r: Result<String, Infallible>)
    ensures
        r matches Ok(t) && t@ == uppercase_of(s@) && (all_ascii(s@) ==> t@ == s@.map_values(
            |c: char| ascii_upper(c),
        )),
{
    upper(s)
}

/// The first character in uppercase, the rest in lowercase.
pub fn capitalize(s: &str) -> (r: Result<String, Infallible>)
    ensures
        r matches Ok(t) && t@ == (if s@.len() == 0 {
            s@
        } else {
            char_upper(s@[0]) + lowercase_of(s@.subrange(1, s@.len() as int))
        }),
        all_ascii(s@) ==> (r matches Ok(t) && t@ == (if s@.len() == 0 {
            s@
        } else {
            seq![ascii_upper(s@[0])] + s@.subrange(1, s@.len() as int).map_values(
                |c: char| ascii_lower(c),
            )
        })),
{
    let c = str_to_chars(s);
    if c.len() == 0 {
        return Ok(s.to_owned());
    }
    let mut out = char_to_uppercase(c[0]);
    let rest = crate::lex::sub_string(&c, 1, c.len());
    proof {
        if all_ascii(s@) {
            assert(all_ascii(rest@)) by {
                assert forall|i: int| 0 <= i < rest@.len() implies (rest@[i] as u32) < 0x80 by {
                    assert(rest@[i] == s@[i + 1]);
                }
            }
            assert((c@[0] as u32) < 0x80);
        }
    }
    let low = str_to_lowercase(rest.as_str());
    string_push_str(&mut out, low.as_str());
    Ok(out)
}

/// The characters of `s` from `i` on in title case: the first character of
/// each word (after whitespace or at the start, as `cap` says) uppercase,
/// the others lowercase; whitespace is kept.
pub open spec fn title_from(s: Seq<char>, i: int, cap: bool) -> Seq<char>
    decreases s.len() - i,
{
    if i < 0 || i >= s.len() {
        seq![]
    } else if spec_is_whitespace(s[i]) {
        seq![s[i]] + title_from(s, i + 1, true)
    } else if cap {
        (if char_uppercase(s[i]) {
            seq![s[i]]
        } else {
            char_upper(s[i])
        }) + title_from(s, i + 1, false)
    } else {
        (if crate::lex::char_lowercase(s[i]) {
            seq![s[i]]
        } else {
            char_lower(s[i])
        }) + title_from(s, i + 1, false)
    }
}

/// `title_from` for ASCII text.
pub open spec fn title_ascii(s: Seq<char>, i: int, cap: bool) -> Seq<char>
    decreases s.len() - i,
{
    if i < 0 || i >= s.len() {
        seq![]
    } else if spec_is_whitespace(s[i]) {
        seq![s[i]] + title_ascii(s, i + 1, true)
    } else if cap {
        seq![ascii_upper(s[i])] + title_ascii(s, i + 1, false)
    } else {
        seq![ascii_lower(s[i])] + title_ascii(s, i + 1, false)
    }
}

/// Title case: words start uppercase, the rest is lowercase.
pub fn title(s: &str) -> (r: Result<String, Infallible>)
    ensures
        r matches Ok(t) && t@ == title_from(s@, 0, true),
        all_ascii(s@) ==> (r matches Ok(t) && t@ == title_ascii(s@, 0, true)),
{
    let c = str_to_chars(s);
    let mut out = String::new();
    let mut cap = true;
    let mut i: usize = 0;
    while i < c.len()
        invariant
            i <= c@.len(),
            c@ == s@,
            out@ + title_from(c@, i as int, cap) == title_from(c@, 0, true),
            all_ascii(s@) ==> out@ + title_ascii(c@, i as int, cap) == title_ascii(c@, 0, true),
        decreases c.len() - i,
    {
        let ch = c[i];
        let ghost old = out@;
        let ghost cap0 = cap;
        proof {
            if all_ascii(s@) {
                assert((c@[i as int] as u32) < 0x80);
            }
        }
        if is_whitespace(ch) {
            string_push_str(&mut out, chars_to_string(&[ch]).as_str());
            cap = true;
        } else if cap {
            if char_is_uppercase(ch) {
                string_push_str(&mut out, chars_to_string(&[ch]).as_str());
            } else {
                string_push_str(&mut out, char_to_uppercase(ch).as_str());
            }
            cap = false;
        } else {
            if crate::lex::char_is_lowercase(ch) {
                string_push_str(&mut out, chars_to_string(&[ch]).as_str());
            } else {
                string_push_str(&mut out, char_to_lowercase(ch).as_str());
            }
        }
        assert(old + title_from(c@, i as int, cap0) =~= out@ + title_from(c@, i + 1, cap));
        proof {
            if all_ascii(s@) {
                assert(old + title_ascii(c@, i as int, cap0) =~= out@ + title_ascii(c@, i + 1, cap));
            }
        }
        i = i + 1;
    }
    assert(out@ + title_from(c@, i as int, cap) =~= out@);
    assert(out@ + title_ascii(c@, i as int, cap) =~= out@);
    Ok(out)
}

// ---------------------------------------------------------------------------
// Whitespace, words and layout.
// ---------------------------------------------------------------------------

/// The first position at or after `i` that is not Unicode whitespace.
pub open spec fn skip_uws(s: Seq<char>, i: int) -> int
    decreases s.len() - i,
{
    if 0 <= i < s.len() && spec_is_whitespace(s[i]) {
        skip_uws(s, i + 1)
    } else {
        i
    }
}

/// The end of `s[..b]` without trailing Unicode whitespace, not before `lo`.
pub open spec fn rtrim_uws(s: Seq<char>, b: int, lo: int) -> int
    decreases b - lo,
{
    if b > lo && 0 < b <= s.len() && spec_is_whitespace(s[b - 1]) {
        rtrim_uws(s, b - 1, lo)
    } else {
        b
    }
}

/// `s` without leading and trailing Unicode whitespace.
pub open spec fn trim_uws(s: Seq<char>) -> Seq<char> {
    let a = skip_uws(s, 0);
    s.subrange(a, rtrim_uws(s, s.len() as int, a))
}

pub fn trim_chars(c: &Vec<char>) -> (r: Vec<char>)
    ensures
        r@ == trim_uws(c@),
{
    let mut a: usize = 0;
    while a < c.len() && is_whitespace(c[a])
        invariant
            a <= c.len(),
            skip_uws(c@, a as int) == skip_uws(c@, 0),
        decreases c.len() - a,
    {
        a = a + 1;
    }
    let mut b = c.len();
    while b > a && is_whitespace(c[b - 1])
        invariant
            a <= b <= c.len(),
            rtrim_uws(c@, b as int, a as int) == rtrim_uws(c@, c.len() as int, a as int),
        decreases b,
    {
        b = b - 1;
    }
    crate::lex::sub_chars(c, a, b)
}

/// `s` without leading and trailing whitespace.
pub fn trim(s: &str) -> (r: Result<String, Infallible>)
    ensures
        r matches Ok(t) && t@ == trim_uws(s@),
{
    let c = str_to_chars(s);
    let t = trim_chars(&c);
    Ok(chars_to_string(t.as_slice()))
}

/// The number of maximal runs of non-whitespace characters from `i` on,
/// when `in_word` says whether `i` continues a run.
pub open spec fn words_from(s: Seq<char>, i: int, in_word: bool) -> nat
    decreases s.len() - i,
{
    if i < 0 || i >= s.len() {
        0
    } else if spec_is_whitespace(s[i]) {
        words_from(s, i + 1, false)
    } else if in_word {
        words_from(s, i + 1, true)
    } else {
        words_from(s, i + 1, true) + 1
    }
}

/// Whether a word begins at `i`: a character that is not whitespace, at the
/// start of `s` or right after a whitespace character.
pub open spec fn word_starts_at(s: Seq<char>, i: int) -> bool {
    &&& 0 <= i < s.len()
    &&& !spec_is_whitespace(s[i])
    &&& (i == 0 || spec_is_whitespace(s[i - 1]))
}

/// The number of positions below `n` at which a word begins.
pub open spec fn word_starts_before(s: Seq<char>, n: int) -> nat
    decreases n,
{
    if n <= 0 {
        0
    } else {
        word_starts_before(s, n - 1) + if word_starts_at(s, n - 1) {
            1nat
        } else {
            0nat
        }
    }
}

/// Counting runs from `i` on, with `in_word` set from the character before
/// `i`, adds up to the number of word beginnings in `s`.
pub proof fn lemma_words_from_starts(s: Seq<char>, i: int)
    requires
        0 <= i <= s.len(),
    ensures
        words_from(s, i, i > 0 && !spec_is_whitespace(s[i - 1])) + word_starts_before(s, i)
            == word_starts_before(s, s.len() as int),
    decreases s.len() - i,
{
    if i < s.len() {
        lemma_words_from_starts(s, i + 1);
    }
}

/// The number of whitespace-separated words.
pub fn wordcount(s: &str) -> (r: Result<usize, Infallible>)
    ensures
        r matches Ok(n) && n == words_from(s@, 0, false),
        r matches Ok(n) && n == word_starts_before(s@, s@.len() as int),
{
    let c = str_to_chars(s);
    let mut n: usize = 0;
    let mut in_word = false;
    let mut i: usize = 0;
    while i < c.len()
        invariant
            i <= c@.len(),
            c@ == s@,
            n <= i,
            n + words_from(c@, i as int, in_word) == words_from(c@, 0, false),
        decreases c.len() - i,
    {
        if is_whitespace(c[i]) {
            in_word = false;
        } else {
            if !in_word {
                n = n + 1;
            }
            in_word = true;
        }
        i = i + 1;
    }
    proof {
        lemma_words_from_starts(s@, 0);
    }
    Ok(n)
}

/// `width` spaces after every newline that is not the last character,
/// unless `width` is at least `MAX_LEN`.
pub open spec fn indent_from(s: Seq<char>, i: int, width: nat) -> Seq<char>
    decreases s.len() - i,
{
    if i < 0 || i >= s.len() {
        seq![]
    } else if s[i] == '\n' && i + 1 < s.len() {
        seq![s[i]] + Seq::new(width, |k: int| ' ') + indent_from(s, i + 1, width)
    } else {
        seq![s[i]] + indent_from(s, i + 1, width)
    }
}

/// Indents every line but the first by `width` spaces.
pub fn indent(s: &str, width: usize) -> (r: Result<String, Infallible>)
    ensures
        r matches Ok(t) && t@ == (if width >= MAX_LEN {
            s@
        } else {
            indent_from(s@, 0, width as nat)
        }),
{
    if width >= MAX_LEN {
        return Ok(s.to_owned());
    }
    let c = str_to_chars(s);
    let mut out: Vec<char> = Vec::new();
    let mut i: usize = 0;
    while i < c.len()
        invariant
            i <= c@.len(),
            c@ == s@,
            width < MAX_LEN,
            out@ + indent_from(c@, i as int, width as nat) == indent_from(c@, 0, width as nat),
        decreases c.len() - i,
    {
        let ghost old = out@;
        out.push(c[i]);
        if c[i] == '\n' && i + 1 < c.len() {
            let mut k: usize = 0;
            while k < width
                invariant
                    k <= width,
                    out@ == old + seq![c@[i as int]] + Seq::new(k as nat, |j: int| ' '),
                decreases width - k,
            {
                out.push(' ');
                k = k + 1;
                assert(out@ =~= old + seq![c@[i as int]] + Seq::new(k as nat, |j: int| ' '));
            }
            assert(old + indent_from(c@, i as int, width as nat) =~= out@ + indent_from(
                c@,
                i + 1,
                width as nat,
            ));
        } else {
            assert(old + indent_from(c@, i as int, width as nat) =~= out@ + indent_from(
                c@,
                i + 1,
                width as nat,
            ));
        }
        i = i + 1;
    }
    assert(out@ + indent_from(c@, i as int, width as nat) =~= out@);
    Ok(chars_to_string(out.as_slice()))
}

/// `src` centered in a field of `width` characters: the padding is split
/// with the smaller half on the left.  Unchanged when it is already as wide
/// or when `width` is at least `MAX_LEN`.
pub open spec fn center_spec(s: Seq<char>, width: nat) -> Seq<char> {
    if width >= MAX_LEN || s.len() >= width {
        s
    } else {
        let pad = (width - s.len()) as nat;
        Seq::new(pad / 2, |k: int| ' ') + s + Seq::new((pad - pad / 2) as nat, |k: int| ' ')
    }
}

/// Centers `src` in a field of `width` characters.
pub fn center(src: &str, width: usize) -> (r: Result<String, Infallible>)
    ensures
        r matches Ok(t) && t@ == center_spec(src@, width as nat),
{
    let c = str_to_chars(src);
    if width >= MAX_LEN || c.len() >= width {
        return Ok(src.to_owned());
    }
    let pad = width - c.len();
    let left = pad / 2;
    let right = pad - left;
    let mut out: Vec<char> = Vec::new();
    let mut k: usize = 0;
    while k < left
        invariant
            k <= left,
            out@ == Seq::new(k as nat, |j: int| ' '),
        decreases left - k,
    {
        out.push(' ');
        k = k + 1;
        assert(out@ =~= Seq::new(k as nat, |j: int| ' '));
    }
    extend_chars(&mut out, c.as_slice());
    let ghost mid = out@;
    let mut k: usize = 0;
    while k < right
        invariant
            k <= right,
            out@ == mid + Seq::new(k as nat, |j: int| ' '),
        decreases right - k,
    {
        out.push(' ');
        k = k + 1;
        assert(out@ =~= mid + Seq::new(k as nat, |j: int| ' '));
    }
    Ok(chars_to_string(out.as_slice()))
}

/// Joins the items, with `separator` between consecutive ones.
pub open spec fn join_spec(items: Seq<Seq<char>>, sep: Seq<char>) -> Seq<char>
    decreases items.len(),
{
    if items.len() == 0 {
        seq![]
    } else if items.len() == 1 {
        items[0]
    } else {
        join_spec(items.drop_last(), sep) + sep + items.last()
    }
}

/// The items joined by `separator`.
pub fn join(input: &Vec<String>, separator: &str) -> (r: Result<String, Infallible>)
    ensures
        r matches Ok(t) && t@ == join_spec(input@.map_values(|x: String| x@), separator@),
{
    let ghost items = input@.map_values(|x: String| x@);
    let mut out = String::new();
    let mut i: usize = 0;
    while i < input.len()
        invariant
            i <= input@.len(),
            items == input@.map_values(|x: String| x@),
            out@ == join_spec(items.subrange(0, i as int), separator@),
        decreases input.len() - i,
    {
        if i > 0 {
            string_push_str(&mut out, separator);
        }
        string_push_str(&mut out, input[i].as_str());
        proof {
            let t = items.subrange(0, i + 1);
            assert(t.drop_last() =~= items.subrange(0, i as int));
            if i == 0 {
                assert(out@ =~= t[0]);
            }
        }
        i = i + 1;
    }
    assert(items.subrange(0, i as int) =~= items);
    Ok(out)
}

// ---------------------------------------------------------------------------
// Truncation.
// ---------------------------------------------------------------------------

/// The number of bytes of `c` in UTF-8.
pub open spec fn utf8_len(c: char) -> nat {
    if (c as u32) < 0x80 {
        1
    } else if (c as u32) < 0x800 {
        2
    } else if (c as u32) < 0x10000 {
        3
    } else {
        4
    }
}

/// The number of UTF-8 bytes of the first `k` characters.
pub open spec fn bytes_before(s: Seq<char>, k: int) -> nat
    decreases k,
{
    if k <= 0 || s.len() == 0 {
        0
    } else if k > s.len() {
        bytes_before(s, s.len() as int)
    } else {
        bytes_before(s, k - 1) + utf8_len(s[k - 1])
    }
}

/// The fewest characters whose UTF-8 encoding is at least `n` bytes long
/// (all of them when the whole string is shorter), counting from `k`.
pub open spec fn chars_covering(s: Seq<char>, k: int, n: nat) -> int
    decreases s.len() - k,
{
    if k >= s.len() || bytes_before(s, k) >= n {
        k
    } else {
        chars_covering(s, k + 1, n)
    }
}

/// At most `remaining` bytes of `s`, extended to a character boundary,
/// followed by `...` when something was cut off.
pub open spec fn truncate_spec(s: Seq<char>, remaining: nat) -> Seq<char> {
    if remaining >= bytes_before(s, s.len() as int) {
        s
    } else if remaining == 0 {
        seq!['.', '.', '.']
    } else {
        let k = chars_covering(s, 0, remaining);
        if k >= s.len() {
            s
        } else {
            s.subrange(0, k) + seq!['.', '.', '.']
        }
    }
}

pub(crate) fn utf8_len_exec(c: char) -> (r: usize)
    ensures
        r == utf8_len(c),
{
    if (c as u32) < 0x80 {
        1
    } else if (c as u32) < 0x800 {
        2
    } else if (c as u32) < 0x10000 {
        3
    } else {
        4
    }
}

/// Limits `source` to `remaining` bytes (rounded up to a character), and
/// appends `...` when it was cut.
pub fn truncate(source: &str, remaining: usize) -> (r: Result<String, Infallible>)
    ensures
        r matches Ok(t) && t@ == truncate_spec(source@, remaining as nat),
{
    let c = str_to_chars(source);
    let mut total: u128 = 0;
    let mut k: usize = 0;
    while k < c.len()
        invariant
            k <= c@.len(),
            total == bytes_before(c@, k as int),
            total <= 4 * k,
        decreases c.len() - k,
    {
        total = total + utf8_len_exec(c[k]) as u128;
        k = k + 1;
    }
    if remaining as u128 >= total {
        return Ok(source.to_owned());
    }
    if remaining == 0 {
        return Ok(chars_to_string(&['.', '.', '.']));
    }
    let mut acc: u128 = 0;
    let mut j: usize = 0;
    while j < c.len() && acc < remaining as u128
        invariant
            j <= c@.len(),
            acc == bytes_before(c@, j as int),
            acc <= 4 * j,
            chars_covering(c@, j as int, remaining as nat) == chars_covering(
                c@,
                0,
                remaining as nat,
            ),
        decreases c.len() - j,
    {
        acc = acc + utf8_len_exec(c[j]) as u128;
        j = j + 1;
    }
    if j >= c.len() {
        return Ok(source.to_owned());
    }
    let mut out = crate::lex::sub_chars(&c, 0, j);
    extend_chars(&mut out, &['.', '.', '.']);
    Ok(chars_to_string(out.as_slice()))
}

} // verus!
