//! The value of a string literal as written in Rust source: escapes are
//! resolved (`\n`, `\x41`, `\u{1F600}`, a `\` before a line end skips the
//! whitespace that follows), and raw strings (`r#"..."#`) are taken as
//! they are.

use vstd::prelude::*;
use crate::block_codegen::{hex_lower, hex_of};
use crate::config::CompileError;
use crate::text::{chars_to_string, str_to_chars, string_push, string_push_str};

verus! {

/// The value of a hexadecimal digit, either case.
pub open spec fn hex_val(c: char) -> Option<u32> {
    if '0' <= c && c <= '9' {
        Some((c as u32 - 48) as u32)
    } else if 'a' <= c && c <= 'f' {
        Some((c as u32 - 87) as u32)
    } else if 'A' <= c && c <= 'F' {
        Some((c as u32 - 55) as u32)
    } else {
        None
    }
}

/// `char::to_digit(16)`.
fn hex_digit(c: char) -> (r: Option<u32>)
    ensures
        r == hex_val(c),
{
    if '0' <= c && c <= '9' {
        Some(c as u32 - 48)
    } else if 'a' <= c && c <= 'f' {
        Some(c as u32 - 87)
    } else if 'A' <= c && c <= 'F' {
        Some(c as u32 - 55)
    } else {
        None
    }
}

/// Whether a number is the code of a character: at most `0x10FFFF`, and
/// not a surrogate.
pub open spec fn is_scalar(v: u32) -> bool {
    v <= 0x10FFFF && !(0xD800 <= v && v <= 0xDFFF)
}

/// `char::from_u32`: the character of code `v`, or `None` where `v` is not
/// the code of a character.
#[verifier::external_body]
fn char_from_u32(v: u32) -> (r: Option<char>)
    ensures
        is_scalar(v) ==> r == Some(v as char),
        !is_scalar(v) ==> r is None,
{
    std::char::from_u32(v)
}

/// A message with one character in back quotes after `head`.
pub open spec fn quoted_char(head: Seq<char>, c: char) -> Seq<char> {
    head + seq![c] + "`"@
}

/// The digits of `\u{..}` from `j`, with the value `value` of the `n`
/// digits so far: `_` is passed over, `}` ends them; at most six digits.
pub open spec fn unicode_digits(s: Seq<char>, j: int, value: u32, n: nat) -> Result<(char, int), Seq<char>>
    decreases s.len() - j,
{
    if !(0 <= j < s.len()) {
        Err("unclosed unicode escape"@)
    } else if s[j] == '_' {
        unicode_digits(s, j + 1, value, n)
    } else if s[j] == '}' {
        if is_scalar(value) {
            Ok((value as char, j + 1))
        } else {
            Err("character code "@ + hex_lower(value as nat) + " is not a valid unicode character"@)
        }
    } else {
        match hex_val(s[j]) {
            None => Err(quoted_char("unexpected non hex character after `\\u`: `"@, s[j])),
            Some(d) => if n + 1 > 6 {
                Err("overlong unicode escape (must have at most 6 hex digits)"@)
            } else {
                unicode_digits(s, j + 1, (value * 16 + d) as u32, n + 1)
            },
        }
    }
}

/// The escape `\u{..}`, from `i` just after `\u`: the character, and where
/// the escape ends.
pub open spec fn unicode_esc(s: Seq<char>, i: int) -> Result<(char, int), Seq<char>> {
    if !(0 <= i < s.len()) || s[i] != '{' {
        Err("expected { after \\u"@)
    } else if i + 1 >= s.len() {
        Err("unclosed `\\u`"@)
    } else if s[i + 1] == '}' {
        Err("invalid empty unicode escape `\\u{}`"@)
    } else {
        match hex_val(s[i + 1]) {
            None => Err(quoted_char("unexpected non hex character after \\u: `"@, s[i + 1])),
            Some(v) => unicode_digits(s, i + 2, v, 1),
        }
    }
}

/// The escape from `i`, just after a `\`: the character, and where the
/// escape ends. `\x` takes two hexadecimal digits (a byte's value).
pub open spec fn escape_at(s: Seq<char>, i: int) -> Result<(char, int), Seq<char>> {
    if !(0 <= i < s.len()) {
        Err("expected a character after `\\`"@)
    } else {
        let c = s[i];
        if c == '"' {
            Ok(('"', i + 1))
        } else if c == 'n' {
            Ok(('\n', i + 1))
        } else if c == 'r' {
            Ok(('\r', i + 1))
        } else if c == 't' {
            Ok(('\t', i + 1))
        } else if c == '\\' {
            Ok(('\\', i + 1))
        } else if c == '\'' {
            Ok(('\'', i + 1))
        } else if c == '0' {
            Ok(('\0', i + 1))
        } else if c == 'x' {
            if i + 1 >= s.len() {
                Err("too short \\x escape"@)
            } else {
                match hex_val(s[i + 1]) {
                    None => Err("unexpected non-hex character after \\x"@),
                    Some(hi) => if i + 2 >= s.len() {
                        Err("too short \\x escape"@)
                    } else {
                        match hex_val(s[i + 2]) {
                            None => Err("unexpected non-hex character after \\x"@),
                            Some(lo) => Ok((((hi * 16 + lo) as u8) as char, i + 3)),
                        }
                    },
                }
            }
        } else if c == 'u' {
            unicode_esc(s, i + 1)
        } else {
            Err(quoted_char("unknown espace `\\"@, c))
        }
    }
}

/// Whether a character is ASCII whitespace: space, tab, line feed or
/// carriage return.
pub open spec fn is_ascii_ws(c: char) -> bool {
    c == ' ' || c == '\t' || c == '\n' || c == '\r'
}

/// The first position from `i` that is not ASCII whitespace.
pub open spec fn skip_ascii_ws(s: Seq<char>, i: int) -> int
    decreases s.len() - i,
{
    if 0 <= i < s.len() && is_ascii_ws(s[i]) {
        skip_ascii_ws(s, i + 1)
    } else {
        i
    }
}

/// The value of the literal's contents from `i`, after `acc`: a `\` before
/// a line end skips the whitespace from there; another `\` starts an
/// escape; a bare `"` or carriage return is refused.
pub open spec fn unescape_from(s: Seq<char>, i: int, acc: Seq<char>) -> Result<Seq<char>, Seq<char>>
    decreases s.len() - i,
{
    if !(0 <= i < s.len()) {
        Ok(acc)
    } else if s[i] == '\\' {
        if i + 1 < s.len() && s[i + 1] == '\n' {
            let j = skip_ascii_ws(s, i + 1);
            if i < j <= s.len() {
                unescape_from(s, j, acc)
            } else {
                Ok(acc)
            }
        } else {
            match escape_at(s, i + 1) {
                Err(m) => Err(m),
                Ok(r) => if i < r.1 <= s.len() {
                    unescape_from(s, r.1, acc.push(r.0))
                } else {
                    Ok(acc)
                },
            }
        }
    } else if s[i] == '"' {
        Err("unexpected `\"` character"@)
    } else if s[i] == '\r' {
        Err("unexpected `\r` character"@)
    } else {
        unescape_from(s, i + 1, acc.push(s[i]))
    }
}

proof fn lemma_unicode_digits_end(s: Seq<char>, j: int, value: u32, n: nat)
    ensures
        unicode_digits(s, j, value, n) matches Ok(r) ==> j < r.1 <= s.len(),
    decreases s.len() - j,
{
    if 0 <= j < s.len() && s[j] != '}' {
        if s[j] == '_' {
            lemma_unicode_digits_end(s, j + 1, value, n);
        } else {
            match hex_val(s[j]) {
                Some(d) => lemma_unicode_digits_end(s, j + 1, (value * 16 + d) as u32, n + 1),
                None => {},
            }
        }
    }
}

proof fn lemma_escape_end(s: Seq<char>, i: int)
    ensures
        escape_at(s, i) matches Ok(r) ==> i < r.1 <= s.len(),
{
    if 0 <= i < s.len() && s[i] == 'u' && i + 2 < s.len() {
        match hex_val(s[i + 2]) {
            Some(v) => lemma_unicode_digits_end(s, i + 3, v, 1),
            None => {},
        }
    }
}

proof fn lemma_skip_end(s: Seq<char>, i: int)
    requires
        0 <= i <= s.len(),
    ensures
        i <= skip_ascii_ws(s, i) <= s.len(),
    decreases s.len() - i,
{
    if i < s.len() && is_ascii_ws(s[i]) {
        lemma_skip_end(s, i + 1);
    }
}

fn msg(m: &str) -> (e: CompileError)
    ensures
        e.msg@ == m@,
{
    CompileError { msg: m.to_owned() }
}

fn quoted_char_msg(head: &str, c: char) -> (e: CompileError)
    ensures
        e.msg@ == quoted_char(head@, c),
{
    let mut m = String::new();
    string_push_str(&mut m, head);
    string_push(&mut m, c);
    string_push_str(&mut m, "`");
    assert(m@ =~= quoted_char(head@, c));
    CompileError { msg: m }
}

/// Reads `\u{..}` from `i`, just after `\u`.
fn scan_unicode(s: &Vec<char>, i: usize) -> (r: Result<(char, usize), CompileError>)
    requires
        i <= s.len(),
    ensures
        match unicode_esc(s@, i as int) {
            Ok(x) => r matches Ok(y) && y.0 == x.0 && y.1 as int == x.1,
            Err(m) => r matches Err(e) && e.msg@ == m,
        },
{
    if i >= s.len() || s[i] != '{' {
        return Err(msg("expected { after \\u"));
    }
    if i + 1 >= s.len() {
        return Err(msg("unclosed `\\u`"));
    }
    if s[i + 1] == '}' {
        return Err(msg("invalid empty unicode escape `\\u{}`"));
    }
    let mut value: u32 = match hex_digit(s[i + 1]) {
        Some(v) => v,
        None => {
            return Err(quoted_char_msg("unexpected non hex character after \\u: `", s[i + 1]));
        },
    };
    let mut n_digits: u32 = 1;
    let mut j = i + 2;
    assert(pow16(1) == 16) by {
        reveal_with_fuel(pow16, 2);
    }
    while j < s.len()
        invariant
            i + 2 <= j <= s.len(),
            1 <= n_digits <= 6,
            value < pow16(n_digits as nat),
            unicode_digits(s@, j as int, value, n_digits as nat) == unicode_esc(s@, i as int),
        decreases s.len() - j,
    {
        let c = s[j];
        if c == '_' {
            j = j + 1;
        } else if c == '}' {
            return match char_from_u32(value) {
                Some(ch) => Ok((ch, j + 1)),
                None => {
                    let mut m = String::new();
                    string_push_str(&mut m, "character code ");
                    let h = hex_of(value);
                    string_push_str(&mut m, chars_to_string(h.as_slice()).as_str());
                    string_push_str(&mut m, " is not a valid unicode character");
                    Err(CompileError { msg: m })
                },
            };
        } else {
            let digit = match hex_digit(c) {
                Some(d) => d,
                None => {
                    return Err(quoted_char_msg("unexpected non hex character after `\\u`: `", c));
                },
            };
            if n_digits + 1 > 6 {
                return Err(msg("overlong unicode escape (must have at most 6 hex digits)"));
            }
            proof {
                assert(pow16(n_digits as nat + 1) == 16 * pow16(n_digits as nat));
                assert(pow16(6) == 0x1000000) by {
                    reveal_with_fuel(pow16, 7);
                }
                lemma_pow16_mono(n_digits as nat + 1, 6);
            }
            value = value * 16 + digit;
            n_digits = n_digits + 1;
            j = j + 1;
        }
    }
    Err(msg("unclosed unicode escape"))
}

/// `16` to the power `n`.
pub open spec fn pow16(n: nat) -> nat
    decreases n,
{
    if n == 0 {
        1
    } else {
        16 * pow16((n - 1) as nat)
    }
}

proof fn lemma_pow16_mono(a: nat, b: nat)
    requires
        a <= b,
    ensures
        pow16(a) <= pow16(b),
    decreases b - a,
{
    if a < b {
        lemma_pow16_mono(a, (b - 1) as nat);
    }
}

/// Reads the escape from `i`, just after a `\`.
fn scan_escape(s: &Vec<char>, i: usize) -> (r: Result<(char, usize), CompileError>)
    requires
        i <= s.len(),
    ensures
        match escape_at(s@, i as int) {
            Ok(x) => r matches Ok(y) && y.0 == x.0 && y.1 as int == x.1,
            Err(m) => r matches Err(e) && e.msg@ == m,
        },
{
    if i >= s.len() {
        return Err(msg("expected a character after `\\`"));
    }
    let c = s[i];
    if c == '"' {
        Ok(('"', i + 1))
    } else if c == 'n' {
        Ok(('\n', i + 1))
    } else if c == 'r' {
        Ok(('\r', i + 1))
    } else if c == 't' {
        Ok(('\t', i + 1))
    } else if c == '\\' {
        Ok(('\\', i + 1))
    } else if c == '\'' {
        Ok(('\'', i + 1))
    } else if c == '0' {
        Ok(('\0', i + 1))
    } else if c == 'x' {
        if i + 1 >= s.len() {
            return Err(msg("too short \\x escape"));
        }
        let hi = match hex_digit(s[i + 1]) {
            Some(d) => d,
            None => {
                return Err(msg("unexpected non-hex character after \\x"));
            },
        };
        if i + 2 >= s.len() {
            return Err(msg("too short \\x escape"));
        }
        let lo = match hex_digit(s[i + 2]) {
            Some(d) => d,
            None => {
                return Err(msg("unexpected non-hex character after \\x"));
            },
        };
        let value = hi * 16 + lo;
        Ok(((value as u8) as char, i + 3))
    } else if c == 'u' {
        scan_unicode(s, i + 1)
    } else {
        Err(quoted_char_msg("unknown espace `\\", c))
    }
}

/// The first position from `i` that is not ASCII whitespace.
fn skip_ascii_whitespace(s: &Vec<char>, i: usize) -> (r: usize)
    requires
        i <= s.len(),
    ensures
        r as int == skip_ascii_ws(s@, i as int),
{
    let mut j = i;
    while j < s.len() && (s[j] == ' ' || s[j] == '\t' || s[j] == '\n' || s[j] == '\r')
        invariant
            i <= j <= s.len(),
            skip_ascii_ws(s@, j as int) == skip_ascii_ws(s@, i as int),
        decreases s.len() - j,
    {
        j = j + 1;
    }
    j
}

/// The value of a string literal's contents (without its quotes).
pub fn get_str(src: &str) -> (r: Result<String, CompileError>)
    ensures
        match unescape_from(src@, 0, seq![]) {
            Ok(v) => r matches Ok(x) && x@ == v,
            Err(m) => r matches Err(e) && e.msg@ == m,
        },
{
    let s = str_to_chars(src);
    let mut output: Vec<char> = Vec::new();
    let mut i: usize = 0;
    while i < s.len()
        invariant
            i <= s.len(),
            s@ == src@,
            unescape_from(s@, i as int, output@) == unescape_from(s@, 0, seq![]),
        decreases s.len() - i,
    {
        let c = s[i];
        if c == '\\' {
            if i + 1 < s.len() && s[i + 1] == '\n' {
                proof {
                    lemma_skip_end(s@, i + 1);
                }
                i = skip_ascii_whitespace(&s, i + 1);
                continue;
            }
            proof {
                lemma_escape_end(s@, i + 1);
            }
            match scan_escape(&s, i + 1) {
                Ok((ch, j)) => {
                    output.push(ch);
                    i = j;
                },
                Err(e) => {
                    return Err(e);
                },
            }
        } else if c == '"' {
            return Err(msg("unexpected `\"` character"));
        } else if c == '\r' {
            return Err(msg("unexpected `\r` character"));
        } else {
            output.push(c);
            i = i + 1;
        }
    }
    Ok(chars_to_string(output.as_slice()))
}

/// How many `#` follow from `i`.
pub open spec fn leading_pounds(s: Seq<char>, i: int) -> nat
    decreases s.len() - i,
{
    if 0 <= i < s.len() && s[i] == '#' {
        1 + leading_pounds(s, i + 1)
    } else {
        0
    }
}

/// The position of the last `"` before `k`, or -1.
pub open spec fn last_quote(s: Seq<char>, k: int) -> int
    decreases k,
{
    if k <= 0 {
        -1
    } else if s[k - 1] == '"' {
        k - 1
    } else {
        last_quote(s, k - 1)
    }
}

/// Whether every character is `#`.
pub open spec fn all_pounds(s: Seq<char>) -> bool {
    forall|i: int| 0 <= i < s.len() ==> s[i] == '#'
}

/// The error for what is not a string literal, showing it.
pub open spec fn not_literal_msg(ident: Seq<char>, lit: Seq<char>) -> Seq<char> {
    "template `"@ + ident + "` must be a string literal, found `"@ + lit + "`"@
}

/// The value of the literal `lit` given for the argument `ident`: a quoted
/// string is unescaped; a raw string, `r` and as many `#` before the
/// opening quote as after the closing one, is taken as it is; anything else
/// is refused.
pub open spec fn str_literal(lit: Seq<char>, ident: Seq<char>) -> Result<Seq<char>, Seq<char>> {
    if lit.len() > 0 && lit[0] == '"' {
        unescape_from(lit.subrange(1, lit.len() - 1), 0, seq![])
    } else if lit.len() > 0 && lit[0] == 'r' {
        let p = leading_pounds(lit, 1);
        let rest = lit.subrange((p + 1) as int, lit.len() as int);
        if rest.len() == 0 || rest[0] != '"' {
            Err(not_literal_msg(ident, rest))
        } else {
            let close = last_quote(rest, rest.len() as int);
            let tail = rest.subrange(close + 1, rest.len() as int);
            if !all_pounds(tail) || tail.len() != p {
                Err(not_literal_msg(ident, rest))
            } else {
                Ok(rest.subrange(1, close))
            }
        }
    } else {
        Err("template `"@ + ident + "` must be a string literal"@)
    }
}

/// The literals that can be read: a quoted one has its closing character
/// (an ASCII one, as a quote is); a raw one with an opening quote but no
/// other quote is not followed by exactly its `#`s.
pub open spec fn readable_literal(lit: Seq<char>) -> bool {
    &&& lit.len() > 0 && lit[0] == '"' ==> lit.len() >= 2 && (lit.last() as u32) < 128
    &&& lit.len() > 0 && lit[0] == 'r' ==> {
        let p = leading_pounds(lit, 1);
        let rest = lit.subrange((p + 1) as int, lit.len() as int);
        !(rest.len() > 0 && rest[0] == '"' && last_quote(rest, rest.len() as int) == 0 && all_pounds(
            rest.subrange(1, rest.len() as int),
        ) && rest.len() - 1 == p)
    }
}

proof fn lemma_leading_pounds(s: Seq<char>, i: int)
    requires
        0 <= i <= s.len(),
    ensures
        i + leading_pounds(s, i) <= s.len(),
        forall|k: int| i <= k < i + leading_pounds(s, i) ==> s[k] == '#',
        i + leading_pounds(s, i) < s.len() ==> s[i + leading_pounds(s, i)] != '#',
    decreases s.len() - i,
{
    if i < s.len() && s[i] == '#' {
        lemma_leading_pounds(s, i + 1);
    }
}

proof fn lemma_last_quote(s: Seq<char>, k: int)
    requires
        0 <= k <= s.len(),
    ensures
        -1 <= last_quote(s, k) < k,
        last_quote(s, k) >= 0 ==> s[last_quote(s, k)] == '"',
        forall|j: int| last_quote(s, k) < j < k ==> s[j] != '"',
    decreases k,
{
    if k > 0 && s[k - 1] != '"' {
        lemma_last_quote(s, k - 1);
    }
}

/// The text of the literal given for the argument `ident` (as the literal
/// is written), as a value (see `str_literal`).
pub fn get_str_literal(lit: &str, ident: &str) -> (r: Result<String, CompileError>)
    requires
        readable_literal(lit@),
    ensures
        match str_literal(lit@, ident@) {
            Ok(v) => r matches Ok(x) && x@ == v,
            Err(m) => r matches Err(e) && e.msg@ == m,
        },
{
    let c = str_to_chars(lit);
    if c.len() > 0 && c[0] == '"' {
        let inner = chars_to_string(crate::lex::sub_chars(&c, 1, c.len() - 1).as_slice());
        return get_str(inner.as_str());
    }
    if c.len() > 0 && c[0] == 'r' {
        let mut pounds: usize = 0;
        while 1 + pounds < c.len() && c[1 + pounds] == '#'
            invariant
                c@ == lit@,
                1 + pounds <= c.len(),
                leading_pounds(c@, 1 + pounds as int) + pounds == leading_pounds(c@, 1),
            decreases c.len() - pounds,
        {
            pounds = pounds + 1;
        }
        let ghost p = leading_pounds(c@, 1);
        assert(pounds == p);
        let rest = crate::lex::sub_chars(&c, pounds + 1, c.len());
        let rest_s = chars_to_string(rest.as_slice());
        if rest.len() == 0 || rest[0] != '"' {
            return Err(not_literal(ident, rest_s.as_str()));
        }
        let mut close: usize = rest.len() - 1;
        while rest[close] != '"'
            invariant
                0 <= close < rest.len(),
                rest@[0] == '"',
                last_quote(rest@, rest.len() as int) == last_quote(rest@, close + 1),
            decreases close,
        {
            close = close - 1;
        }
        proof {
            lemma_last_quote(rest@, rest.len() as int);
        }
        let mut all = true;
        let mut k = close + 1;
        while k < rest.len()
            invariant
                close + 1 <= k <= rest.len(),
                all == (forall|j: int| close + 1 <= j < k ==> rest@[j] == '#'),
            decreases rest.len() - k,
        {
            if rest[k] != '#' {
                all = false;
            }
            k = k + 1;
        }
        let ghost tail = rest@.subrange(close + 1, rest@.len() as int);
        assert(all == all_pounds(tail)) by {
            if all {
                assert forall|j: int| 0 <= j < tail.len() implies tail[j] == '#' by {
                    assert(tail[j] == rest@[close + 1 + j]);
                }
            } else {
                let j = choose|j: int| close + 1 <= j < rest@.len() && rest@[j] != '#';
                assert(tail[j - close - 1] == rest@[j]);
            }
        }
        if !all || rest.len() - (close + 1) != pounds {
            return Err(not_literal(ident, rest_s.as_str()));
        }
        proof {
            if close == 0 {
                assert(rest@.subrange(1, rest@.len() as int) == tail);
            }
        }
        return Ok(chars_to_string(crate::lex::sub_chars(&rest, 1, close).as_slice()));
    }
    let mut m = String::new();
    string_push_str(&mut m, "template `");
    string_push_str(&mut m, ident);
    string_push_str(&mut m, "` must be a string literal");
    Err(CompileError { msg: m })
}

fn not_literal(ident: &str, lit: &str) -> (e: CompileError)
    ensures
        e.msg@ == not_literal_msg(ident@, lit@),
{
    let mut m = String::new();
    string_push_str(&mut m, "template `");
    string_push_str(&mut m, ident);
    string_push_str(&mut m, "` must be a string literal, found `");
    string_push_str(&mut m, lit);
    string_push_str(&mut m, "`");
    CompileError { msg: m }
}

} // verus!
