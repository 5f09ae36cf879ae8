//! Parsing a whole template: the entry points, and the error text that
//! reports where parsing stopped.

use vstd::prelude::*;
use crate::ast::{Lit, Node, NodeM, lit_m, nodes_m};
use crate::lex::{EndKind, Msg, SR};
use crate::node_parser::{Delims, delims_ok, split_ws, template_p};
use crate::template::{Delimiters, parse_nodes, split_lit, sr_nodes};
use crate::text::{chars_to_string, str_to_chars, string_push_str};

verus! {

/// The delimiters of a template syntax.
#[derive(Debug)]
pub struct Syntax {
    pub block_start: String,
    pub block_end: String,
    pub expr_start: String,
    pub expr_end: String,
    pub comment_start: String,
    pub comment_end: String,
}

impl Syntax {
    pub open spec fn delims(&self) -> Delims {
        Delims {
            bs: self.block_start@,
            be: self.block_end@,
            es: self.expr_start@,
            ee: self.expr_end@,
            cs: self.comment_start@,
            ce: self.comment_end@,
        }
    }
}

impl Default for Syntax {
    /// `{% %}`, `{{ }}` and `{# #}`.
    fn default() -> (r: Syntax)
        ensures
            r.block_start@ == seq!['{', '%'],
            r.block_end@ == seq!['%', '}'],
            r.expr_start@ == seq!['{', '{'],
            r.expr_end@ == seq!['}', '}'],
            r.comment_start@ == seq!['{', '#'],
            r.comment_end@ == seq!['#', '}'],
    {
        Syntax {
            block_start: chars_to_string(&['{', '%']),
            block_end: chars_to_string(&['%', '}']),
            expr_start: chars_to_string(&['{', '{']),
            expr_end: chars_to_string(&['}', '}']),
            comment_start: chars_to_string(&['{', '#']),
            comment_end: chars_to_string(&['#', '}']),
        }
    }
}

/// A parsed template.
#[derive(Debug)]
pub struct Ast {
    pub nodes: Vec<Node>,
}

/// Why a template could not be parsed, as a message for the user.
#[derive(Debug, Clone, PartialEq, Eq)]
pub struct ParseError(pub String);

impl ParseError {
    /// The message.
    pub fn to_string(&self) -> (r: String)
        ensures
            r@ == self.0@,
    {
        self.0.clone()
    }
}

// ---------------------------------------------------------------------------
// The error text.
// ---------------------------------------------------------------------------

pub open spec fn digit_char(d: nat) -> char {
    if d == 0 {
        '0'
    } else if d == 1 {
        '1'
    } else if d == 2 {
        '2'
    } else if d == 3 {
        '3'
    } else if d == 4 {
        '4'
    } else if d == 5 {
        '5'
    } else if d == 6 {
        '6'
    } else if d == 7 {
        '7'
    } else if d == 8 {
        '8'
    } else {
        '9'
    }
}

/// The decimal digits of `n`.
pub open spec fn decimal(n: nat) -> Seq<char>
    decreases n,
{
    if n < 10 {
        seq![digit_char(n)]
    } else {
        decimal(n / 10) + seq![digit_char(n % 10)]
    }
}

/// The text before an error position without its final line ending, which
/// `str::lines` does not count as starting a new line.
pub open spec fn trim_final_eol(b: Seq<char>) -> Seq<char> {
    if b.len() > 0 && b.last() == '\n' {
        if b.len() > 1 && b[b.len() - 2] == '\r' {
            b.subrange(0, b.len() - 2)
        } else {
            b.drop_last()
        }
    } else {
        b
    }
}

pub open spec fn count_nl(b: Seq<char>) -> nat
    decreases b.len(),
{
    if b.len() == 0 {
        0
    } else {
        count_nl(b.drop_last()) + if b.last() == '\n' {
            1nat
        } else {
            0nat
        }
    }
}

pub open spec fn last_line_len(b: Seq<char>) -> nat
    decreases b.len(),
{
    if b.len() == 0 {
        0
    } else if b.last() == '\n' {
        0
    } else {
        last_line_len(b.drop_last()) + 1
    }
}

/// The zero-based line of the error position.
pub open spec fn error_row(s: Seq<char>, pos: int) -> nat {
    count_nl(trim_final_eol(s.subrange(0, pos)))
}

/// The number of characters before the error position on its line.
pub open spec fn error_column(s: Seq<char>, pos: int) -> nat {
    last_line_len(trim_final_eol(s.subrange(0, pos)))
}

/// What is shown of the input after the error position: at most 40
/// characters.
pub open spec fn excerpt(s: Seq<char>, pos: int) -> Seq<char> {
    if s.len() - pos >= 41 {
        s.subrange(pos, pos + 40)
    } else {
        s.subrange(pos, s.len() as int)
    }
}

/// The text of a fatal error's message, if it has one.
pub open spec fn msg_text(s: Seq<char>, m: Msg) -> Option<Seq<char>> {
    match m {
        Msg::Plain => None,
        Msg::EmptyCharLit => Some("empty character literal"@),
        Msg::InvalidChar => Some("invalid character"@),
        Msg::AsciiRange => Some("must be a character in the range [\\x00-\\x7f]"@),
        Msg::UnicodeRange => Some("unicode escape must be at most 10FFFF"@),
        Msg::NamedArgsLast => Some("named arguments must always be passed last"@),
        Msg::NamedArgTwice(a, b) => Some(
            "named argument `"@ + s.subrange(a as int, b as int) + "` was passed more than once"@,
        ),
        Msg::CannotUseName(a, b) => Some(
            "Cannot use `"@ + s.subrange(a as int, b as int) + "` as a name"@,
        ),
        Msg::UnknownElif => Some("unknown `elif` keyword; did you mean `else if`?"@),
        Msg::EndName(kind, na, nb, ea, eb) => {
            let k = match kind {
                EndKind::Block => "block"@,
                EndKind::Macro => "macro"@,
            };
            let name = s.subrange(na as int, nb as int);
            let end_name = s.subrange(ea as int, eb as int);
            if name.len() == 0 && end_name.len() != 0 {
                Some(
                    "unexpected name `"@ + end_name + "` in `end"@ + k + "` tag for unnamed `"@ + k
                        + "`"@,
                )
            } else {
                Some("expected name `"@ + name + "` in `end"@ + k + "` tag, found `"@ + end_name + "`"@)
            }
        },
        Msg::ExtendsWs => Some("whitespace control is not allowed on `extends`"@),
        Msg::CommentsTooDeep => Some("too deeply nested comments"@),
    }
}

/// The error text for an error at `pos`, where `quoted` is the debug
/// rendering of `excerpt(s, pos)`, and `path` the template file's path if
/// there is one.
pub open spec fn error_text(s: Seq<char>, pos: int, m: Msg, path: Option<Seq<char>>, quoted: Seq<char>) -> Seq<char> {
    let prefix = match msg_text(s, m) {
        Some(t) => t + "\n"@,
        None => seq![],
    };
    let dots = if s.len() - pos >= 41 {
        "..."@
    } else {
        seq![]
    };
    let row = decimal(error_row(s, pos) + 1);
    let col = decimal(error_column(s, pos));
    match path {
        None => prefix + "failed to parse template source at row "@ + row + ", column "@ + col
            + " near:\n"@ + quoted + dots,
        Some(p) => prefix + "failed to parse template source\n  --> "@ + p + ":"@ + row + ":"@ + col
            + "\n"@ + quoted + dots,
    }
}

/// What `str`'s `Debug` formatting gives for a string: the string in double
/// quotes with escapes.
pub uninterp spec fn debug_str(s: Seq<char>) -> Seq<char>;

/// `format!("{:?}", s)` for a string slice.  Stated: the result is the
/// named rendering of `s`; which characters are escaped is left unsaid.
#[verifier::external_body]
pub(crate) fn debug_quote(s: &str) -> (r: String)
    ensures
        r@ == debug_str(s@),
{
    format!("{:?}", s)
}

pub fn decimal_exec(n: u128) -> (r: String)
    ensures
        r@ == decimal(n as nat),
{
    let mut digits: Vec<char> = Vec::new();
    let mut m = n;
    loop
        invariant_except_break
            decimal(n as nat) == decimal(m as nat) + digits@,
        ensures
            decimal(n as nat) == digits@,
        decreases m,
    {
        let d = m % 10;
        let c = if d == 0 {
            '0'
        } else if d == 1 {
            '1'
        } else if d == 2 {
            '2'
        } else if d == 3 {
            '3'
        } else if d == 4 {
            '4'
        } else if d == 5 {
            '5'
        } else if d == 6 {
            '6'
        } else if d == 7 {
            '7'
        } else if d == 8 {
            '8'
        } else {
            '9'
        };
        let ghost old = digits@;
        digits.insert(0, c);
        assert(digits@ =~= seq![c] + old);
        if m < 10 {
            assert(decimal(m as nat) == seq![c]);
            assert(decimal(n as nat) =~= digits@);
            break;
        }
        assert(decimal(m as nat) == decimal((m / 10) as nat) + seq![digit_char((m % 10) as nat)]);
        assert(decimal((m / 10) as nat) + seq![c] + old =~= decimal((m / 10) as nat) + (seq![c]
            + old));
        m = m / 10;
    }
    chars_to_string(digits.as_slice())
}

fn row_col_exec(s: &Vec<char>, pos: usize) -> (r: (usize, usize))
    requires
        pos <= s.len(),
    ensures
        r.0 == error_row(s@, pos as int),
        r.1 == error_column(s@, pos as int),
{
    let ghost b = s@.subrange(0, pos as int);
    let mut end = pos;
    if pos > 0 && s[pos - 1] == '\n' {
        if pos > 1 && s[pos - 2] == '\r' {
            end = pos - 2;
        } else {
            end = pos - 1;
        }
    }
    assert(trim_final_eol(b) =~= s@.subrange(0, end as int));
    let mut row: usize = 0;
    let mut col: usize = 0;
    let mut i: usize = 0;
    while i < end
        invariant
            i <= end <= pos <= s.len(),
            row == count_nl(s@.subrange(0, i as int)),
            col == last_line_len(s@.subrange(0, i as int)),
            row <= i,
            col <= i,
        decreases end - i,
    {
        assert(s@.subrange(0, i + 1).drop_last() =~= s@.subrange(0, i as int));
        if s[i] == '\n' {
            row = row + 1;
            col = 0;
        } else {
            col = col + 1;
        }
        i = i + 1;
    }
    (row, col)
}

fn msg_text_exec(s: &Vec<char>, m: Msg) -> (r: Option<String>)
    requires
        match m {
            Msg::NamedArgTwice(a, b) => a <= b <= s.len(),
            Msg::CannotUseName(a, b) => a <= b <= s.len(),
            Msg::EndName(_, na, nb, ea, eb) => na <= nb <= s.len() && ea <= eb <= s.len(),
            _ => true,
        },
    ensures
        match r {
            Some(t) => msg_text(s@, m) == Some(t@),
            None => msg_text(s@, m) is None,
        },
{
    match m {
        Msg::Plain => None,
        Msg::EmptyCharLit => Some("empty character literal".to_owned()),
        Msg::InvalidChar => Some("invalid character".to_owned()),
        Msg::AsciiRange => Some("must be a character in the range [\\x00-\\x7f]".to_owned()),
        Msg::UnicodeRange => Some("unicode escape must be at most 10FFFF".to_owned()),
        Msg::NamedArgsLast => Some("named arguments must always be passed last".to_owned()),
        Msg::NamedArgTwice(a, b) => {
            let mut t = "named argument `".to_owned();
            string_push_str(&mut t, crate::lex::sub_string(s, a, b).as_str());
            string_push_str(&mut t, "` was passed more than once");
            Some(t)
        },
        Msg::CannotUseName(a, b) => {
            let mut t = "Cannot use `".to_owned();
            string_push_str(&mut t, crate::lex::sub_string(s, a, b).as_str());
            string_push_str(&mut t, "` as a name");
            Some(t)
        },
        Msg::UnknownElif => Some("unknown `elif` keyword; did you mean `else if`?".to_owned()),
        Msg::EndName(kind, na, nb, ea, eb) => {
            let k = match kind {
                EndKind::Block => "block",
                EndKind::Macro => "macro",
            };
            let name = crate::lex::sub_string(s, na, nb);
            let end_name = crate::lex::sub_string(s, ea, eb);
            if nb == na && eb != ea {
                let mut t = "unexpected name `".to_owned();
                string_push_str(&mut t, end_name.as_str());
                string_push_str(&mut t, "` in `end");
                string_push_str(&mut t, k);
                string_push_str(&mut t, "` tag for unnamed `");
                string_push_str(&mut t, k);
                string_push_str(&mut t, "`");
                Some(t)
            } else {
                let mut t = "expected name `".to_owned();
                string_push_str(&mut t, name.as_str());
                string_push_str(&mut t, "` in `end");
                string_push_str(&mut t, k);
                string_push_str(&mut t, "` tag, found `");
                string_push_str(&mut t, end_name.as_str());
                string_push_str(&mut t, "`");
                Some(t)
            }
        },
        Msg::ExtendsWs => Some("whitespace control is not allowed on `extends`".to_owned()),
        Msg::CommentsTooDeep => Some("too deeply nested comments".to_owned()),
    }
}


pub open spec fn opt_view(p: Option<&str>) -> Option<Seq<char>> {
    match p {
        Some(x) => Some(x@),
        None => None,
    }
}

/// The error text for a parse of `src` that stopped at `pos` with `msg`;
/// `quoted` is the debug rendering of what follows `pos` (at most 40
/// characters), and `file_path` the template's path if it came from a file.
pub fn error_message(src: &str, pos: usize, msg: Msg, file_path: Option<&str>, quoted: &str) -> (r: String)
    requires
        pos <= src@.len(),
        crate::lex::msg_ok(msg, src@.len() as int),
    ensures
        r@ == error_text(src@, pos as int, msg, opt_view(file_path), quoted@),
{
    let s = str_to_chars(src);
    let mut out = String::new();
    match msg_text_exec(&s, msg) {
        Some(t) => {
            string_push_str(&mut out, t.as_str());
            string_push_str(&mut out, "\n");
        },
        None => {},
    }
    let ghost prefix = match msg_text(src@, msg) {
        Some(t) => t + "\n"@,
        None => seq![],
    };
    assert(out@ =~= prefix);
    let (row, col) = row_col_exec(&s, pos);
    let row_text = decimal_exec((row as u128) + 1);
    let col_text = decimal_exec(col as u128);
    let ghost rt = decimal(error_row(src@, pos as int) + 1);
    let ghost ct = decimal(error_column(src@, pos as int));
    assert(row_text@ == rt);
    assert(col_text@ == ct);
    match file_path {
        None => {
            string_push_str(&mut out, "failed to parse template source at row ");
            string_push_str(&mut out, row_text.as_str());
            string_push_str(&mut out, ", column ");
            string_push_str(&mut out, col_text.as_str());
            string_push_str(&mut out, " near:\n");
            assert(out@ =~= prefix + "failed to parse template source at row "@ + rt + ", column "@
                + ct + " near:\n"@);
        },
        Some(p) => {
            string_push_str(&mut out, "failed to parse template source\n  --> ");
            string_push_str(&mut out, p);
            string_push_str(&mut out, ":");
            string_push_str(&mut out, row_text.as_str());
            string_push_str(&mut out, ":");
            string_push_str(&mut out, col_text.as_str());
            string_push_str(&mut out, "\n");
            assert(out@ =~= prefix + "failed to parse template source\n  --> "@ + p@ + ":"@ + rt
                + ":"@ + ct + "\n"@);
        },
    }
    let ghost mid = out@;
    string_push_str(&mut out, quoted);
    if s.len() - pos >= 41 {
        string_push_str(&mut out, "...");
        assert(out@ =~= mid + quoted@ + "..."@);
    } else {
        assert(out@ =~= mid + quoted@ + seq![]);
    }
    out
}

proof fn lemma_count_nl_bound(b: Seq<char>)
    ensures
        count_nl(b) <= b.len(),
    decreases b.len(),
{
    if b.len() > 0 {
        lemma_count_nl_bound(b.drop_last());
    }
}

impl Ast {
    /// Parses a template with the given syntax.  On success the nodes are
    /// the template's grammar applied to the whole source; otherwise the
    /// error text locates where parsing stopped (with the file's path when
    /// there is one).
    pub fn from_str(src: &str, file_path: Option<&str>, syntax: &Syntax) -> (r: Result<Ast, ParseError>)
        requires
            delims_ok(syntax.delims()),
        ensures
            match template_p(src@, syntax.delims()) {
                Ok(nodes) => r matches Ok(a) && nodes_m(a.nodes@) == nodes,
                Err((pos, m)) => r matches Err(e) && e.0@ == error_text(
                    src@,
                    pos,
                    m,
                    opt_view(file_path),
                    debug_str(excerpt(src@, pos)),
                ),
            },
    {
        let s = str_to_chars(src);
        let d = Delimiters {
            bs: str_to_chars(syntax.block_start.as_str()),
            be: str_to_chars(syntax.block_end.as_str()),
            es: str_to_chars(syntax.expr_start.as_str()),
            ee: str_to_chars(syntax.expr_end.as_str()),
            cs: str_to_chars(syntax.comment_start.as_str()),
            ce: str_to_chars(syntax.comment_end.as_str()),
        };
        assert(d@ == syntax.delims());
        let (pos, msg) = match parse_nodes(&s, &d, 0, 0, false) {
            Ok((i, nodes)) => {
                if i == s.len() {
                    return Ok(Ast { nodes });
                }
                (i, Msg::Plain)
            },
            Err(x) => (x.pos, x.msg),
        };
        let end = if s.len() - pos >= 41 {
            pos + 40
        } else {
            s.len()
        };
        let after = crate::lex::sub_string(&s, pos, end);
        let quoted = debug_quote(after.as_str());
        Err(ParseError(error_message(src, pos, msg, file_path, quoted.as_str())))
    }

    /// The template's nodes.
    pub fn nodes(&self) -> (r: &[Node])
        ensures
            r@ == self.nodes@,
    {
        self.nodes.as_slice()
    }
}

/// A template source together with its parsed nodes.
#[derive(Debug)]
pub struct Parsed {
    ast: Ast,
    source: String,
}

impl Parsed {
    /// The model of the parsed nodes.
    pub closed spec fn spec_nodes(&self) -> Seq<NodeM> {
        nodes_m(self.ast.nodes@)
    }

    /// The source text.
    pub closed spec fn spec_source(&self) -> Seq<char> {
        self.source@
    }

    /// Parses `source`; see `Ast::from_str`.
    pub fn new(source: String, file_path: Option<&str>, syntax: &Syntax) -> (r: Result<Parsed, ParseError>)
        requires
            delims_ok(syntax.delims()),
        ensures
            match template_p(source@, syntax.delims()) {
                Ok(nodes) => r matches Ok(p) && p.spec_nodes() == nodes && p.spec_source() == source@,
                Err((pos, m)) => r matches Err(e) && e.0@ == error_text(
                    source@,
                    pos,
                    m,
                    opt_view(file_path),
                    debug_str(excerpt(source@, pos)),
                ),
            },
    {
        match Ast::from_str(source.as_str(), file_path, syntax) {
            Ok(ast) => Ok(Parsed { ast, source }),
            Err(e) => Err(e),
        }
    }

    /// The template's nodes.
    pub fn nodes(&self) -> (r: &[Node])
        ensures
            nodes_m(r@) == self.spec_nodes(),
    {
        self.ast.nodes.as_slice()
    }

    /// The template source.
    pub fn source(&self) -> (r: &str)
        ensures
            r@ == self.spec_source(),
    {
        self.source.as_str()
    }
}

impl Lit {
    /// Splits text into its leading whitespace, its trimmed value and its
    /// trailing whitespace (template whitespace: space, tab, CR, LF).
    pub fn split_ws_parts(s: &str) -> (r: Lit)
        ensures
            lit_m(r) == split_ws(s@),
    {
        let c = str_to_chars(s);
        let r = split_lit(&c, 0, c.len());
        assert(c@.subrange(0, c@.len() as int) =~= c@);
        r
    }
}

} // verus!
