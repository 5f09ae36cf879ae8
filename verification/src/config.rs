//! Template configuration: template directories, named syntaxes with their
//! delimiters, escapers by file extension, and the whitespace default.
//! The configuration file is read and decoded elsewhere; this module
//! validates the decoded values and assembles them.

use vstd::prelude::*;
use crate::ast::Whitespace;
use crate::parse::{Syntax, debug_str, debug_quote};
use crate::text::{chars_to_string, spec_is_whitespace, is_whitespace, str_to_chars, string_push_str};

verus! {

/// How whitespace around block tags is handled by default.
#[derive(Clone, Copy, Debug, PartialEq, Eq)]
pub enum WhitespaceHandling {
    /// Whitespace is kept as it is.
    Preserve,
    /// Whitespace before and after blocks is removed.
    Suppress,
    /// Whitespace is reduced to one character, a newline if there was one.
    Minimize,
}

impl WhitespaceHandling {
    /// The marker that has the same effect.
    pub fn to_whitespace(self) -> (r: Whitespace)
        ensures
            r == (match self {
                WhitespaceHandling::Suppress => Whitespace::Suppress,
                WhitespaceHandling::Preserve => Whitespace::Preserve,
                WhitespaceHandling::Minimize => Whitespace::Minimize,
            }),
    {
        match self {
            WhitespaceHandling::Suppress => Whitespace::Suppress,
            WhitespaceHandling::Preserve => Whitespace::Preserve,
            WhitespaceHandling::Minimize => Whitespace::Minimize,
        }
    }
}

impl Default for WhitespaceHandling {
    fn default() -> (r: Self)
        ensures
            r == WhitespaceHandling::Preserve,
    {
        WhitespaceHandling::Preserve
    }
}

/// An error in the configuration, with its message.
#[derive(Debug, Clone, PartialEq, Eq)]
pub struct CompileError {
    pub msg: String,
}

/// The `[general]` table of the configuration.
#[derive(Debug, Clone)]
pub struct General {
    pub dirs: Option<Vec<String>>,
    pub default_syntax: Option<String>,
    pub whitespace: WhitespaceHandling,
}

/// One `[[syntax]]` entry: a name and the delimiters it changes.
#[derive(Debug, Clone)]
pub struct RawSyntax {
    pub name: String,
    pub block_start: Option<String>,
    pub block_end: Option<String>,
    pub expr_start: Option<String>,
    pub expr_end: Option<String>,
    pub comment_start: Option<String>,
    pub comment_end: Option<String>,
}

/// One `[[escaper]]` entry: the escaper's path and the extensions it is for.
#[derive(Debug, Clone)]
pub struct RawEscaper {
    pub path: String,
    pub extensions: Vec<String>,
}

/// The decoded configuration file.
#[derive(Debug, Clone)]
pub struct RawConfig {
    pub general: Option<General>,
    pub syntax: Option<Vec<RawSyntax>>,
    pub escaper: Option<Vec<RawEscaper>>,
}

impl Default for RawConfig {
    /// An empty configuration.
    fn default() -> (r: Self)
        ensures
            r.general is None,
            r.syntax is None,
            r.escaper is None,
    {
        RawConfig { general: None, syntax: None, escaper: None }
    }
}

/// Syntaxes by name, in the order they were defined; names are distinct.
#[derive(Debug)]
pub struct SyntaxMap {
    pub entries: Vec<(String, Syntax)>,
}

pub open spec fn names_of(v: Seq<(String, Syntax)>) -> Seq<Seq<char>> {
    v.map_values(|e: (String, Syntax)| e.0@)
}

impl SyntaxMap {
    /// The syntax named `name`.
    pub fn get(&self, name: &str) -> (r: Option<&Syntax>)
        ensures
            r is Some <==> names_of(self.entries@).contains(name@),
            r matches Some(x) ==> exists|i: int|
                0 <= i < self.entries@.len() && self.entries@[i].0@ == name@ && self.entries@[i].1
                    == *x,
    {
        let mut i: usize = 0;
        while i < self.entries.len()
            invariant
                i <= self.entries@.len(),
                forall|j: int| 0 <= j < i ==> names_of(self.entries@)[j] != name@,
            decreases self.entries.len() - i,
        {
            if crate::text::str_eq(self.entries[i].0.as_str(), name) {
                assert(names_of(self.entries@)[i as int] == name@);
                return Some(&self.entries[i].1);
            }
            i = i + 1;
        }
        None
    }

    /// Whether a syntax named `name` exists.
    pub fn contains_key(&self, name: &str) -> (r: bool)
        ensures
            r == names_of(self.entries@).contains(name@),
    {
        self.get(name).is_some()
    }
}

/// The configuration.
#[derive(Debug)]
pub struct Config {
    pub dirs: Vec<String>,
    pub syntaxes: SyntaxMap,
    pub default_syntax: String,
    pub escapers: Vec<(Vec<String>, String)>,
    pub whitespace: WhitespaceHandling,
}

// ---------------------------------------------------------------------------
// Paths.
// ---------------------------------------------------------------------------

/// `Path::join` on a Unix-style path: an absolute `p` replaces `root`,
/// otherwise the two are joined with one separator.
pub open spec fn join_path(root: Seq<char>, p: Seq<char>) -> Seq<char> {
    if p.len() > 0 && p[0] == '/' {
        p
    } else if root.len() == 0 {
        p
    } else if root.last() == '/' {
        root + p
    } else {
        root + seq!['/'] + p
    }
}

pub fn join_path_exec(root: &str, p: &str) -> (r: String)
    ensures
        r@ == join_path(root@, p@),
{
    let pc = str_to_chars(p);
    let rc = str_to_chars(root);
    if pc.len() > 0 && pc[0] == '/' {
        return p.to_owned();
    }
    if rc.len() == 0 {
        return p.to_owned();
    }
    let mut out = root.to_owned();
    if rc[rc.len() - 1] != '/' {
        string_push_str(&mut out, "/");
        assert("/"@ =~= seq!['/']) by {
            reveal_strlit("/");
        }
    }
    string_push_str(&mut out, p);
    out
}

// ---------------------------------------------------------------------------
// Syntaxes.
// ---------------------------------------------------------------------------

pub open spec fn or_default(o: Option<String>, d: Seq<char>) -> Seq<char> {
    match o {
        Some(s) => s@,
        None => d,
    }
}

/// The six delimiters of a raw syntax, the defaults filling the gaps:
/// block start and end, expression start and end, comment start and end.
pub open spec fn raw_delims(r: RawSyntax) -> Seq<Seq<char>> {
    seq![
        or_default(r.block_start, seq!['{', '%']),
        or_default(r.block_end, seq!['%', '}']),
        or_default(r.expr_start, seq!['{', '{']),
        or_default(r.expr_end, seq!['}', '}']),
        or_default(r.comment_start, seq!['{', '#']),
        or_default(r.comment_end, seq!['#', '}']),
    ]
}

/// Shorter than two bytes in UTF-8: empty, or a single ASCII character.
pub open spec fn too_short(s: Seq<char>) -> bool {
    s.len() == 0 || (s.len() == 1 && (s[0] as u32) < 0x80)
}

pub open spec fn has_ws(s: Seq<char>) -> bool {
    exists|k: int| 0 <= k < s.len() && spec_is_whitespace(#[trigger] s[k])
}

pub open spec fn is_prefix(a: Seq<char>, b: Seq<char>) -> bool {
    a.len() <= b.len() && b.subrange(0, a.len() as int) == a
}

/// The first problem with delimiters `i..6`: one shorter than two bytes,
/// or one containing whitespace.
pub open spec fn delim_problem(ds: Seq<Seq<char>>, i: int) -> Option<Seq<char>>
    decreases 6 - i,
{
    if i < 0 || i >= 6 {
        None
    } else if too_short(ds[i]) {
        Some("delimiters must be at least two characters long: "@ + debug_str(ds[i]))
    } else if has_ws(ds[i]) {
        Some("delimiters may not contain white spaces: "@ + debug_str(ds[i]))
    } else {
        delim_problem(ds, i + 1)
    }
}

pub open spec fn prefix_msg(a: Seq<char>, b: Seq<char>) -> Seq<char> {
    "a delimiter may not be the prefix of another delimiter: "@ + debug_str(a) + " vs "@
        + debug_str(b)
}

/// The first pair of start delimiters (block/expression, block/comment,
/// expression/comment) where one is a prefix of the other.
pub open spec fn prefix_problem(ds: Seq<Seq<char>>) -> Option<Seq<char>> {
    if is_prefix(ds[2], ds[0]) || is_prefix(ds[0], ds[2]) {
        Some(prefix_msg(ds[0], ds[2]))
    } else if is_prefix(ds[4], ds[0]) || is_prefix(ds[0], ds[4]) {
        Some(prefix_msg(ds[0], ds[4]))
    } else if is_prefix(ds[4], ds[2]) || is_prefix(ds[2], ds[4]) {
        Some(prefix_msg(ds[2], ds[4]))
    } else {
        None
    }
}

/// Why a raw syntax is not a valid syntax, if it is not.
pub open spec fn syntax_problem(r: RawSyntax) -> Option<Seq<char>> {
    match delim_problem(raw_delims(r), 0) {
        Some(m) => Some(m),
        None => prefix_problem(raw_delims(r)),
    }
}

pub open spec fn syntax_delims(s: Syntax) -> Seq<Seq<char>> {
    seq![
        s.block_start@,
        s.block_end@,
        s.expr_start@,
        s.expr_end@,
        s.comment_start@,
        s.comment_end@,
    ]
}

fn or_default_exec(o: &Option<String>, d: &[char]) -> (r: String)
    ensures
        r@ == or_default(*o, d@),
{
    match o {
        Some(s) => s.clone(),
        None => chars_to_string(d),
    }
}

fn has_ws_exec(s: &str) -> (r: bool)
    ensures
        r == has_ws(s@),
{
    let c = str_to_chars(s);
    let mut i: usize = 0;
    while i < c.len()
        invariant
            i <= c@.len(),
            c@ == s@,
            forall|k: int| 0 <= k < i ==> !spec_is_whitespace(#[trigger] c@[k]),
        decreases c.len() - i,
    {
        if is_whitespace(c[i]) {
            return true;
        }
        i = i + 1;
    }
    false
}

fn is_prefix_exec(a: &str, b: &str) -> (r: bool)
    ensures
        r == is_prefix(a@, b@),
{
    let ac = str_to_chars(a);
    let bc = str_to_chars(b);
    if ac.len() > bc.len() {
        return false;
    }
    let r = crate::lex::has_tag(&bc, 0, ac.as_slice());
    r
}

fn prefix_msg_exec(a: &str, b: &str) -> (r: String)
    ensures
        r@ == prefix_msg(a@, b@),
{
    let mut m = "a delimiter may not be the prefix of another delimiter: ".to_owned();
    string_push_str(&mut m, debug_quote(a).as_str());
    string_push_str(&mut m, " vs ");
    string_push_str(&mut m, debug_quote(b).as_str());
    m
}

impl RawSyntax {
    /// The syntax this entry describes, or why it is invalid: every
    /// delimiter must be at least two bytes long and free of whitespace, and
    /// no start delimiter may be a prefix of another.
    pub fn try_into(&self) -> (r: Result<Syntax, CompileError>)
        ensures
            match syntax_problem(*self) {
                Some(m) => r matches Err(e) && e.msg@ == m,
                None => r matches Ok(s) && syntax_delims(s) == raw_delims(*self),
            },
    {
        let syntax = Syntax {
            block_start: or_default_exec(&self.block_start, &['{', '%']),
            block_end: or_default_exec(&self.block_end, &['%', '}']),
            expr_start: or_default_exec(&self.expr_start, &['{', '{']),
            expr_end: or_default_exec(&self.expr_end, &['}', '}']),
            comment_start: or_default_exec(&self.comment_start, &['{', '#']),
            comment_end: or_default_exec(&self.comment_end, &['#', '}']),
        };
        let ghost ds = raw_delims(*self);
        assert(syntax_delims(syntax) =~= ds);
        let mut i: usize = 0;
        while i < 6
            invariant
                i <= 6,
                ds == raw_delims(*self),
                syntax_delims(syntax) == ds,
                delim_problem(ds, i as int) == delim_problem(ds, 0),
            decreases 6 - i,
        {
            let d: &str = if i == 0 {
                syntax.block_start.as_str()
            } else if i == 1 {
                syntax.block_end.as_str()
            } else if i == 2 {
                syntax.expr_start.as_str()
            } else if i == 3 {
                syntax.expr_end.as_str()
            } else if i == 4 {
                syntax.comment_start.as_str()
            } else {
                syntax.comment_end.as_str()
            };
            assert(d@ == ds[i as int]);
            let dc = str_to_chars(d);
            if dc.len() == 0 || (dc.len() == 1 && (dc[0] as u32) < 0x80) {
                let mut m = "delimiters must be at least two characters long: ".to_owned();
                string_push_str(&mut m, debug_quote(d).as_str());
                return Err(CompileError { msg: m });
            }
            if has_ws_exec(d) {
                let mut m = "delimiters may not contain white spaces: ".to_owned();
                string_push_str(&mut m, debug_quote(d).as_str());
                return Err(CompileError { msg: m });
            }
            i = i + 1;
        }
        let bs = syntax.block_start.as_str();
        let es = syntax.expr_start.as_str();
        let cs = syntax.comment_start.as_str();
        if is_prefix_exec(es, bs) || is_prefix_exec(bs, es) {
            return Err(CompileError { msg: prefix_msg_exec(bs, es) });
        }
        if is_prefix_exec(cs, bs) || is_prefix_exec(bs, cs) {
            return Err(CompileError { msg: prefix_msg_exec(bs, cs) });
        }
        if is_prefix_exec(cs, es) || is_prefix_exec(es, cs) {
            return Err(CompileError { msg: prefix_msg_exec(es, cs) });
        }
        Ok(syntax)
    }
}


// ---------------------------------------------------------------------------
// The configuration.
// ---------------------------------------------------------------------------

/// The whitespace handling a template may name.
pub open spec fn ws_named(t: Seq<char>) -> Option<WhitespaceHandling> {
    if t == "suppress"@ {
        Some(WhitespaceHandling::Suppress)
    } else if t == "minimize"@ {
        Some(WhitespaceHandling::Minimize)
    } else if t == "preserve"@ {
        Some(WhitespaceHandling::Preserve)
    } else {
        None
    }
}

pub open spec fn opt_str(o: Option<&str>) -> Option<Seq<char>> {
    match o {
        Some(x) => Some(x@),
        None => None,
    }
}

pub open spec fn raw_syntaxes(raw: RawConfig) -> Seq<RawSyntax> {
    match raw.syntax {
        Some(v) => v@,
        None => seq![],
    }
}

pub open spec fn raw_escapers(raw: RawConfig) -> Seq<RawEscaper> {
    match raw.escaper {
        Some(v) => v@,
        None => seq![],
    }
}

/// The template directories: each configured one joined to `root`, or
/// `root/templates`.
pub open spec fn dirs_spec(raw: RawConfig, root: Seq<char>) -> Seq<Seq<char>> {
    match raw.general {
        Some(g) => match g.dirs {
            Some(v) => v@.map_values(|d: String| join_path(root, d@)),
            None => seq![join_path(root, "templates"@)],
        },
        None => seq![join_path(root, "templates"@)],
    }
}

/// The name of the default syntax.
pub open spec fn default_name(raw: RawConfig) -> Seq<char> {
    match raw.general {
        Some(g) => match g.default_syntax {
            Some(n) => n@,
            None => "default"@,
        },
        None => "default"@,
    }
}

/// The whitespace handling: the template's setting over the configured one.
pub open spec fn ws_spec(raw: RawConfig, tw: Option<Seq<char>>) -> WhitespaceHandling {
    match tw {
        Some(t) => match ws_named(t) {
            Some(w) => w,
            None => WhitespaceHandling::Preserve,
        },
        None => match raw.general {
            Some(g) => g.whitespace,
            None => WhitespaceHandling::Preserve,
        },
    }
}

/// The names of the syntaxes defined from entry `i` on, after `names`, or
/// the first problem: an invalid syntax or a name defined twice.
pub open spec fn syntax_names_from(v: Seq<RawSyntax>, i: int, names: Seq<Seq<char>>) -> Result<
    Seq<Seq<char>>,
    Seq<char>,
>
    decreases v.len() - i,
{
    if i < 0 || i >= v.len() {
        Ok(names)
    } else {
        match syntax_problem(v[i]) {
            Some(m) => Err(m),
            None => if names.contains(v[i].name@) {
                Err("syntax \""@ + v[i].name@ + "\" is already defined"@)
            } else {
                syntax_names_from(v, i + 1, names.push(v[i].name@))
            },
        }
    }
}

/// Why the configuration is invalid, if it is: an unknown whitespace
/// setting, an invalid or repeated syntax, or a missing default syntax.
pub open spec fn config_problem(raw: RawConfig, tw: Option<Seq<char>>) -> Option<Seq<char>> {
    match tw {
        Some(t) if ws_named(t) is None => Some(
            "invalid value for `whitespace`: \""@ + t + "\""@,
        ),
        _ => match syntax_names_from(raw_syntaxes(raw), 0, seq!["default"@]) {
            Err(m) => Some(m),
            Ok(names) => if names.contains(default_name(raw)) {
                None
            } else {
                Some("default syntax \""@ + default_name(raw) + "\" not found"@)
            },
        },
    }
}

/// The escapers: the configured ones, then the built-in ones.
pub open spec fn escapers_spec(raw: RawConfig) -> Seq<(Seq<Seq<char>>, Seq<char>)> {
    raw_escapers(raw).map_values(
        |e: RawEscaper| (e.extensions@.map_values(|x: String| x@), e.path@),
    ) + seq![
        (seq!["html"@, "htm"@, "svg"@, "xml"@], "::askama::Html"@),
        (seq!["md"@, "none"@, "txt"@, "yml"@, ""@], "::askama::Text"@),
        (seq!["j2"@, "jinja"@, "jinja2"@], "::askama::Html"@),
    ]
}

pub open spec fn escapers_view(v: Seq<(Vec<String>, String)>) -> Seq<(Seq<Seq<char>>, Seq<char>)> {
    v.map_values(|e: (Vec<String>, String)| (e.0@.map_values(|x: String| x@), e.1@))
}

fn strs_of_slice(v: &[&str]) -> (r: Vec<String>)
    ensures
        r@.map_values(|x: String| x@) == v@.map_values(|x: &str| x@),
{
    let mut out: Vec<String> = Vec::new();
    let mut i: usize = 0;
    while i < v.len()
        invariant
            i <= v@.len(),
            out@.len() == i,
            forall|k: int| 0 <= k < i ==> (#[trigger] out@[k])@ == v@[k]@,
        decreases v.len() - i,
    {
        out.push(v[i].to_owned());
        i = i + 1;
    }
    assert(out@.map_values(|x: String| x@) =~= v@.map_values(|x: &str| x@));
    out
}

fn clone_strs(v: &Vec<String>) -> (r: Vec<String>)
    ensures
        r@.map_values(|x: String| x@) == v@.map_values(|x: String| x@),
{
    let mut out: Vec<String> = Vec::new();
    let mut i: usize = 0;
    while i < v.len()
        invariant
            i <= v@.len(),
            out@.len() == i,
            forall|k: int| 0 <= k < i ==> (#[trigger] out@[k])@ == v@[k]@,
        decreases v.len() - i,
    {
        out.push(v[i].clone());
        i = i + 1;
    }
    assert(out@.map_values(|x: String| x@) =~= v@.map_values(|x: String| x@));
    out
}

impl Config {
    /// Assembles the configuration from the decoded file `raw`, the crate's
    /// root directory and the template's own whitespace setting.
    pub fn new(raw: RawConfig, root: &str, template_whitespace: Option<&str>) -> (r: Result<
        Config,
        CompileError,
    >)
        ensures
            match config_problem(raw, opt_str(template_whitespace)) {
                Some(m) => r matches Err(e) && e.msg@ == m,
                None => r matches Ok(c) && {
                    &&& c.dirs@.map_values(|d: String| d@) == dirs_spec(raw, root@)
                    &&& syntax_names_from(raw_syntaxes(raw), 0, seq!["default"@]) == Ok::<
                        Seq<Seq<char>>,
                        Seq<char>,
                    >(names_of(c.syntaxes.entries@))
                    &&& syntax_delims(c.syntaxes.entries@[0].1) == seq![
                        seq!['{', '%'],
                        seq!['%', '}'],
                        seq!['{', '{'],
                        seq!['}', '}'],
                        seq!['{', '#'],
                        seq!['#', '}'],
                    ]
                    &&& forall|i: int|
                        0 <= i < raw_syntaxes(raw).len() ==> syntax_delims(
                            #[trigger] c.syntaxes.entries@[i + 1].1,
                        ) == raw_delims(raw_syntaxes(raw)[i])
                    &&& c.default_syntax@ == default_name(raw)
                    &&& c.whitespace == ws_spec(raw, opt_str(template_whitespace))
                    &&& escapers_view(c.escapers@) == escapers_spec(raw)
                },
            },
    {
        let ghost tw = opt_str(template_whitespace);
        let mut dirs: Vec<String> = Vec::new();
        let mut default_syntax = "default".to_owned();
        let mut whitespace = WhitespaceHandling::Preserve;
        let mut dirs_given = false;
        match &raw.general {
            Some(g) => {
                match &g.dirs {
                    Some(v) => {
                        dirs_given = true;
                        let mut i: usize = 0;
                        while i < v.len()
                            invariant
                                i <= v@.len(),
                                dirs@.len() == i,
                                forall|k: int|
                                    0 <= k < i ==> (#[trigger] dirs@[k])@ == join_path(
                                        root@,
                                        v@[k]@,
                                    ),
                            decreases v.len() - i,
                        {
                            dirs.push(join_path_exec(root, v[i].as_str()));
                            i = i + 1;
                        }
                        assert(dirs@.map_values(|d: String| d@) =~= v@.map_values(
                            |d: String| join_path(root@, d@),
                        ));
                    },
                    None => {},
                }
                match &g.default_syntax {
                    Some(n) => {
                        default_syntax = n.clone();
                    },
                    None => {},
                }
                whitespace = g.whitespace;
            },
            None => {},
        }
        if !dirs_given {
            dirs.push(join_path_exec(root, "templates"));
            assert(dirs@.map_values(|d: String| d@) =~= seq![join_path(root@, "templates"@)]);
        }
        assert(dirs@.map_values(|d: String| d@) == dirs_spec(raw, root@));
        assert(default_syntax@ == default_name(raw));
        match template_whitespace {
            Some(t) => {
                if crate::text::str_eq(t, "suppress") {
                    whitespace = WhitespaceHandling::Suppress;
                } else if crate::text::str_eq(t, "minimize") {
                    whitespace = WhitespaceHandling::Minimize;
                } else if crate::text::str_eq(t, "preserve") {
                    whitespace = WhitespaceHandling::Preserve;
                } else {
                    let mut m = "invalid value for `whitespace`: \"".to_owned();
                    string_push_str(&mut m, t);
                    string_push_str(&mut m, "\"");
                    return Err(CompileError { msg: m });
                }
            },
            None => {},
        }
        assert(whitespace == ws_spec(raw, tw));
        let mut entries: Vec<(String, Syntax)> = Vec::new();
        entries.push(("default".to_owned(), Syntax::default()));
        let ghost v = raw_syntaxes(raw);
        assert(names_of(entries@) =~= seq!["default"@]);
        match &raw.syntax {
            Some(rs) => {
                let mut i: usize = 0;
                while i < rs.len()
                    invariant
                        i <= rs@.len(),
                        v == rs@,
                        v == raw_syntaxes(raw),
                        tw == opt_str(template_whitespace),
                        match tw {
                            Some(t) => ws_named(t) is Some,
                            None => true,
                        },
                        entries@.len() == i + 1,
                        syntax_delims(entries@[0].1) == seq![
                            seq!['{', '%'],
                            seq!['%', '}'],
                            seq!['{', '{'],
                            seq!['}', '}'],
                            seq!['{', '#'],
                            seq!['#', '}'],
                        ],
                        forall|k: int|
                            0 <= k < i ==> syntax_delims(#[trigger] entries@[k + 1].1) == raw_delims(
                                v[k],
                            ),
                        syntax_names_from(v, i as int, names_of(entries@)) == syntax_names_from(
                            v,
                            0,
                            seq!["default"@],
                        ),
                    decreases rs.len() - i,
                {
                    let syn = match RawSyntax::try_into(&rs[i]) {
                        Ok(x) => x,
                        Err(e) => {
                            return Err(e);
                        },
                    };
                    let m = SyntaxMap { entries };
                    let present = m.contains_key(rs[i].name.as_str());
                    entries = m.entries;
                    if present {
                        let mut msg = "syntax \"".to_owned();
                        string_push_str(&mut msg, rs[i].name.as_str());
                        string_push_str(&mut msg, "\" is already defined");
                        return Err(CompileError { msg });
                    }
                    let ghost old = entries@;
                    entries.push((rs[i].name.clone(), syn));
                    assert(names_of(entries@) =~= names_of(old).push(v[i as int].name@));
                    i = i + 1;
                }
            },
            None => {},
        }
        let syntaxes = SyntaxMap { entries };
        if !syntaxes.contains_key(default_syntax.as_str()) {
            let mut msg = "default syntax \"".to_owned();
            string_push_str(&mut msg, default_syntax.as_str());
            string_push_str(&mut msg, "\" not found");
            return Err(CompileError { msg });
        }
        let mut escapers: Vec<(Vec<String>, String)> = Vec::new();
        match &raw.escaper {
            Some(es) => {
                let mut i: usize = 0;
                while i < es.len()
                    invariant
                        i <= es@.len(),
                        escapers@.len() == i,
                        forall|k: int|
                            0 <= k < i ==> (#[trigger] escapers@[k]).0@.map_values(|x: String| x@)
                                == es@[k].extensions@.map_values(|x: String| x@) && escapers@[k].1@
                                == es@[k].path@,
                    decreases es.len() - i,
                {
                    let ext = clone_strs(&es[i].extensions);
                    escapers.push((ext, es[i].path.clone()));
                    i = i + 1;
                }
                assert(escapers_view(escapers@) =~= es@.map_values(
                    |e: RawEscaper| (e.extensions@.map_values(|x: String| x@), e.path@),
                ));
            },
            None => {},
        }
        let ghost configured = escapers_view(escapers@);
        let html_ext: &[&str] = &["html", "htm", "svg", "xml"];
        let text_ext: &[&str] = &["md", "none", "txt", "yml", ""];
        let jinja_ext: &[&str] = &["j2", "jinja", "jinja2"];
        assert(html_ext@.map_values(|x: &str| x@) =~= seq!["html"@, "htm"@, "svg"@, "xml"@]);
        assert(text_ext@.map_values(|x: &str| x@) =~= seq!["md"@, "none"@, "txt"@, "yml"@, ""@]);
        assert(jinja_ext@.map_values(|x: &str| x@) =~= seq!["j2"@, "jinja"@, "jinja2"@]);
        escapers.push((strs_of_slice(html_ext), "::askama::Html".to_owned()));
        escapers.push((strs_of_slice(text_ext), "::askama::Text".to_owned()));
        escapers.push((strs_of_slice(jinja_ext), "::askama::Html".to_owned()));
        assert(escapers_view(escapers@) =~= escapers_spec(raw));
        Ok(Config { dirs, syntaxes, default_syntax, escapers, whitespace })
    }
}

} // verus!
