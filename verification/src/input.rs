//! What a template's attributes say besides its source: the file extension
//! that picks the escaper and the MIME type, the debug printing mode, and
//! where the source comes from.
//!
//! Paths are Unix-style strings: components are separated by `/`, empty
//! and `.` components are ignored, as `std::path::Path` does.

use vstd::prelude::*;
use crate::config::CompileError;
use crate::text::{str_eq, str_to_chars, string_push_str, chars_to_string};

verus! {

// ---------------------------------------------------------------------------
// Paths.
// ---------------------------------------------------------------------------

/// The index of the last `c` in `s`, or -1.
pub open spec fn last_index(s: Seq<char>, c: char) -> int
    decreases s.len(),
{
    if s.len() == 0 {
        -1
    } else if s.last() == c {
        s.len() - 1
    } else {
        last_index(s.drop_last(), c)
    }
}

pub proof fn lemma_last_index(s: Seq<char>, c: char)
    ensures
        -1 <= last_index(s, c) < s.len(),
        last_index(s, c) >= 0 ==> s[last_index(s, c)] == c,
        forall|j: int| last_index(s, c) < j < s.len() ==> s[j] != c,
    decreases s.len(),
{
    if s.len() > 0 && s.last() != c {
        lemma_last_index(s.drop_last(), c);
        assert forall|j: int| last_index(s, c) < j < s.len() implies s[j] != c by {
            if j < s.len() - 1 {
                assert(s.drop_last()[j] == s[j]);
            }
        }
    }
}

/// The last component of a path, if it is a name (not `..`, and the path
/// is not empty or a root).
pub open spec fn file_name(p: Seq<char>) -> Option<Seq<char>>
    decreases p.len(),
{
    if p.len() == 0 {
        None
    } else if p.last() == '/' {
        file_name(p.drop_last())
    } else {
        let k = last_index(p, '/');
        let comp = p.subrange(k + 1, p.len() as int);
        if comp == seq!['.'] {
            proof {
                lemma_last_index(p, '/');
            }
            file_name(p.subrange(0, k + 1))
        } else if comp == seq!['.', '.'] {
            None
        } else {
            Some(comp)
        }
    }
}

/// The extension of a file name: what follows its last dot, unless that dot
/// is the name's first character or there is none.
pub open spec fn name_ext(n: Seq<char>) -> Option<Seq<char>> {
    let k = last_index(n, '.');
    if k <= 0 {
        None
    } else {
        Some(n.subrange(k + 1, n.len() as int))
    }
}

/// A file name without its extension.
pub open spec fn name_stem(n: Seq<char>) -> Seq<char> {
    let k = last_index(n, '.');
    if k <= 0 {
        n
    } else {
        n.subrange(0, k)
    }
}

/// `Path::extension`.
pub open spec fn path_ext(p: Seq<char>) -> Option<Seq<char>> {
    match file_name(p) {
        Some(n) => name_ext(n),
        None => None,
    }
}

pub open spec fn is_jinja_ext(e: Seq<char>) -> bool {
    e == "j2"@ || e == "jinja"@ || e == "jinja2"@
}

/// The extension that decides how a template is escaped: the file's
/// extension, or, behind a Jinja extension (`j2`, `jinja`, `jinja2`), the
/// extension before it when there is one.
pub open spec fn template_ext(p: Seq<char>) -> Option<Seq<char>> {
    match path_ext(p) {
        None => None,
        Some(e) => if is_jinja_ext(e) {
            match path_ext(name_stem(file_name(p).unwrap())) {
                Some(x) => Some(x),
                None => Some(e),
            }
        } else {
            Some(e)
        },
    }
}

fn last_index_exec(v: &Vec<char>, end: usize, c: char) -> (r: Option<usize>)
    requires
        end <= v@.len(),
    ensures
        last_index(v@.subrange(0, end as int), c) < 0 ==> r is None,
        last_index(v@.subrange(0, end as int), c) >= 0 ==> r == Some(
            last_index(v@.subrange(0, end as int), c) as usize,
        ),
        last_index(v@.subrange(0, end as int), c) < end,
{
    let mut k: usize = end;
    proof {
        lemma_last_index(v@.subrange(0, end as int), c);
    }
    while k > 0
        invariant
            k <= end <= v@.len(),
            last_index(v@.subrange(0, end as int), c) == last_index(v@.subrange(0, k as int), c),
            last_index(v@.subrange(0, k as int), c) < k,
        decreases k,
    {
        assert(v@.subrange(0, k as int).drop_last() =~= v@.subrange(0, k - 1));
        proof {
            lemma_last_index(v@.subrange(0, k - 1), c);
        }
        if v[k - 1] == c {
            return Some(k - 1);
        }
        k = k - 1;
    }
    None
}

fn sub_chars(v: &Vec<char>, lo: usize, hi: usize) -> (r: Vec<char>)
    requires
        lo <= hi <= v@.len(),
    ensures
        r@ == v@.subrange(lo as int, hi as int),
{
    let mut out: Vec<char> = Vec::new();
    let mut k: usize = lo;
    while k < hi
        invariant
            lo <= k <= hi <= v@.len(),
            out@ == v@.subrange(lo as int, k as int),
        decreases hi - k,
    {
        out.push(v[k]);
        k = k + 1;
        assert(out@ =~= v@.subrange(lo as int, k as int));
    }
    out
}

fn file_name_exec(v: &Vec<char>) -> (r: Option<Vec<char>>)
    ensures
        match file_name(v@) {
            Some(n) => r matches Some(x) && x@ == n,
            None => r is None,
        },
{
    let mut end: usize = v.len();
    assert(v@.subrange(0, end as int) =~= v@);
    while end > 0
        invariant
            end <= v@.len(),
            file_name(v@) == file_name(v@.subrange(0, end as int)),
        decreases end,
    {
        let ghost p = v@.subrange(0, end as int);
        assert(p.drop_last() =~= v@.subrange(0, end - 1));
        if v[end - 1] == '/' {
            end = end - 1;
        } else {
            let k = last_index_exec(v, end, '/');
            let start: usize = match k {
                Some(x) => x + 1,
                None => 0,
            };
            proof {
                lemma_last_index(p, '/');
                assert(p.last() == v@[end - 1]);
                assert(start == last_index(p, '/') + 1);
            }
            assert(p.subrange(start as int, p.len() as int) =~= v@.subrange(
                start as int,
                end as int,
            ));
            if end - start == 1 && v[start] == '.' {
                assert(v@.subrange(start as int, end as int) =~= seq!['.']);
                assert(p.subrange(0, start as int) =~= v@.subrange(0, start as int));
                end = start;
            } else if end - start == 2 && v[start] == '.' && v[start + 1] == '.' {
                assert(v@.subrange(start as int, end as int) =~= seq!['.', '.']);
                return None;
            } else {
                assert(v@.subrange(start as int, end as int).len() != 1 || v@.subrange(
                    start as int,
                    end as int,
                )[0] != seq!['.'][0]);
                assert(v@.subrange(start as int, end as int).len() != 2 || v@.subrange(
                    start as int,
                    end as int,
                )[0] != seq!['.', '.'][0] || v@.subrange(start as int, end as int)[1] != seq![
                    '.',
                    '.',
                ][1]);
                return Some(sub_chars(v, start, end));
            }
        }
    }
    assert(v@.subrange(0, 0) =~= Seq::<char>::empty());
    None
}

fn name_ext_exec(n: &Vec<char>) -> (r: Option<Vec<char>>)
    ensures
        match name_ext(n@) {
            Some(e) => r matches Some(x) && x@ == e,
            None => r is None,
        },
{
    assert(n@.subrange(0, n@.len() as int) =~= n@);
    let k = last_index_exec(n, n.len(), '.');
    match k {
        Some(k) => {
            if k == 0 {
                None
            } else {
                Some(sub_chars(n, k + 1, n.len()))
            }
        },
        None => None,
    }
}

fn name_stem_exec(n: &Vec<char>) -> (r: Vec<char>)
    ensures
        r@ == name_stem(n@),
{
    assert(n@.subrange(0, n@.len() as int) =~= n@);
    let k = last_index_exec(n, n.len(), '.');
    match k {
        Some(k) => {
            if k == 0 {
                sub_chars(n, 0, n.len())
            } else {
                sub_chars(n, 0, k)
            }
        },
        None => sub_chars(n, 0, n.len()),
    }
}

fn path_ext_exec(v: &Vec<char>) -> (r: Option<Vec<char>>)
    ensures
        match path_ext(v@) {
            Some(e) => r matches Some(x) && x@ == e,
            None => r is None,
        },
{
    match file_name_exec(v) {
        Some(n) => name_ext_exec(&n),
        None => None,
    }
}

/// `Path::extension` of `path`.
pub fn path_extension(path: &str) -> (r: Option<String>)
    ensures
        match path_ext(path@) {
            Some(e) => r matches Some(x) && x@ == e,
            None => r is None,
        },
{
    let v = str_to_chars(path);
    match path_ext_exec(&v) {
        Some(e) => Some(chars_to_string(e.as_slice())),
        None => None,
    }
}

/// The extension of the template at `path` that decides its escaping and
/// MIME type (see `template_ext`).
pub fn extension(path: &str) -> (r: Option<String>)
    ensures
        match template_ext(path@) {
            Some(e) => r matches Some(x) && x@ == e,
            None => r is None,
        },
{
    let v = str_to_chars(path);
    let e = match path_ext_exec(&v) {
        Some(e) => e,
        None => {
            return None;
        },
    };
    let es = chars_to_string(e.as_slice());
    if str_eq(es.as_str(), "j2") || str_eq(es.as_str(), "jinja") || str_eq(es.as_str(), "jinja2") {
        let n = match file_name_exec(&v) {
            Some(n) => n,
            None => {
                return None;
            },
        };
        let stem = name_stem_exec(&n);
        match path_ext_exec(&stem) {
            Some(x) => Some(chars_to_string(x.as_slice())),
            None => Some(es),
        }
    } else {
        Some(es)
    }
}

/// The extension given in the attributes, or else the one of the path.
pub fn ext_default_to_path(ext: Option<&str>, path: &str) -> (r: Option<String>)
    ensures
        match ext {
            Some(x) => r matches Some(y) && y@ == x@,
            None => match template_ext(path@) {
                Some(e) => r matches Some(y) && y@ == e,
                None => r is None,
            },
        },
{
    match ext {
        Some(x) => Some(x.to_owned()),
        None => extension(path),
    }
}


// ---------------------------------------------------------------------------
// Where the source comes from, and what to print.
// ---------------------------------------------------------------------------

/// Ways to specify the source of a template.
#[derive(Debug, Clone, PartialEq, Eq)]
pub enum Source {
    /// A file, relative to the template directories.
    Path(String),
    /// The source itself.
    Source(String),
}

/// Debug information printed while compiling a template.
#[derive(Debug, Clone, Copy, PartialEq, Eq)]
pub enum Print {
    /// Everything.
    All,
    /// The parsed syntax tree.
    Ast,
    /// The generated code.
    Code,
    /// Nothing (`none`).
    Nothing,
}

impl Default for Print {
    fn default() -> (r: Self)
        ensures
            r == Print::Nothing,
    {
        Print::Nothing
    }
}

/// The printing mode a name stands for.
pub open spec fn print_named(s: Seq<char>) -> Option<Print> {
    if s == "all"@ {
        Some(Print::All)
    } else if s == "ast"@ {
        Some(Print::Ast)
    } else if s == "code"@ {
        Some(Print::Code)
    } else if s == "none"@ {
        Some(Print::Nothing)
    } else {
        None
    }
}

impl Print {
    /// Reads a printing mode: `all`, `ast`, `code` or `none`.
    pub fn from_str(s: &str) -> (r: Result<Print, CompileError>)
        ensures
            match print_named(s@) {
                Some(p) => r == Ok::<Print, CompileError>(p),
                None => r matches Err(e) && e.msg@ == "invalid value for print option: "@ + s@,
            },
    {
        if str_eq(s, "all") {
            Ok(Print::All)
        } else if str_eq(s, "ast") {
            Ok(Print::Ast)
        } else if str_eq(s, "code") {
            Ok(Print::Code)
        } else if str_eq(s, "none") {
            Ok(Print::Nothing)
        } else {
            let mut msg = "invalid value for print option: ".to_owned();
            string_push_str(&mut msg, s);
            Err(CompileError { msg })
        }
    }
}

// ---------------------------------------------------------------------------
// MIME types.
// ---------------------------------------------------------------------------

/// The MIME type that `mime_guess` gives first for a file extension, as
/// text; `application/octet-stream` when it knows none.
pub uninterp spec fn guessed_mime(ext: Seq<char>) -> Seq<char>;

/// `mime_guess::from_ext(ext).first_or_octet_stream()`, as text. The
/// contract names the result (`guessed_mime`) and states the one case its
/// source settles in a line: no extension, no guess.
#[verifier::external_body]
fn guess_mime(ext: &str) -> (r: String)
    ensures
        r@ == guessed_mime(ext@),
        ext@.len() == 0 ==> r@ == "application/octet-stream"@,
{
    mime_guess::from_ext(ext).first_or_octet_stream().to_string()
}

/// The text MIME types that are given with a UTF-8 charset.
pub open spec fn with_charset(m: Seq<char>) -> Seq<char> {
    if m == "text/plain"@ {
        "text/plain; charset=utf-8"@
    } else if m == "text/html"@ {
        "text/html; charset=utf-8"@
    } else if m == "text/css"@ {
        "text/css; charset=utf-8"@
    } else if m == "text/csv"@ {
        "text/csv; charset=utf-8"@
    } else if m == "text/tab-separated-values"@ {
        "text/tab-separated-values; charset=utf-8"@
    } else if m == "application/javascript"@ {
        "application/javascript; charset=utf-8"@
    } else {
        m
    }
}

/// The MIME type of a template's output, from its extension: the guessed
/// type, with a UTF-8 charset for the text types.
pub fn extension_to_mime_type(ext: &str) -> (r: String)
    ensures
        r@ == with_charset(guessed_mime(ext@)),
{
    let basic = guess_mime(ext);
    charset_for(basic)
}

/// The MIME type with a UTF-8 charset added where it is a text type.
pub fn charset_for(basic: String) -> (r: String)
    ensures
        r@ == with_charset(basic@),
{
    let b = basic.as_str();
    if str_eq(b, "text/plain") {
        "text/plain; charset=utf-8".to_owned()
    } else if str_eq(b, "text/html") {
        "text/html; charset=utf-8".to_owned()
    } else if str_eq(b, "text/css") {
        "text/css; charset=utf-8".to_owned()
    } else if str_eq(b, "text/csv") {
        "text/csv; charset=utf-8".to_owned()
    } else if str_eq(b, "text/tab-separated-values") {
        "text/tab-separated-values; charset=utf-8".to_owned()
    } else if str_eq(b, "application/javascript") {
        "application/javascript; charset=utf-8".to_owned()
    } else {
        basic
    }
}


/// A template's source as read from its file: without the one newline at
/// its end, if there is one.
pub fn strip_final_newline(source: String) -> (r: String)
    ensures
        source@.len() > 0 && source@.last() == '\n' ==> r@ == source@.drop_last(),
        !(source@.len() > 0 && source@.last() == '\n') ==> r@ == source@,
{
    let c = str_to_chars(source.as_str());
    if c.len() > 0 && c[c.len() - 1] == '\n' {
        let mut v: Vec<char> = Vec::new();
        let mut i: usize = 0;
        while i < c.len() - 1
            invariant
                c.len() > 0,
                i <= c@.len() - 1,
                v@ == c@.subrange(0, i as int),
            decreases c.len() - 1 - i,
        {
            v.push(c[i]);
            i = i + 1;
            assert(v@ =~= c@.subrange(0, i as int));
        }
        assert(c@.drop_last() =~= c@.subrange(0, i as int));
        chars_to_string(v.as_slice())
    } else {
        source
    }
}

} // verus!
