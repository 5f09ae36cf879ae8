//! Finding a template file: next to the template that refers to it, or in
//! the template directory.
//!
//! Paths are compared as lists of components, as `std::path::Path` does:
//! empty and `.` components are dropped. Which files exist is the caller's
//! knowledge; it is handed in as the list of the existing templates' paths,
//! relative to the template directory and written in normal form.

use vstd::prelude::*;
use crate::input::{last_index, lemma_last_index};
use crate::config::{CompileError, Config};
use crate::parse::{debug_quote, debug_str};
use crate::text::{str_to_chars, chars_to_string, string_push_str};

verus! {

/// The components of a relative path: the pieces between `/`, without the
/// empty ones and `.`.
pub open spec fn components(p: Seq<char>) -> Seq<Seq<char>>
    decreases p.len(),
{
    if p.len() == 0 {
        seq![]
    } else {
        let k = last_index(p, '/');
        let c = p.subrange(k + 1, p.len() as int);
        let rest: Seq<Seq<char>> = if k < 0 {
            seq![]
        } else {
            proof {
                lemma_last_index(p, '/');
            }
            components(p.subrange(0, k))
        };
        if c.len() == 0 || c == seq!['.'] {
            rest
        } else {
            rest.push(c)
        }
    }
}

/// Components joined by `/`.
pub open spec fn join_components(cs: Seq<Seq<char>>) -> Seq<char>
    decreases cs.len(),
{
    if cs.len() == 0 {
        seq![]
    } else if cs.len() == 1 {
        cs[0]
    } else {
        join_components(cs.drop_last()) + seq!['/'] + cs.last()
    }
}

/// The normal form of a relative path.
pub open spec fn normal(p: Seq<char>) -> Seq<char> {
    join_components(components(p))
}

/// The path of `path` taken relative to the directory of the template at
/// `rel`: the components of `rel` but its last, then those of `path`.
pub open spec fn relative_candidate(rel: Seq<char>, path: Seq<char>) -> Seq<char> {
    join_components(components(rel).drop_last() + components(path))
}

/// A relative path that names a file: not absolute, with a last component
/// that is not `..`.
pub open spec fn names_file(p: Seq<char>) -> bool {
    &&& (p.len() == 0 || p[0] != '/')
    &&& components(p).len() > 0
    &&& components(p).last() != seq!['.', '.']
}

/// The normal form of an absolute path: `/` and its components.
pub open spec fn absolute_normal(p: Seq<char>) -> Seq<char> {
    seq!['/'] + normal(p)
}

/// Where `find_template_from_path` finds `path`: a relative path next to
/// `start_at` when a file exists there, else in the template directory
/// when it exists there; an absolute path where it is, when it exists.
pub open spec fn find_spec(
    path: Seq<char>,
    start_at: Option<Seq<char>>,
    existing: Seq<Seq<char>>,
) -> Option<Seq<char>> {
    if path.len() > 0 && path[0] == '/' {
        if existing.contains(absolute_normal(path)) {
            Some(path)
        } else {
            None
        }
    } else {
        match start_at {
            Some(rel) if existing.contains(relative_candidate(rel, path)) => Some(
                relative_candidate(rel, path),
            ),
            _ => if existing.contains(normal(path)) {
                Some(path)
            } else {
                None
            },
        }
    }
}

proof fn lemma_last_index_after(s: Seq<char>, c: char, start: int)
    requires
        0 <= start <= s.len(),
        start == 0 || s[start - 1] == c,
        forall|j: int| start <= j < s.len() ==> s[j] != c,
    ensures
        last_index(s, c) == start - 1,
    decreases s.len(),
{
    if s.len() > start {
        assert forall|j: int| start <= j < s.drop_last().len() implies s.drop_last()[j] != c by {
            assert(s.drop_last()[j] == s[j]);
        }
        lemma_last_index_after(s.drop_last(), c, start);
    } else if s.len() > 0 {
        assert(s.last() == c);
    }
}

/// The components of the characters `v` as a vector of strings.
fn components_exec(v: &Vec<char>) -> (r: Vec<Vec<char>>)
    ensures
        r@.map_values(|x: Vec<char>| x@) == components(v@),
{
    let mut acc: Vec<Vec<char>> = Vec::new();
    let mut cur: Vec<char> = Vec::new();
    let mut start: usize = 0;
    let mut i: usize = 0;
    assert(v@.subrange(0, 0) =~= Seq::<char>::empty());
    while i < v.len()
        invariant
            start <= i <= v@.len(),
            start == 0 || v@[start - 1] == '/',
            forall|j: int| start <= j < i ==> v@[j] != '/',
            cur@ == v@.subrange(start as int, i as int),
            acc@.map_values(|x: Vec<char>| x@) == components(v@.subrange(0, start as int)),
        decreases v.len() - i,
    {
        if v[i] == '/' {
            let ghost q = v@.subrange(0, i + 1);
            let ghost r = v@.subrange(0, i as int);
            proof {
                lemma_last_index_after(q, '/', i + 1);
                assert(q.subrange(0, i as int) =~= r);
                assert(q.subrange(i + 1, q.len() as int) =~= Seq::<char>::empty());
                lemma_last_index_after(r, '/', start as int);
                assert(r.subrange(start as int, r.len() as int) =~= cur@);
                if start > 0 {
                    assert(r.subrange(0, start - 1) =~= v@.subrange(0, start - 1));
                    let s0 = v@.subrange(0, start as int);
                    lemma_last_index_after(s0, '/', start as int);
                    assert(s0.subrange(0, start - 1) =~= v@.subrange(0, start - 1));
                    assert(s0.subrange(start as int, s0.len() as int) =~= Seq::<char>::empty());
                }
            }
            proof {
                let rest: Seq<Seq<char>> = if start == 0 {
                    seq![]
                } else {
                    components(v@.subrange(0, start - 1))
                };
                assert(components(v@.subrange(0, start as int)) == rest);
                assert(components(q) == components(r));
                if cur@.len() == 0 || cur@ == seq!['.'] {
                    assert(components(r) == rest);
                } else {
                    assert(components(r) == rest.push(cur@));
                }
            }
            if cur.len() == 0 || (cur.len() == 1 && cur[0] == '.') {
                assert(cur@.len() == 0 || cur@ =~= seq!['.']);
            } else {
                assert(cur@.len() != 1 || cur@[0] != seq!['.'][0]);
                let ghost old_acc = acc@;
                acc.push(cur);
                assert(acc@.map_values(|x: Vec<char>| x@) =~= old_acc.map_values(
                    |x: Vec<char>| x@,
                ).push(v@.subrange(start as int, i as int)));
            }
            cur = Vec::new();
            start = i + 1;
            assert(cur@ =~= v@.subrange(start as int, (i + 1) as int));
        } else {
            cur.push(v[i]);
            assert(cur@ =~= v@.subrange(start as int, (i + 1) as int));
        }
        i = i + 1;
    }
    let ghost p = v@;
    proof {
        assert(v@.subrange(0, i as int) =~= p);
        if p.len() > 0 {
            lemma_last_index_after(p, '/', start as int);
            assert(p.subrange(start as int, p.len() as int) =~= cur@);
            if start > 0 {
                let s0 = v@.subrange(0, start as int);
                lemma_last_index_after(s0, '/', start as int);
                assert(s0.subrange(0, start - 1) =~= v@.subrange(0, start - 1));
                assert(s0.subrange(start as int, s0.len() as int) =~= Seq::<char>::empty());
            }
        }
    }
    if cur.len() == 0 || (cur.len() == 1 && cur[0] == '.') {
        assert(cur@.len() == 0 || cur@ =~= seq!['.']);
    } else {
        assert(cur@.len() != 1 || cur@[0] != seq!['.'][0]);
        let ghost old_acc = acc@;
        acc.push(cur);
        assert(acc@.map_values(|x: Vec<char>| x@) =~= old_acc.map_values(|x: Vec<char>| x@).push(
            v@.subrange(start as int, i as int),
        ));
    }
    acc
}

/// The components joined by `/`.
fn join_exec(cs: &Vec<Vec<char>>) -> (r: Vec<char>)
    ensures
        r@ == join_components(cs@.map_values(|x: Vec<char>| x@)),
{
    let ghost m = cs@.map_values(|x: Vec<char>| x@);
    let mut out: Vec<char> = Vec::new();
    let mut i: usize = 0;
    while i < cs.len()
        invariant
            i <= cs@.len(),
            m == cs@.map_values(|x: Vec<char>| x@),
            out@ == join_components(m.subrange(0, i as int)),
        decreases cs.len() - i,
    {
        if i > 0 {
            out.push('/');
        }
        crate::text::extend_chars(&mut out, cs[i].as_slice());
        assert(m.subrange(0, i + 1).drop_last() =~= m.subrange(0, i as int));
        assert(m[i as int] == cs@[i as int]@);
        i = i + 1;
        assert(out@ =~= join_components(m.subrange(0, i as int)));
    }
    assert(m.subrange(0, i as int) =~= m);
    out
}

fn contains_exec(existing: &Vec<String>, p: &Vec<char>) -> (r: bool)
    ensures
        r == existing@.map_values(|x: String| x@).contains(p@),
{
    let ghost m = existing@.map_values(|x: String| x@);
    let s = chars_to_string(p.as_slice());
    let mut i: usize = 0;
    while i < existing.len()
        invariant
            i <= existing@.len(),
            s@ == p@,
            m == existing@.map_values(|x: String| x@),
            forall|j: int| 0 <= j < i ==> m[j] != p@,
        decreases existing.len() - i,
    {
        if crate::text::str_eq(existing[i].as_str(), s.as_str()) {
            assert(m[i as int] == p@);
            return true;
        }
        assert(m[i as int] == existing@[i as int]@);
        i = i + 1;
    }
    assert(!m.contains(p@));
    false
}

/// Finds the template `path`: first next to the template at `start_at`,
/// then in the template directory. `existing` lists the templates that
/// exist, relative to the template directory and in normal form, and files
/// outside it by their absolute paths. The result is `None` when no file
/// is found. An absolute path found while `start_at` is given cannot be
/// made relative to the template directory, and is left out.
pub fn find_template_from_path(path: &str, start_at: Option<&str>, existing: &Vec<String>) -> (r:
    Option<String>)
    requires
        !(path@.len() > 0 && path@[0] == '/' && start_at is Some && existing@.map_values(
            |x: String| x@,
        ).contains(absolute_normal(path@))),
        start_at matches Some(rel) ==> names_file(rel@),
    ensures
        match find_spec(
            path@,
            match start_at {
                Some(rel) => Some(rel@),
                None => None,
            },
            existing@.map_values(|x: String| x@),
        ) {
            Some(p) => r matches Some(x) && x@ == p,
            None => r is None,
        },
{
    let pc = str_to_chars(path);
    let pcs = components_exec(&pc);
    if pc.len() > 0 && pc[0] == '/' {
        let joined = join_exec(&pcs);
        let mut abs: Vec<char> = vec!['/'];
        crate::text::extend_chars(&mut abs, joined.as_slice());
        assert(abs@ =~= absolute_normal(path@));
        if contains_exec(existing, &abs) {
            return Some(path.to_owned());
        } else {
            return None;
        }
    }
    match start_at {
        Some(rel) => {
            let rc = str_to_chars(rel);
            let mut cs = components_exec(&rc);
            let ghost rm = cs@.map_values(|x: Vec<char>| x@);
            let ghost cs0 = cs@;
            cs.pop();
            assert(cs@.map_values(|x: Vec<char>| x@) =~= rm.drop_last()) by {
                assert(cs@ =~= cs0.drop_last());
            }
            let ghost pm = pcs@.map_values(|x: Vec<char>| x@);
            let mut k: usize = 0;
            while k < pcs.len()
                invariant
                    k <= pcs@.len(),
                    rm.len() > 0,
                    pm == pcs@.map_values(|x: Vec<char>| x@),
                    cs@.map_values(|x: Vec<char>| x@) == rm.drop_last() + pm.subrange(0, k as int),
                decreases pcs.len() - k,
            {
                let mut c: Vec<char> = Vec::new();
                crate::text::extend_chars(&mut c, pcs[k].as_slice());
                assert(c@ =~= pm[k as int]);
                let ghost before = cs@;
                cs.push(c);
                assert(cs@.map_values(|x: Vec<char>| x@) =~= before.map_values(|x: Vec<char>| x@).push(
                    pm[k as int],
                ));
                assert(rm.drop_last() + pm.subrange(0, k + 1) =~= (rm.drop_last() + pm.subrange(
                    0,
                    k as int,
                )).push(pm[k as int]));
                k = k + 1;
            }
            assert(pm.subrange(0, k as int) =~= pm);
            let cand = join_exec(&cs);
            if contains_exec(existing, &cand) {
                return Some(chars_to_string(cand.as_slice()));
            }
        },
        None => {},
    }
    let norm = join_exec(&pcs);
    if contains_exec(existing, &norm) {
        Some(path.to_owned())
    } else {
        None
    }
}


// ---------------------------------------------------------------------------
// Looking a template up in the configured directories.
// ---------------------------------------------------------------------------

pub open spec fn is_absolute(p: Seq<char>) -> bool {
    p.len() > 0 && p[0] == '/'
}

/// The normal form of a path, absolute or relative.
pub open spec fn normal_path(p: Seq<char>) -> Seq<char> {
    if is_absolute(p) {
        seq!['/'] + join_components(components(p))
    } else {
        join_components(components(p))
    }
}

/// `dir` joined with `path`, in normal form: `path` itself when absolute.
pub open spec fn joined(dir: Seq<char>, path: Seq<char>) -> Seq<char> {
    if is_absolute(path) {
        normal_path(path)
    } else {
        (if is_absolute(dir) {
            seq!['/']
        } else {
            seq![]
        }) + join_components(components(dir) + components(path))
    }
}

/// The file `path` in the directory of the file at `file`, in normal form.
pub open spec fn beside(file: Seq<char>, path: Seq<char>) -> Seq<char> {
    if is_absolute(path) {
        normal_path(path)
    } else {
        (if is_absolute(file) {
            seq!['/']
        } else {
            seq![]
        }) + join_components(components(file).drop_last() + components(path))
    }
}

/// The first of `dirs` from `i` on in which `path` exists, joined with it.
pub open spec fn first_in_dirs(dirs: Seq<Seq<char>>, i: int, path: Seq<char>, existing: Seq<Seq<char>>) -> Option<Seq<char>>
    decreases dirs.len() - i,
{
    if i < 0 || i >= dirs.len() {
        None
    } else if existing.contains(joined(dirs[i], path)) {
        Some(joined(dirs[i], path))
    } else {
        first_in_dirs(dirs, i + 1, path, existing)
    }
}

/// Paths shown as a list: `[` and `]` around their quoted forms, separated
/// by `, `.
pub open spec fn debug_paths(v: Seq<Seq<char>>) -> Seq<char> {
    "["@ + debug_items(v) + "]"@
}

pub open spec fn debug_items(v: Seq<Seq<char>>) -> Seq<char>
    decreases v.len(),
{
    if v.len() == 0 {
        seq![]
    } else if v.len() == 1 {
        debug_str(v[0])
    } else {
        debug_items(v.drop_last()) + ", "@ + debug_str(v.last())
    }
}

/// Where `Config::find_template` finds `path`, or the error it gives.
pub open spec fn find_in_config(
    dirs: Seq<Seq<char>>,
    path: Seq<char>,
    start_at: Option<Seq<char>>,
    existing: Seq<Seq<char>>,
) -> Result<Seq<char>, Seq<char>> {
    match start_at {
        Some(f) if existing.contains(beside(f, path)) => Ok(beside(f, path)),
        _ => match first_in_dirs(dirs, 0, path, existing) {
            Some(p) => Ok(p),
            None => Err(
                "template "@ + debug_str(path) + " not found in directories "@ + debug_paths(dirs),
            ),
        },
    }
}

fn components_of(s: &str) -> (r: Vec<Vec<char>>)
    ensures
        r@.map_values(|x: Vec<char>| x@) == components(s@),
{
    let v = str_to_chars(s);
    components_exec(&v)
}

/// The components of `a` (without its last one when `drop_last`), then
/// those of `b`, joined; absolute when `absolute`.
fn join_two(
    absolute: bool,
    a: &Vec<Vec<char>>,
    drop_last: bool,
    b: &Vec<Vec<char>>,
) -> (r: String)
    requires
        drop_last ==> a@.len() > 0,
    ensures
        r@ == (if absolute {
            seq!['/']
        } else {
            seq![]
        }) + join_components(
            (if drop_last {
                a@.map_values(|x: Vec<char>| x@).drop_last()
            } else {
                a@.map_values(|x: Vec<char>| x@)
            }) + b@.map_values(|x: Vec<char>| x@),
        ),
{
    let ghost am = a@.map_values(|x: Vec<char>| x@);
    let ghost bm = b@.map_values(|x: Vec<char>| x@);
    let ghost first = if drop_last {
        am.drop_last()
    } else {
        am
    };
    let n: usize = if drop_last {
        a.len() - 1
    } else {
        a.len()
    };
    let mut cs: Vec<Vec<char>> = Vec::new();
    let mut i: usize = 0;
    while i < n
        invariant
            n <= a@.len(),
            n == first.len(),
            i <= n,
            am == a@.map_values(|x: Vec<char>| x@),
            first == (if drop_last {
                am.drop_last()
            } else {
                am
            }),
            cs@.map_values(|x: Vec<char>| x@) == first.subrange(0, i as int),
        decreases n - i,
    {
        let mut c: Vec<char> = Vec::new();
        crate::text::extend_chars(&mut c, a[i].as_slice());
        let ghost before = cs@;
        assert(c@ =~= am[i as int]);
        cs.push(c);
        assert(cs@.map_values(|x: Vec<char>| x@) =~= before.map_values(|x: Vec<char>| x@).push(
            first[i as int],
        ));
        assert(first.subrange(0, i + 1) =~= first.subrange(0, i as int).push(first[i as int]));
        i = i + 1;
    }
    let mut k: usize = 0;
    while k < b.len()
        invariant
            k <= b@.len(),
            bm == b@.map_values(|x: Vec<char>| x@),
            cs@.map_values(|x: Vec<char>| x@) == first + bm.subrange(0, k as int),
        decreases b.len() - k,
    {
        let mut c: Vec<char> = Vec::new();
        crate::text::extend_chars(&mut c, b[k].as_slice());
        let ghost before = cs@;
        assert(c@ =~= bm[k as int]);
        cs.push(c);
        assert(cs@.map_values(|x: Vec<char>| x@) =~= before.map_values(|x: Vec<char>| x@).push(
            bm[k as int],
        ));
        assert(first + bm.subrange(0, k + 1) =~= (first + bm.subrange(0, k as int)).push(
            bm[k as int],
        ));
        k = k + 1;
    }
    assert(bm.subrange(0, k as int) =~= bm);
    let joined_chars = join_exec(&cs);
    let mut out = String::new();
    if absolute {
        crate::text::string_push(&mut out, '/');
    }
    string_push_str(&mut out, chars_to_string(joined_chars.as_slice()).as_str());
    assert(out@ =~= (if absolute {
        seq!['/']
    } else {
        seq![]
    }) + join_components(first + bm));
    out
}

fn starts_with_slash(s: &str) -> (r: bool)
    ensures
        r == is_absolute(s@),
{
    let c = str_to_chars(s);
    c.len() > 0 && c[0] == '/'
}

pub(crate) fn contains_str(existing: &Vec<String>, p: &String) -> (r: bool)
    ensures
        r == existing@.map_values(|x: String| x@).contains(p@),
{
    let v = str_to_chars(p.as_str());
    contains_exec(existing, &v)
}

fn joined_exec(dir: &str, path: &str) -> (r: String)
    ensures
        r@ == joined(dir@, path@),
{
    let pcs = components_of(path);
    if starts_with_slash(path) {
        let empty: Vec<Vec<char>> = Vec::new();
        let r = join_two(true, &empty, false, &pcs);
        assert(empty@.map_values(|x: Vec<char>| x@) + pcs@.map_values(|x: Vec<char>| x@)
            =~= components(path@));
        r
    } else {
        let dcs = components_of(dir);
        join_two(starts_with_slash(dir), &dcs, false, &pcs)
    }
}

fn debug_paths_exec(v: &Vec<String>) -> (r: String)
    ensures
        r@ == debug_paths(v@.map_values(|x: String| x@)),
{
    let ghost m = v@.map_values(|x: String| x@);
    let mut out = "[".to_owned();
    let ghost head = out@;
    let mut i: usize = 0;
    while i < v.len()
        invariant
            i <= v@.len(),
            m == v@.map_values(|x: String| x@),
            out@ == head + debug_items(m.subrange(0, i as int)),
        decreases v.len() - i,
    {
        if i > 0 {
            string_push_str(&mut out, ", ");
        }
        string_push_str(&mut out, debug_quote(v[i].as_str()).as_str());
        assert(m.subrange(0, i + 1).drop_last() =~= m.subrange(0, i as int));
        assert(m[i as int] == v@[i as int]@);
        i = i + 1;
        assert(out@ =~= head + debug_items(m.subrange(0, i as int)));
    }
    assert(m.subrange(0, i as int) =~= m);
    string_push_str(&mut out, "]");
    out
}

impl Config {
    /// Finds the template `path`: first beside the template at `start_at`,
    /// then in each template directory in turn. `existing` lists the files
    /// that exist, by their paths in normal form. The error names the path
    /// and the directories that were searched.
    pub fn find_template(&self, path: &str, start_at: Option<&str>, existing: &Vec<String>) -> (r:
        Result<String, CompileError>)
        requires
            start_at matches Some(f) ==> components(f@).len() > 0 && components(f@).last()
                != seq!['.', '.'],
        ensures
            match find_in_config(
                self.dirs@.map_values(|x: String| x@),
                path@,
                match start_at {
                    Some(f) => Some(f@),
                    None => None,
                },
                existing@.map_values(|x: String| x@),
            ) {
                Ok(p) => r matches Ok(x) && x@ == p,
                Err(m) => r matches Err(e) && e.msg@ == m,
            },
            match start_at {
                Some(f) => existing@.map_values(|x: String| x@).contains(beside(f@, path@)) ==> (
                r matches Ok(x) && x@ == beside(f@, path@)),
                None => true,
            },
    {
        let ghost dm = self.dirs@.map_values(|x: String| x@);
        let ghost em = existing@.map_values(|x: String| x@);
        match start_at {
            Some(f) => {
                let relative = if starts_with_slash(path) {
                    let pcs = components_of(path);
                    let empty: Vec<Vec<char>> = Vec::new();
                    let r = join_two(true, &empty, false, &pcs);
                    assert(empty@.map_values(|x: Vec<char>| x@) + pcs@.map_values(|x: Vec<char>| x@)
                        =~= components(path@));
                    r
                } else {
                    let fcs = components_of(f);
                    let pcs = components_of(path);
                    join_two(starts_with_slash(f), &fcs, true, &pcs)
                };
                assert(relative@ == beside(f@, path@));
                if contains_str(existing, &relative) {
                    return Ok(relative);
                }
            },
            None => {},
        }
        let mut i: usize = 0;
        while i < self.dirs.len()
            invariant
                i <= self.dirs@.len(),
                dm == self.dirs@.map_values(|x: String| x@),
                em == existing@.map_values(|x: String| x@),
                first_in_dirs(dm, 0, path@, em) == first_in_dirs(dm, i as int, path@, em),
                match start_at {
                    Some(f) => !em.contains(beside(f@, path@)),
                    None => true,
                },
            decreases self.dirs.len() - i,
        {
            let rooted = joined_exec(self.dirs[i].as_str(), path);
            assert(dm[i as int] == self.dirs@[i as int]@);
            if contains_str(existing, &rooted) {
                return Ok(rooted);
            }
            i = i + 1;
        }
        let mut msg = "template ".to_owned();
        string_push_str(&mut msg, debug_quote(path).as_str());
        string_push_str(&mut msg, " not found in directories ");
        string_push_str(&mut msg, debug_paths_exec(&self.dirs).as_str());
        Err(CompileError { msg })
    }
}

// ---------------------------------------------------------------------------
// Shortening a path for messages.
// ---------------------------------------------------------------------------

/// Where the components of `cs` start to differ from those of `bs`, from
/// `i`: `None` where `cs` runs out first.
pub open spec fn common_end(bs: Seq<Seq<char>>, cs: Seq<Seq<char>>, i: int) -> Option<int>
    decreases bs.len() - i,
{
    if !(0 <= i < bs.len()) {
        Some(i)
    } else if i >= cs.len() {
        None
    } else if bs[i] != cs[i] {
        Some(i)
    } else {
        common_end(bs, cs, i + 1)
    }
}

/// A path shown relative to the directory `base`: the components after
/// those it shares with `base`, joined by `/`; the whole path where nothing
/// is left or it is no deeper than `base`; `original` where the path could
/// not be resolved (`canonical` is `None`).
pub open spec fn stripped(base: Seq<char>, canonical: Option<Seq<char>>, original: Seq<char>) -> Seq<char> {
    match canonical {
        None => original,
        Some(p) => {
            let cs = components(p);
            match common_end(components(base), cs, 0) {
                None => p,
                Some(k) => if k >= cs.len() {
                    p
                } else {
                    join_components(cs.subrange(k, cs.len() as int))
                },
            }
        },
    }
}

/// The path `canonical` (the resolved form of `original`, if it could be
/// resolved) shown relative to the directory `base`, both absolute (see
/// `stripped`).
pub fn strip_common(base: &str, canonical: Option<&str>, original: &str) -> (r: String)
    ensures
        r@ == stripped(
            base@,
            match canonical {
                Some(p) => Some(p@),
                None => None,
            },
            original@,
        ),
{
    let path = match canonical {
        None => {
            return owned(original);
        },
        Some(p) => p,
    };
    let bs = components_of(base);
    let cs = components_of(path);
    let ghost bm = bs@.map_values(|x: Vec<char>| x@);
    let ghost cm = cs@.map_values(|x: Vec<char>| x@);
    let mut i: usize = 0;
    let mut differ = false;
    while i < bs.len() && !differ
        invariant
            i <= bs@.len(),
            bm == bs@.map_values(|x: Vec<char>| x@),
            cm == cs@.map_values(|x: Vec<char>| x@),
            bm == components(base@),
            cm == components(path@),
            i <= cs@.len(),
            !differ ==> common_end(bm, cm, i as int) == common_end(bm, cm, 0),
            canonical == Some(path),
            differ ==> i < bs@.len() && i < cs@.len() && common_end(bm, cm, 0) == Some(i as int),
        decreases bs.len() - i, if differ { 0int } else { 1int },
    {
        if i >= cs.len() {
            assert(cm.len() == cs@.len());
            assert(common_end(bm, cm, i as int) is None);
            return owned(path);
        }
        if !vec_chars_eq(&bs[i], &cs[i]) {
            differ = true;
        } else {
            i = i + 1;
        }
    }
    if i >= cs.len() {
        return owned(path);
    }
    let mut rest: Vec<Vec<char>> = Vec::new();
    let mut j = i;
    while j < cs.len()
        invariant
            i <= j <= cs@.len(),
            cm == cs@.map_values(|x: Vec<char>| x@),
            rest@.map_values(|x: Vec<char>| x@) == cm.subrange(i as int, j as int),
        decreases cs.len() - j,
    {
        let piece = crate::lex::sub_chars(&cs[j], 0, cs[j].len());
        assert(piece@ =~= cs@[j as int]@);
        assert(cm[j as int] == piece@);
        let ghost before = rest@;
        rest.push(piece);
        assert(rest@.map_values(|x: Vec<char>| x@) =~= before.map_values(|x: Vec<char>| x@).push(
            cm[j as int],
        ));
        j = j + 1;
        assert(rest@.map_values(|x: Vec<char>| x@) =~= cm.subrange(i as int, j as int));
    }
    crate::text::chars_to_string(join_exec(&rest).as_slice())
}

fn owned(s: &str) -> (r: String)
    ensures
        r@ == s@,
{
    let mut r = String::new();
    crate::text::string_push_str(&mut r, s);
    r
}

fn vec_chars_eq(a: &Vec<char>, b: &Vec<char>) -> (r: bool)
    ensures
        r == (a@ == b@),
{
    if a.len() != b.len() {
        return false;
    }
    let mut i: usize = 0;
    while i < a.len()
        invariant
            i <= a.len(),
            a@.len() == b@.len(),
            forall|k: int| 0 <= k < i ==> a@[k] == b@[k],
        decreases a.len() - i,
    {
        if a[i] != b[i] {
            return false;
        }
        i = i + 1;
    }
    assert(a@ =~= b@);
    true
}

} // verus!
