//! What a template declares for the code generator: the template it
//! extends, its blocks, its macros and its imports.
//!
//! The nodes are visited list by list: the template's own nodes first, in
//! order, then the lists nested in them (blocks, branches, loop bodies and
//! `else` parts, match arms), the last one first, each followed right away
//! by the lists nested in it. `extends`, `macro` and `import` belong to the
//! template's own nodes; a block anywhere counts.

use vstd::prelude::*;
use crate::ast::{BlockDef, Cond, Macro, Node, When};
use crate::config::{CompileError, Config};
use crate::path::{components, find_in_config};

verus! {

// ---------------------------------------------------------------------------
// The order of the visit.
// ---------------------------------------------------------------------------

/// The nodes of a list, each with whether the list is the template's own,
/// then the lists nested in them.
pub open spec fn list_visits(v: Seq<Node>, top: bool) -> Seq<(Node, bool)>
    decreases v, 1int,
{
    v.map_values(|n: Node| (n, top)) + children_visits(v)
}

/// The lists nested in the nodes of `v`: those of the last node first.
pub open spec fn children_visits(v: Seq<Node>) -> Seq<(Node, bool)>
    decreases v, 0int,
{
    if v.len() == 0 {
        seq![]
    } else {
        proof {
            assert(decreases_to!(v => v.drop_last()));
        }
        node_children_visits(v.last()) + children_visits(v.drop_last())
    }
}

/// The lists nested in a node, the last one first.
pub open spec fn node_children_visits(n: Node) -> Seq<(Node, bool)>
    decreases n, 0int,
{
    match n {
        Node::BlockDef(b) => list_visits(b.nodes@, false),
        Node::If(i) => conds_visits(i.branches@),
        Node::Loop(l) => list_visits(l.else_nodes@, false) + list_visits(l.body@, false),
        Node::Match(m) => whens_visits(m.arms@),
        _ => seq![],
    }
}

/// The branches' lists, the last one first.
pub open spec fn conds_visits(v: Seq<Cond>) -> Seq<(Node, bool)>
    decreases v, 0int,
{
    if v.len() == 0 {
        seq![]
    } else {
        proof {
            assert(decreases_to!(v => v.drop_last()));
            assert(decreases_to!(v => v.last()));
        }
        list_visits(v.last().nodes@, false) + conds_visits(v.drop_last())
    }
}

/// The arms' lists, the last one first.
pub open spec fn whens_visits(v: Seq<When>) -> Seq<(Node, bool)>
    decreases v, 0int,
{
    if v.len() == 0 {
        seq![]
    } else {
        proof {
            assert(decreases_to!(v => v.drop_last()));
            assert(decreases_to!(v => v.last()));
        }
        list_visits(v.last().nodes@, false) + whens_visits(v.drop_last())
    }
}

// ---------------------------------------------------------------------------
// What each node declares.
// ---------------------------------------------------------------------------

/// What was found so far: the path of the parent template, and the blocks,
/// macros and imports by name (a later one of the same name replaces an
/// earlier one).
pub ghost struct Decls {
    pub extends: Option<Seq<char>>,
    pub blocks: Map<Seq<char>, BlockDef>,
    pub macros: Map<Seq<char>, Macro>,
    pub imports: Map<Seq<char>, Seq<char>>,
}

/// Nothing found yet.
pub open spec fn no_decls() -> Decls {
    Decls { extends: None, blocks: Map::empty(), macros: Map::empty(), imports: Map::empty() }
}

/// The error for `extends`, `macro` or `import` below the top.
pub open spec fn nested_decl_msg() -> Seq<char> {
    "extends, macro or import blocks not allowed below top level"@
}

/// The error for a second `extends`.
pub open spec fn multiple_extends_msg() -> Seq<char> {
    "multiple extend blocks found"@
}

/// A visited node: `extends` gives the path of the parent (found as
/// `Config::find_template` finds it, next to the template at `path` or in
/// the directories) and may come once; `import` gives the path of the
/// imported template, under its scope; a macro and a block are recorded by
/// name. The first error ends the visit.
pub open spec fn decl_step(
    dirs: Seq<Seq<char>>,
    path: Seq<char>,
    existing: Seq<Seq<char>>,
    r: Result<Decls, Seq<char>>,
    visit: (Node, bool),
) -> Result<Decls, Seq<char>> {
    match r {
        Err(m) => Err(m),
        Ok(a) => match visit.0 {
            Node::Extends(e) => if !visit.1 {
                Err(nested_decl_msg())
            } else if a.extends is Some {
                Err(multiple_extends_msg())
            } else {
                match find_in_config(dirs, e.path@, Some(path), existing) {
                    Ok(p) => Ok(Decls { extends: Some(p), ..a }),
                    Err(m) => Err(m),
                }
            },
            Node::Macro(m) => if !visit.1 {
                Err(nested_decl_msg())
            } else {
                Ok(Decls { macros: a.macros.insert(m.name@, m), ..a })
            },
            Node::Import(i) => if !visit.1 {
                Err(nested_decl_msg())
            } else {
                match find_in_config(dirs, i.path@, Some(path), existing) {
                    Ok(p) => Ok(Decls { imports: a.imports.insert(i.scope@, p), ..a }),
                    Err(m) => Err(m),
                }
            },
            Node::BlockDef(b) => Ok(Decls { blocks: a.blocks.insert(b.name@, b), ..a }),
            _ => Ok(a),
        },
    }
}

/// The visited nodes, one after the other.
pub open spec fn decl_fold(
    dirs: Seq<Seq<char>>,
    path: Seq<char>,
    existing: Seq<Seq<char>>,
    r: Result<Decls, Seq<char>>,
    visits: Seq<(Node, bool)>,
) -> Result<Decls, Seq<char>>
    decreases visits.len(),
{
    if visits.len() == 0 {
        r
    } else {
        decl_step(dirs, path, existing, decl_fold(dirs, path, existing, r, visits.drop_last()), visits.last())
    }
}

/// After an error, the error stays.
pub proof fn lemma_fold_err(
    dirs: Seq<Seq<char>>,
    path: Seq<char>,
    existing: Seq<Seq<char>>,
    m: Seq<char>,
    visits: Seq<(Node, bool)>,
)
    ensures
        decl_fold(dirs, path, existing, Err(m), visits) == Err::<Decls, Seq<char>>(m),
    decreases visits.len(),
{
    if visits.len() > 0 {
        lemma_fold_err(dirs, path, existing, m, visits.drop_last());
    }
}

/// Visiting `a` then `b` is visiting `a + b`.
pub proof fn lemma_fold_append(
    dirs: Seq<Seq<char>>,
    path: Seq<char>,
    existing: Seq<Seq<char>>,
    r: Result<Decls, Seq<char>>,
    a: Seq<(Node, bool)>,
    b: Seq<(Node, bool)>,
)
    ensures
        decl_fold(dirs, path, existing, r, a + b) == decl_fold(
            dirs,
            path,
            existing,
            decl_fold(dirs, path, existing, r, a),
            b,
        ),
    decreases b.len(),
{
    if b.len() == 0 {
        assert(a + b =~= a);
    } else {
        assert((a + b).drop_last() =~= a + b.drop_last());
        lemma_fold_append(dirs, path, existing, r, a, b.drop_last());
    }
}

// ---------------------------------------------------------------------------
// The context.
// ---------------------------------------------------------------------------

/// Entries recorded one after the other, as a map: a later entry replaces
/// an earlier one of the same name.
pub open spec fn log_map<V>(s: Seq<(Seq<char>, V)>) -> Map<Seq<char>, V>
    decreases s.len(),
{
    if s.len() == 0 {
        Map::empty()
    } else {
        log_map(s.drop_last()).insert(s.last().0, s.last().1)
    }
}

/// Recorded blocks as names and definitions.
pub open spec fn block_entries(s: Seq<(String, &BlockDef)>) -> Seq<(Seq<char>, BlockDef)> {
    s.map_values(|p: (String, &BlockDef)| (p.0@, *p.1))
}

pub open spec fn blocks_log(s: Seq<(String, &BlockDef)>) -> Map<Seq<char>, BlockDef> {
    log_map(block_entries(s))
}

pub open spec fn macros_log(s: Seq<(String, &Macro)>) -> Map<Seq<char>, Macro> {
    log_map(s.map_values(|p: (String, &Macro)| (p.0@, *p.1)))
}

pub open spec fn imports_log(s: Seq<(String, String)>) -> Map<Seq<char>, Seq<char>> {
    log_map(s.map_values(|p: (String, String)| (p.0@, p.1@)))
}

/// What a template declares: its nodes, the path of the template it
/// extends, and its blocks, macros and imports, each recorded in order (the
/// last of a name counts).
pub struct Context<'a> {
    pub nodes: &'a [Node],
    pub extends: Option<String>,
    pub blocks: Vec<(String, &'a BlockDef)>,
    pub macros: Vec<(String, &'a Macro)>,
    pub imports: Vec<(String, String)>,
    pub path: Option<String>,
}

impl<'a> Context<'a> {
    /// What the context declares, as plain values.
    pub open spec fn decls(&self) -> Decls {
        Decls {
            extends: match self.extends {
                Some(p) => Some(p@),
                None => None,
            },
            blocks: blocks_log(self.blocks@),
            macros: macros_log(self.macros@),
            imports: imports_log(self.imports@),
        }
    }

    /// A context without nodes or declarations.
    pub fn empty() -> (r: Context<'a>)
        ensures
            r.nodes@.len() == 0,
            r.decls() == no_decls(),
            r.path is None,
    {
        let r = Context {
            nodes: &[],
            extends: None,
            blocks: Vec::new(),
            macros: Vec::new(),
            imports: Vec::new(),
            path: None,
        };
        assert(r.decls().blocks =~= Map::<Seq<char>, BlockDef>::empty());
        assert(r.decls().macros =~= Map::<Seq<char>, Macro>::empty());
        assert(r.decls().imports =~= Map::<Seq<char>, Seq<char>>::empty());
        r
    }

    fn record_block(&mut self, b: &'a BlockDef)
        ensures
            final(self).decls() == (Decls { blocks: old(self).decls().blocks.insert(b.name@, *b), ..old(self).decls() }),
            final(self).nodes == old(self).nodes,
            final(self).path == old(self).path,
    {
        let ghost before = self.blocks@;
        self.blocks.push((b.name.clone(), b));
        proof {
            let m = |p: (String, &BlockDef)| (p.0@, *p.1);
            assert(self.blocks@.map_values(m).drop_last() =~= before.map_values(m));
        }
    }

    fn record_macro(&mut self, mac: &'a Macro)
        ensures
            final(self).decls() == (Decls { macros: old(self).decls().macros.insert(mac.name@, *mac), ..old(self).decls() }),
            final(self).nodes == old(self).nodes,
            final(self).path == old(self).path,
    {
        let ghost before = self.macros@;
        self.macros.push((mac.name.clone(), mac));
        proof {
            let m = |p: (String, &Macro)| (p.0@, *p.1);
            assert(self.macros@.map_values(m).drop_last() =~= before.map_values(m));
        }
    }

    fn record_import(&mut self, scope: &String, p: String)
        ensures
            final(self).decls() == (Decls { imports: old(self).decls().imports.insert(scope@, p@), ..old(self).decls() }),
            final(self).nodes == old(self).nodes,
            final(self).path == old(self).path,
    {
        let ghost before = self.imports@;
        self.imports.push((scope.clone(), p));
        proof {
            let m = |q: (String, String)| (q.0@, q.1@);
            assert(self.imports@.map_values(m).drop_last() =~= before.map_values(m));
        }
    }
}

// ---------------------------------------------------------------------------
// The visit.
// ---------------------------------------------------------------------------

/// The template directories, as plain values.
pub open spec fn dirs_of(config: Config) -> Seq<Seq<char>> {
    config.dirs@.map_values(|x: String| x@)
}

/// The existing files, as plain values.
pub open spec fn files_of(existing: Seq<String>) -> Seq<Seq<char>> {
    existing.map_values(|x: String| x@)
}

/// A path that names a template file, next to which others are looked up.
pub open spec fn names_template(path: Seq<char>) -> bool {
    components(path).len() > 0 && components(path).last() != seq!['.', '.']
}

/// A visit ended as `expected` says: with the declarations `after`, or with
/// the error's message.
pub open spec fn ended_as(r: Result<(), CompileError>, after: Decls, expected: Result<Decls, Seq<char>>) -> bool {
    match expected {
        Ok(a) => r is Ok && after == a,
        Err(m) => r matches Err(e) && e.msg@ == m,
    }
}

fn decl_error(msg: &str) -> (e: CompileError)
    ensures
        e.msg@ == msg@,
{
    CompileError { msg: msg.to_owned() }
}

impl<'a> Context<'a> {
    fn visit_node(
        &mut self,
        config: &Config,
        path: &str,
        existing: &Vec<String>,
        n: &'a Node,
        top: bool,
    ) -> (r: Result<(), CompileError>)
        requires
            names_template(path@),
        ensures
            ended_as(
                r,
                final(self).decls(),
                decl_step(
                    dirs_of(*config),
                    path@,
                    files_of(existing@),
                    Ok(old(self).decls()),
                    (*n, top),
                ),
            ),
            final(self).nodes == old(self).nodes,
            final(self).path == old(self).path,
    {
        match n {
            Node::Extends(e) => {
                if !top {
                    return Err(decl_error("extends, macro or import blocks not allowed below top level"));
                }
                if self.extends.is_some() {
                    return Err(decl_error("multiple extend blocks found"));
                }
                match config.find_template(e.path.as_str(), Some(path), existing) {
                    Ok(p) => {
                        self.extends = Some(p);
                        Ok(())
                    },
                    Err(err) => Err(err),
                }
            },
            Node::Macro(m) => {
                if !top {
                    return Err(decl_error("extends, macro or import blocks not allowed below top level"));
                }
                self.record_macro(m);
                Ok(())
            },
            Node::Import(i) => {
                if !top {
                    return Err(decl_error("extends, macro or import blocks not allowed below top level"));
                }
                match config.find_template(i.path.as_str(), Some(path), existing) {
                    Ok(p) => {
                        self.record_import(&i.scope, p);
                        Ok(())
                    },
                    Err(err) => Err(err),
                }
            },
            Node::BlockDef(b) => {
                self.record_block(b);
                Ok(())
            },
            _ => Ok(()),
        }
    }

    fn visit_list(
        &mut self,
        config: &Config,
        path: &str,
        existing: &Vec<String>,
        v: &'a [Node],
        top: bool,
    ) -> (r: Result<(), CompileError>)
        requires
            names_template(path@),
        ensures
            ended_as(
                r,
                final(self).decls(),
                decl_fold(
                    dirs_of(*config),
                    path@,
                    files_of(existing@),
                    Ok(old(self).decls()),
                    list_visits(v@, top),
                ),
            ),
            final(self).nodes == old(self).nodes,
            final(self).path == old(self).path,
        decreases v@, 1int,
    {
        let ghost dirs = dirs_of(*config);
        let ghost files = files_of(existing@);
        let ghost d0 = self.decls();
        let ghost all = v@.map_values(|n: Node| (n, top));
        let mut i: usize = 0;
        assert(all.subrange(0, 0) =~= Seq::<(Node, bool)>::empty());
        while i < v.len()
            invariant
                i <= v@.len(),
                names_template(path@),
                dirs == dirs_of(*config),
                files == files_of(existing@),
                all == v@.map_values(|n: Node| (n, top)),
                d0 == old(self).decls(),
                decl_fold(dirs, path@, files, Ok(d0), all.subrange(0, i as int)) == Ok::<
                    Decls,
                    Seq<char>,
                >(self.decls()),
                self.nodes == old(self).nodes,
                self.path == old(self).path,
            decreases v.len() - i,
        {
            let ghost pre = all.subrange(0, i + 1);
            assert(pre.drop_last() =~= all.subrange(0, i as int));
            assert(pre.last() == (v@[i as int], top));
            let r = self.visit_node(config, path, existing, &v[i], top);
            match r {
                Err(e) => {
                    proof {
                        let m = e.msg@;
                        assert(all =~= pre + all.subrange(i + 1, all.len() as int));
                        lemma_fold_append(dirs, path@, files, Ok(d0), pre, all.subrange(i + 1, all.len() as int));
                        lemma_fold_err(dirs, path@, files, m, all.subrange(i + 1, all.len() as int));
                        lemma_fold_append(dirs, path@, files, Ok(d0), all, children_visits(v@));
                        lemma_fold_err(dirs, path@, files, m, children_visits(v@));
                    }
                    return Err(e);
                },
                Ok(()) => {},
            }
            i = i + 1;
        }
        assert(all.subrange(0, i as int) =~= all);
        proof {
            lemma_fold_append(dirs, path@, files, Ok(d0), all, children_visits(v@));
        }
        self.visit_children(config, path, existing, v)
    }

    fn visit_children(
        &mut self,
        config: &Config,
        path: &str,
        existing: &Vec<String>,
        v: &'a [Node],
    ) -> (r: Result<(), CompileError>)
        requires
            names_template(path@),
        ensures
            ended_as(
                r,
                final(self).decls(),
                decl_fold(
                    dirs_of(*config),
                    path@,
                    files_of(existing@),
                    Ok(old(self).decls()),
                    children_visits(v@),
                ),
            ),
            final(self).nodes == old(self).nodes,
            final(self).path == old(self).path,
        decreases v@, 0int,
    {
        let ghost dirs = dirs_of(*config);
        let ghost files = files_of(existing@);
        let ghost target = decl_fold(dirs, path@, files, Ok(self.decls()), children_visits(v@));
        let mut k: usize = v.len();
        assert(v@.subrange(0, k as int) =~= v@);
        while k > 0
            invariant
                k <= v@.len(),
                names_template(path@),
                dirs == dirs_of(*config),
                files == files_of(existing@),
                decl_fold(dirs, path@, files, Ok(self.decls()), children_visits(v@.subrange(0, k as int)))
                    == target,
                target == decl_fold(dirs, path@, files, Ok(old(self).decls()), children_visits(v@)),
                self.nodes == old(self).nodes,
                self.path == old(self).path,
            decreases k,
        {
            let ghost sub = v@.subrange(0, k as int);
            assert(sub.drop_last() =~= v@.subrange(0, k - 1));
            assert(sub.last() == v@[k - 1]);
            let ghost before = self.decls();
            proof {
                lemma_fold_append(
                    dirs,
                    path@,
                    files,
                    Ok(before),
                    node_children_visits(v@[k - 1]),
                    children_visits(v@.subrange(0, k - 1)),
                );
            }
            let r = self.visit_node_children(config, path, existing, &v[k - 1]);
            match r {
                Err(e) => {
                    proof {
                        lemma_fold_err(dirs, path@, files, e.msg@, children_visits(v@.subrange(0, k - 1)));
                    }
                    return Err(e);
                },
                Ok(()) => {},
            }
            k = k - 1;
        }
        Ok(())
    }

    fn visit_node_children(
        &mut self,
        config: &Config,
        path: &str,
        existing: &Vec<String>,
        n: &'a Node,
    ) -> (r: Result<(), CompileError>)
        requires
            names_template(path@),
        ensures
            ended_as(
                r,
                final(self).decls(),
                decl_fold(
                    dirs_of(*config),
                    path@,
                    files_of(existing@),
                    Ok(old(self).decls()),
                    node_children_visits(*n),
                ),
            ),
            final(self).nodes == old(self).nodes,
            final(self).path == old(self).path,
        decreases n, 0int,
    {
        let ghost dirs = dirs_of(*config);
        let ghost files = files_of(existing@);
        match n {
            Node::BlockDef(b) => self.visit_list(config, path, existing, b.nodes.as_slice(), false),
            Node::If(i) => self.visit_conds(config, path, existing, &i.branches),
            Node::Loop(l) => {
                let ghost d0 = self.decls();
                proof {
                    lemma_fold_append(
                        dirs,
                        path@,
                        files,
                        Ok(d0),
                        list_visits(l.else_nodes@, false),
                        list_visits(l.body@, false),
                    );
                }
                let r = self.visit_list(config, path, existing, l.else_nodes.as_slice(), false);
                match r {
                    Err(e) => {
                        proof {
                            lemma_fold_err(dirs, path@, files, e.msg@, list_visits(l.body@, false));
                        }
                        return Err(e);
                    },
                    Ok(()) => {},
                }
                self.visit_list(config, path, existing, l.body.as_slice(), false)
            },
            Node::Match(m) => self.visit_whens(config, path, existing, &m.arms),
            _ => Ok(()),
        }
    }

    fn visit_conds(
        &mut self,
        config: &Config,
        path: &str,
        existing: &Vec<String>,
        v: &'a Vec<Cond>,
    ) -> (r: Result<(), CompileError>)
        requires
            names_template(path@),
        ensures
            ended_as(
                r,
                final(self).decls(),
                decl_fold(
                    dirs_of(*config),
                    path@,
                    files_of(existing@),
                    Ok(old(self).decls()),
                    conds_visits(v@),
                ),
            ),
            final(self).nodes == old(self).nodes,
            final(self).path == old(self).path,
        decreases v@, 0int,
    {
        let ghost dirs = dirs_of(*config);
        let ghost files = files_of(existing@);
        let ghost target = decl_fold(dirs, path@, files, Ok(self.decls()), conds_visits(v@));
        let mut k: usize = v.len();
        assert(v@.subrange(0, k as int) =~= v@);
        while k > 0
            invariant
                k <= v@.len(),
                names_template(path@),
                dirs == dirs_of(*config),
                files == files_of(existing@),
                decl_fold(dirs, path@, files, Ok(self.decls()), conds_visits(v@.subrange(0, k as int)))
                    == target,
                target == decl_fold(dirs, path@, files, Ok(old(self).decls()), conds_visits(v@)),
                self.nodes == old(self).nodes,
                self.path == old(self).path,
            decreases k,
        {
            let ghost sub = v@.subrange(0, k as int);
            assert(sub.drop_last() =~= v@.subrange(0, k - 1));
            assert(sub.last() == v@[k - 1]);
            let ghost before = self.decls();
            proof {
                lemma_fold_append(
                    dirs,
                    path@,
                    files,
                    Ok(before),
                    list_visits(v@[k - 1].nodes@, false),
                    conds_visits(v@.subrange(0, k - 1)),
                );
            }
            let r = self.visit_list(config, path, existing, v[k - 1].nodes.as_slice(), false);
            match r {
                Err(e) => {
                    proof {
                        lemma_fold_err(dirs, path@, files, e.msg@, conds_visits(v@.subrange(0, k - 1)));
                    }
                    return Err(e);
                },
                Ok(()) => {},
            }
            k = k - 1;
        }
        Ok(())
    }

    fn visit_whens(
        &mut self,
        config: &Config,
        path: &str,
        existing: &Vec<String>,
        v: &'a Vec<When>,
    ) -> (r: Result<(), CompileError>)
        requires
            names_template(path@),
        ensures
            ended_as(
                r,
                final(self).decls(),
                decl_fold(
                    dirs_of(*config),
                    path@,
                    files_of(existing@),
                    Ok(old(self).decls()),
                    whens_visits(v@),
                ),
            ),
            final(self).nodes == old(self).nodes,
            final(self).path == old(self).path,
        decreases v@, 0int,
    {
        let ghost dirs = dirs_of(*config);
        let ghost files = files_of(existing@);
        let ghost target = decl_fold(dirs, path@, files, Ok(self.decls()), whens_visits(v@));
        let mut k: usize = v.len();
        assert(v@.subrange(0, k as int) =~= v@);
        while k > 0
            invariant
                k <= v@.len(),
                names_template(path@),
                dirs == dirs_of(*config),
                files == files_of(existing@),
                decl_fold(dirs, path@, files, Ok(self.decls()), whens_visits(v@.subrange(0, k as int)))
                    == target,
                target == decl_fold(dirs, path@, files, Ok(old(self).decls()), whens_visits(v@)),
                self.nodes == old(self).nodes,
                self.path == old(self).path,
            decreases k,
        {
            let ghost sub = v@.subrange(0, k as int);
            assert(sub.drop_last() =~= v@.subrange(0, k - 1));
            assert(sub.last() == v@[k - 1]);
            let ghost before = self.decls();
            proof {
                lemma_fold_append(
                    dirs,
                    path@,
                    files,
                    Ok(before),
                    list_visits(v@[k - 1].nodes@, false),
                    whens_visits(v@.subrange(0, k - 1)),
                );
            }
            let r = self.visit_list(config, path, existing, v[k - 1].nodes.as_slice(), false);
            match r {
                Err(e) => {
                    proof {
                        lemma_fold_err(dirs, path@, files, e.msg@, whens_visits(v@.subrange(0, k - 1)));
                    }
                    return Err(e);
                },
                Ok(()) => {},
            }
            k = k - 1;
        }
        Ok(())
    }

    /// What the template at `path`, with the nodes `nodes`, declares; the
    /// templates it names are looked up as `Config::find_template` does,
    /// among the files `existing`. Fails on `extends`, `macro` or `import`
    /// below the top, on a second `extends`, and where a template is not
    /// found.
    pub fn new(config: &Config, path: &str, nodes: &'a [Node], existing: &Vec<String>) -> (r: Result<
        Context<'a>,
        CompileError,
    >)
        requires
            names_template(path@),
        ensures
            match decl_fold(
                dirs_of(*config),
                path@,
                files_of(existing@),
                Ok(no_decls()),
                list_visits(nodes@, true),
            ) {
                Ok(a) => r matches Ok(c) && (c.decls() == a && c.nodes == nodes && (c.path matches Some(
                    p,
                ) && p@ == path@)),
                Err(m) => r matches Err(e) && e.msg@ == m,
            },
    {
        let mut own = String::new();
        crate::text::string_push_str(&mut own, path);
        let mut ctx = Context {
            nodes,
            extends: None,
            blocks: Vec::new(),
            macros: Vec::new(),
            imports: Vec::new(),
            path: Some(own),
        };
        assert(ctx.decls().blocks =~= Map::<Seq<char>, BlockDef>::empty());
        assert(ctx.decls().macros =~= Map::<Seq<char>, Macro>::empty());
        assert(ctx.decls().imports =~= Map::<Seq<char>, Seq<char>>::empty());
        match ctx.visit_list(config, path, existing, nodes, true) {
            Ok(()) => Ok(ctx),
            Err(e) => Err(e),
        }
    }
}

// ---------------------------------------------------------------------------
// The ancestry of blocks.
// ---------------------------------------------------------------------------

/// The context of the template at `p` among `cs`: the first one so named.
pub open spec fn find_ctx<'a>(cs: Seq<(String, Context<'a>)>, p: Seq<char>) -> Option<Context<'a>>
    decreases cs.len(),
{
    if cs.len() == 0 {
        None
    } else if cs[0].0@ == p {
        Some(cs[0].1)
    } else {
        find_ctx(cs.drop_first(), p)
    }
}

/// The chain of contexts from `ctx` up through the templates each one
/// extends, within `fuel` steps; `None` where a parent is missing or the
/// chain is longer.
pub open spec fn chain<'a>(ctx: Context<'a>, cs: Seq<(String, Context<'a>)>, fuel: nat) -> Option<
    Seq<Context<'a>>,
>
    decreases fuel,
{
    match ctx.extends {
        None => Some(seq![ctx]),
        Some(p) => if fuel == 0 {
            None
        } else {
            match find_ctx(cs, p@) {
                None => None,
                Some(c) => match chain(c, cs, (fuel - 1) as nat) {
                    Some(rest) => Some(seq![ctx] + rest),
                    None => None,
                },
            }
        },
    }
}

/// The definitions of the block `n` along a chain, from the child up.
pub open spec fn ancestry<'a>(ch: Seq<Context<'a>>, n: Seq<char>) -> Seq<(Context<'a>, BlockDef)>
    decreases ch.len(),
{
    if ch.len() == 0 {
        seq![]
    } else {
        ancestry(ch.drop_last(), n) + if ch.last().decls().blocks.contains_key(n) {
            seq![(ch.last(), ch.last().decls().blocks[n])]
        } else {
            seq![]
        }
    }
}

/// An entry of the ancestry as plain values.
pub open spec fn defs_m<'a>(v: Seq<(&'a Context<'a>, &'a BlockDef)>) -> Seq<(Context<'a>, BlockDef)> {
    v.map_values(|p: (&'a Context<'a>, &'a BlockDef)| (*p.0, *p.1))
}

/// The definitions recorded for the block `n`: those of the first entry of
/// that name, or none.
pub open spec fn anc_get<'a>(v: Seq<(String, Vec<(&'a Context<'a>, &'a BlockDef)>)>, n: Seq<char>) -> Seq<
    (Context<'a>, BlockDef),
>
    decreases v.len(),
{
    if v.len() == 0 {
        seq![]
    } else if v[0].0@ == n {
        defs_m(v[0].1@)
    } else {
        anc_get(v.drop_first(), n)
    }
}

/// The block definitions of a template, each with the chain of
/// definitions of the same block in the templates it extends, and the
/// template at the top of the chain.
pub struct Heritage<'a> {
    pub root: &'a Context<'a>,
    pub blocks: Vec<(String, Vec<(&'a Context<'a>, &'a BlockDef)>)>,
}

/// Whether entry `j` of a log is the last one of its name.
pub open spec fn last_of_name<V>(s: Seq<(Seq<char>, V)>, j: int) -> bool {
    forall|k: int| j < k < s.len() ==> s[k].0 != s[j].0
}

/// The names in a log map are those of its entries, and each maps to the
/// value of its last entry.
proof fn lemma_log_map<V>(s: Seq<(Seq<char>, V)>)
    ensures
        forall|n: Seq<char>|
            log_map(s).contains_key(n) <==> exists|j: int| 0 <= j < s.len() && s[j].0 == n,
        forall|j: int| 0 <= j < s.len() && last_of_name(s, j) ==> log_map(s)[s[j].0] == s[j].1,
    decreases s.len(),
{
    if s.len() > 0 {
        let d = s.drop_last();
        lemma_log_map(d);
        assert forall|n: Seq<char>|
            log_map(s).contains_key(n) implies exists|j: int| 0 <= j < s.len() && s[j].0 == n by {
            if n == s.last().0 {
                assert(s[s.len() - 1].0 == n);
            } else {
                assert(log_map(d).contains_key(n));
                let j = choose|j: int| 0 <= j < d.len() && d[j].0 == n;
                assert(s[j].0 == n);
            }
        }
        assert forall|n: Seq<char>|
            (exists|j: int| 0 <= j < s.len() && s[j].0 == n) implies log_map(s).contains_key(n) by {
            let j = choose|j: int| 0 <= j < s.len() && s[j].0 == n;
            if j < s.len() - 1 {
                assert(d[j].0 == n);
                assert(exists|jj: int| 0 <= jj < d.len() && d[jj].0 == n);
                assert(log_map(d).contains_key(n));
            }
        }
        assert forall|j: int| 0 <= j < s.len() && last_of_name(s, j) implies log_map(s)[s[j].0]
            == s[j].1 by {
            if j < s.len() - 1 {
                assert(s[s.len() - 1].0 != s[j].0);
                assert(d[j] == s[j]);
                assert(last_of_name(d, j));
            }
        }
    }
}

fn add_def<'a>(
    acc: &mut Vec<(String, Vec<(&'a Context<'a>, &'a BlockDef)>)>,
    name: &String,
    c: &'a Context<'a>,
    def: &'a BlockDef,
)
    ensures
        forall|n: Seq<char>|
            anc_get(final(acc)@, n) == if n == name@ {
                anc_get(old(acc)@, n).push((*c, *def))
            } else {
                anc_get(old(acc)@, n)
            },
{
    let ghost a0 = acc@;
    let mut i: usize = 0;
    assert(a0.subrange(0, a0.len() as int) =~= a0);
    while i < acc.len()
        invariant
            i <= acc.len(),
            acc@ == a0,
            a0 == old(acc)@,
            forall|j: int| 0 <= j < i ==> acc@[j].0@ != name@,
            forall|n: Seq<char>|
                (forall|j: int| 0 <= j < i ==> acc@[j].0@ != n) ==> anc_get(a0, n) == anc_get(
                    a0.subrange(i as int, a0.len() as int),
                    n,
                ),
        decreases acc.len() - i,
    {
        proof {
            assert forall|n: Seq<char>|
                (forall|j: int| 0 <= j < i + 1 ==> acc@[j].0@ != n) implies anc_get(a0, n)
                == anc_get(a0.subrange(i + 1, a0.len() as int), n) by {
                assert(a0.subrange(i as int, a0.len() as int).drop_first() =~= a0.subrange(
                    i + 1,
                    a0.len() as int,
                ));
            }
        }
        if crate::text::str_eq(acc[i].0.as_str(), name.as_str()) {
            let ghost removed = acc@[i as int];
            let mut e = acc.remove(i);
            e.1.push((c, def));
            acc.insert(i, e);
            proof {
                assert(acc@.len() == a0.len());
                assert forall|j: int| 0 <= j < a0.len() && j != i implies acc@[j] == a0[j] by {
                    if j < i {
                    } else {
                    }
                }
                assert(acc@[i as int].0 == a0[i as int].0);
                assert(a0[i as int].0@ == name@);
                assert forall|n: Seq<char>|
                    anc_get(acc@, n) == if n == name@ {
                        anc_get(a0, n).push((*c, *def))
                    } else {
                        anc_get(a0, n)
                    } by {
                    lemma_anc_get_update(a0, i as int, acc@, n);
                    if n == name@ {
                        assert(a0.subrange(i as int, a0.len() as int)[0] == a0[i as int]);
                        assert(defs_m(acc@[i as int].1@) =~= defs_m(a0[i as int].1@).push((*c, *def)));
                    }
                }
            }
            return;
        }
        i = i + 1;
    }
    let mut v: Vec<(&'a Context<'a>, &'a BlockDef)> = Vec::new();
    v.push((c, def));
    acc.push((name.clone(), v));
    proof {
        assert forall|n: Seq<char>|
            anc_get(acc@, n) == if n == name@ {
                anc_get(a0, n).push((*c, *def))
            } else {
                anc_get(a0, n)
            } by {
            lemma_anc_get_push(a0, acc@[acc@.len() - 1], n);
            assert(acc@ =~= a0.push(acc@[acc@.len() - 1]));
            if !anc_get_has(a0, n) {
                lemma_anc_get_absent(a0, n);
            }
            if n == name@ {
                assert(!anc_get_has(a0, n));
            }
            if n == name@ {
                assert(a0.subrange(a0.len() as int, a0.len() as int) =~= Seq::<
                    (String, Vec<(&'a Context<'a>, &'a BlockDef)>),
                >::empty());
                assert(defs_m(v@) =~= seq![(*c, *def)]);
            }
        }
    }
}

/// Pushing an entry: a name without an earlier entry gets the new one's
/// definitions.
proof fn lemma_anc_get_push<'a>(
    v: Seq<(String, Vec<(&'a Context<'a>, &'a BlockDef)>)>,
    e: (String, Vec<(&'a Context<'a>, &'a BlockDef)>),
    n: Seq<char>,
)
    ensures
        anc_get(v.push(e), n) == if anc_get_has(v, n) {
            anc_get(v, n)
        } else if e.0@ == n {
            defs_m(e.1@)
        } else {
            seq![]
        },
    decreases v.len(),
{
    let w = v.push(e);
    if v.len() > 0 {
        assert(w.drop_first() =~= v.drop_first().push(e));
        assert(w[0] == v[0]);
        lemma_anc_get_push(v.drop_first(), e, n);
        if v[0].0@ == n {
            assert(anc_get(w, n) == defs_m(v[0].1@));
            assert(anc_get_has(v, n));
        } else {
            assert(anc_get(w, n) == anc_get(w.drop_first(), n));
            lemma_anc_get_has_shift(v, n);
        }
    } else {
        assert(w.len() == 1 && w[0] == e);
        assert(w.drop_first().len() == 0);
        assert(anc_get(w.drop_first(), n) == Seq::<(Context<'a>, BlockDef)>::empty());
        assert(!anc_get_has(v, n));
    }
}

/// Past a first entry of another name, the names are those of the rest.
proof fn lemma_anc_get_has_shift<'a>(v: Seq<(String, Vec<(&'a Context<'a>, &'a BlockDef)>)>, n: Seq<char>)
    requires
        v.len() > 0,
        v[0].0@ != n,
    ensures
        anc_get_has(v, n) == anc_get_has(v.drop_first(), n),
{
    if anc_get_has(v, n) {
        let j = choose|j: int| 0 <= j < v.len() && v[j].0@ == n;
        assert(v.drop_first()[j - 1] == v[j]);
    }
    if anc_get_has(v.drop_first(), n) {
        let j = choose|j: int| 0 <= j < v.drop_first().len() && v.drop_first()[j].0@ == n;
        assert(v[j + 1] == v.drop_first()[j]);
    }
}

/// A name without an entry has no definitions.
proof fn lemma_anc_get_absent<'a>(v: Seq<(String, Vec<(&'a Context<'a>, &'a BlockDef)>)>, n: Seq<char>)
    requires
        !anc_get_has(v, n),
    ensures
        anc_get(v, n) == Seq::<(Context<'a>, BlockDef)>::empty(),
    decreases v.len(),
{
    if v.len() > 0 {
        if v[0].0@ == n {
            assert(anc_get_has(v, n));
        }
        lemma_anc_get_has_shift(v, n);
        lemma_anc_get_absent(v.drop_first(), n);
    }
}

/// Whether some entry has the name `n`.
pub open spec fn anc_get_has<'a>(v: Seq<(String, Vec<(&'a Context<'a>, &'a BlockDef)>)>, n: Seq<char>) -> bool {
    exists|j: int| 0 <= j < v.len() && v[j].0@ == n
}

/// Replacing the first entry of a name keeps the others' lookups.
proof fn lemma_anc_get_update<'a>(
    a: Seq<(String, Vec<(&'a Context<'a>, &'a BlockDef)>)>,
    i: int,
    b: Seq<(String, Vec<(&'a Context<'a>, &'a BlockDef)>)>,
    n: Seq<char>,
)
    requires
        0 <= i < a.len(),
        b.len() == a.len(),
        forall|j: int| 0 <= j < a.len() && j != i ==> b[j] == a[j],
        b[i].0 == a[i].0,
        forall|j: int| 0 <= j < i ==> a[j].0@ != a[i].0@,
    ensures
        n != a[i].0@ ==> anc_get(b, n) == anc_get(a, n),
        n == a[i].0@ ==> anc_get(b, n) == defs_m(b[i].1@) && anc_get(a, n) == defs_m(a[i].1@),
    decreases a.len(),
{
    if i > 0 {
        lemma_anc_get_update(a.drop_first(), i - 1, b.drop_first(), n);
    } else if n != a[i].0@ {
        assert(a.drop_first() =~= b.drop_first());
    }
}

/// A name with entries has a last one.
proof fn lemma_last_entry<V>(s: Seq<(Seq<char>, V)>, j: int)
    requires
        0 <= j < s.len(),
    ensures
        exists|k: int| 0 <= k < s.len() && s[k].0 == s[j].0 && last_of_name(s, k),
    decreases s.len() - j,
{
    if !last_of_name(s, j) {
        let k = choose|k: int| j < k < s.len() && s[k].0 == s[j].0;
        lemma_last_entry(s, k);
    }
}

/// Whether entry `i` is the last one of its name.
fn is_last_entry(blocks: &Vec<(String, &BlockDef)>, i: usize) -> (r: bool)
    requires
        i < blocks@.len(),
    ensures
        r == last_of_name(block_entries(blocks@), i as int),
{
    let ghost e = block_entries(blocks@);
    let total = blocks.len();
    assert(i < total);
    let mut j = i + 1;
    while j < blocks.len()
        invariant
            i < j <= blocks@.len(),
            e == block_entries(blocks@),
            forall|k: int| i < k < j ==> e[k].0 != e[i as int].0,
        decreases blocks.len() - j,
    {
        if crate::text::str_eq(blocks[j].0.as_str(), blocks[i].0.as_str()) {
            assert(e[j as int].0 == e[i as int].0);
            return false;
        }
        j = j + 1;
    }
    true
}

/// Adds the blocks of `c`, each under its name (the last definition of a
/// name counts).
fn add_blocks<'a>(acc: &mut Vec<(String, Vec<(&'a Context<'a>, &'a BlockDef)>)>, c: &'a Context<'a>)
    ensures
        forall|n: Seq<char>|
            anc_get(final(acc)@, n) == anc_get(old(acc)@, n) + if c.decls().blocks.contains_key(n) {
                seq![(*c, c.decls().blocks[n])]
            } else {
                Seq::<(Context<'a>, BlockDef)>::empty()
            },
{
    let ghost e = block_entries(c.blocks@);
    let ghost a0 = acc@;
    proof {
        lemma_log_map(e);
    }
    let mut i: usize = 0;
    while i < c.blocks.len()
        invariant
            i <= c.blocks@.len(),
            e == block_entries(c.blocks@),
            a0 == old(acc)@,
            forall|n: Seq<char>| log_map(e).contains_key(n) <==> exists|j: int| 0 <= j < e.len() && e[j].0 == n,
            forall|j: int| 0 <= j < e.len() && last_of_name(e, j) ==> log_map(e)[e[j].0] == e[j].1,
            forall|n: Seq<char>|
                anc_get(acc@, n) == anc_get(a0, n) + if exists|j: int|
                    0 <= j < i && last_of_name(e, j) && e[j].0 == n {
                    seq![(*c, log_map(e)[n])]
                } else {
                    Seq::<(Context<'a>, BlockDef)>::empty()
                },
        decreases c.blocks.len() - i,
    {
        let ghost before = acc@;
        if is_last_entry(&c.blocks, i) {
            let name = &c.blocks[i].0;
            let def = c.blocks[i].1;
            add_def(acc, name, c, def);
            proof {
                assert(e[i as int] == (name@, *def));
                assert forall|n: Seq<char>|
                    anc_get(acc@, n) == anc_get(a0, n) + if exists|j: int|
                        0 <= j < i + 1 && last_of_name(e, j) && e[j].0 == n {
                        seq![(*c, log_map(e)[n])]
                    } else {
                        Seq::<(Context<'a>, BlockDef)>::empty()
                    } by {
                    if n == name@ {
                        assert(last_of_name(e, i as int) && e[i as int].0 == n);
                        assert(!exists|j: int| 0 <= j < i && last_of_name(e, j) && e[j].0 == n) by {
                            if exists|j: int| 0 <= j < i && last_of_name(e, j) && e[j].0 == n {
                                let j = choose|j: int| 0 <= j < i && last_of_name(e, j) && e[j].0 == n;
                                assert(e[i as int].0 == e[j].0);
                            }
                        }
                        assert(log_map(e)[n] == *def);
                        assert(anc_get(a0, n) + Seq::<(Context<'a>, BlockDef)>::empty() =~= anc_get(a0, n));
                    } else {
                        if exists|j: int| 0 <= j < i + 1 && last_of_name(e, j) && e[j].0 == n {
                            let j = choose|j: int| 0 <= j < i + 1 && last_of_name(e, j) && e[j].0 == n;
                            assert(j < i);
                        }
                    }
                }
            }
        } else {
            proof {
                assert forall|n: Seq<char>|
                    #[trigger] anc_get(acc@, n) == anc_get(a0, n) + if exists|j: int|
                        0 <= j < i + 1 && last_of_name(e, j) && e[j].0 == n {
                        seq![(*c, log_map(e)[n])]
                    } else {
                        Seq::<(Context<'a>, BlockDef)>::empty()
                    } by {
                    if exists|j: int| 0 <= j < i + 1 && last_of_name(e, j) && e[j].0 == n {
                        let j = choose|j: int| 0 <= j < i + 1 && last_of_name(e, j) && e[j].0 == n;
                        assert(j < i);
                    }
                }
            }
        }
        i = i + 1;
    }
    proof {
        assert forall|n: Seq<char>| #[trigger] anc_get(acc@, n) == anc_get(a0, n) + if c.decls().blocks.contains_key(n) {
                seq![(*c, c.decls().blocks[n])]
            } else {
                Seq::<(Context<'a>, BlockDef)>::empty()
            } by {
            assert(c.decls().blocks == log_map(e));
            assert(e.len() == i);
            if log_map(e).contains_key(n) {
                let j = choose|j: int| 0 <= j < e.len() && e[j].0 == n;
                lemma_last_entry(e, j);
            }
        }
    }
}

/// The context of the template at `path`: the first one so named.
fn find_context<'a>(contexts: &'a Vec<(String, Context<'a>)>, path: &String) -> (r: &'a Context<'a>)
    requires
        find_ctx(contexts@, path@) is Some,
    ensures
        find_ctx(contexts@, path@) == Some(*r),
{
    let ghost cs = contexts@;
    let mut i: usize = 0;
    assert(cs.subrange(0, cs.len() as int) =~= cs);
    while i < contexts.len()
        invariant
            i <= contexts@.len(),
            cs == contexts@,
            find_ctx(cs, path@) == find_ctx(cs.subrange(i as int, cs.len() as int), path@),
            find_ctx(cs, path@) is Some,
        decreases contexts.len() - i,
    {
        let ghost rest = cs.subrange(i as int, cs.len() as int);
        assert(rest[0] == cs[i as int]);
        if crate::text::str_eq(contexts[i].0.as_str(), path.as_str()) {
            return &contexts[i].1;
        }
        assert(rest.drop_first() =~= cs.subrange(i + 1, cs.len() as int));
        i = i + 1;
    }
    assert(cs.subrange(i as int, cs.len() as int).len() == 0);
    &contexts[0].1
}

impl<'a> Heritage<'a> {
    /// The blocks of `ctx` and of the templates it extends, in turn, each
    /// block with its definitions from the child up, and the template at
    /// the top. The parents are looked up in `contexts` by path; the chain
    /// of parents must end within as many steps as there are contexts.
    pub fn new(ctx: &'a Context<'a>, contexts: &'a Vec<(String, Context<'a>)>) -> (r: Heritage<'a>)
        requires
            chain(*ctx, contexts@, contexts@.len() as nat) is Some,
        ensures
            match chain(*ctx, contexts@, contexts@.len() as nat) {
                Some(ch) => *r.root == ch.last() && forall|n: Seq<char>|
                    #[trigger] anc_get(r.blocks@, n) == ancestry(ch, n),
                None => false,
            },
    {
        let ghost cs = contexts@;
        let ghost full = chain(*ctx, cs, cs.len() as nat)->Some_0;
        let mut blocks: Vec<(String, Vec<(&'a Context<'a>, &'a BlockDef)>)> = Vec::new();
        let mut cur: &'a Context<'a> = ctx;
        let ghost b0 = blocks@;
        assert(b0 =~= Seq::<(String, Vec<(&'a Context<'a>, &'a BlockDef)>)>::empty());
        add_blocks(&mut blocks, cur);
        let ghost mut k: int = 0;
        let ghost mut fuel: nat = cs.len() as nat;
        proof {
            lemma_chain_shape(*ctx, cs, cs.len() as nat);
            assert(full.subrange(0, full.len() as int) =~= full);
            assert forall|n: Seq<char>| #[trigger] anc_get(blocks@, n) == ancestry(full.subrange(0, 1), n) by {
                let p = full.subrange(0, 1);
                assert(p.drop_last() =~= Seq::<Context<'a>>::empty());
                assert(p.last() == *ctx);
                assert(ancestry(p.drop_last(), n) =~= Seq::<(Context<'a>, BlockDef)>::empty());
                assert(anc_get(b0, n) == Seq::<(Context<'a>, BlockDef)>::empty());
                let extra = if ctx.decls().blocks.contains_key(n) {
                    seq![(*ctx, ctx.decls().blocks[n])]
                } else {
                    Seq::<(Context<'a>, BlockDef)>::empty()
                };
                assert(Seq::<(Context<'a>, BlockDef)>::empty() + extra =~= extra);
            }
        }
        while cur.extends.is_some()
            invariant
                cs == contexts@,
                0 <= k < full.len(),
                *cur == full[k],
                chain(*cur, cs, fuel) == Some(full.subrange(k, full.len() as int)),
                forall|n: Seq<char>| #[trigger] anc_get(blocks@, n) == ancestry(full.subrange(0, k + 1), n),
            decreases fuel,
        {
            let path = match &cur.extends {
                Some(p) => p,
                None => {
                    return Heritage { root: cur, blocks };
                },
            };
            let ghost rest = full.subrange(k + 1, full.len() as int);
            proof {
                assert(fuel > 0);
                let c = find_ctx(cs, path@)->Some_0;
                let tail = chain(c, cs, (fuel - 1) as nat)->Some_0;
                assert(full.subrange(k, full.len() as int) == seq![*cur] + tail);
                assert(full.subrange(k, full.len() as int).drop_first() =~= rest);
                assert(seq![*cur] + tail == full.subrange(k, full.len() as int));
                assert((seq![*cur] + tail).drop_first() =~= tail);
                assert(tail == rest);
                assert(rest[0] == full[k + 1]);
                lemma_chain_shape(c, cs, (fuel - 1) as nat);
            }
            cur = find_context(contexts, path);
            add_blocks(&mut blocks, cur);
            proof {
                assert forall|n: Seq<char>| #[trigger] anc_get(blocks@, n) == ancestry(full.subrange(0, k + 2), n) by {
                    assert(full.subrange(0, k + 2).drop_last() =~= full.subrange(0, k + 1));
                }
                k = k + 1;
                fuel = (fuel - 1) as nat;
            }
        }
        proof {
            assert(full.subrange(k, full.len() as int) == seq![*cur]);
            assert(full.subrange(k, full.len() as int).len() == 1);
            assert(full.subrange(0, k + 1) =~= full);
        }
        Heritage { root: cur, blocks }
    }
}

/// A chain is not empty.
proof fn lemma_chain_shape<'a>(ctx: Context<'a>, cs: Seq<(String, Context<'a>)>, fuel: nat)
    ensures
        chain(ctx, cs, fuel) matches Some(ch) ==> ch.len() > 0 && ch[0] == ctx,
    decreases fuel,
{
    match ctx.extends {
        None => {},
        Some(p) => if fuel > 0 {
            match find_ctx(cs, p@) {
                Some(c) => lemma_chain_shape(c, cs, (fuel - 1) as nat),
                None => {},
            }
        },
    }
}

} // verus!
