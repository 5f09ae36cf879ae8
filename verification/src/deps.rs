//! The templates a template depends on: the ones it extends, imports and
//! includes, in the order in which they are looked up, and the check that
//! `extends` never forms a cycle.

use vstd::prelude::*;
use crate::ast::{Cond, Node, When};
use crate::config::CompileError;
use crate::parse::{debug_quote, debug_str, Parsed};
use crate::text::string_push_str;

verus! {

/// How a template refers to another.
#[derive(Debug, Clone, Copy, PartialEq, Eq)]
pub enum RefKind {
    Extends,
    Import,
    Include,
}

/// A reference to another template, by the path written in the template.
#[derive(Debug, Clone, PartialEq, Eq)]
pub struct Reference {
    pub kind: RefKind,
    pub path: String,
}

pub struct RefM {
    pub kind: RefKind,
    pub path: Seq<char>,
}

pub open spec fn ref_m(r: Reference) -> RefM {
    RefM { kind: r.kind, path: r.path@ }
}

pub open spec fn refs_m(v: Seq<Reference>) -> Seq<RefM> {
    v.map_values(|r: Reference| ref_m(r))
}

// ---------------------------------------------------------------------------
// Which references, in which order.
//
// The nodes of the template itself are read first, in order: `extends`,
// `import` and `include` there are references. The node lists nested in
// them (blocks, branches, loop bodies, match arms, and at the top also
// macros) are read afterwards, the last one first, each with the lists
// nested in it read right after it; there only `include` counts.
// ---------------------------------------------------------------------------

/// The references made directly by the nodes of the template itself.
pub open spec fn top_refs(v: Seq<Node>) -> Seq<RefM>
    decreases v.len(),
{
    if v.len() == 0 {
        seq![]
    } else {
        top_refs(v.drop_last()) + match v.last() {
            Node::Extends(e) => seq![RefM { kind: RefKind::Extends, path: e.path@ }],
            Node::Import(i) => seq![RefM { kind: RefKind::Import, path: i.path@ }],
            Node::Include(i) => seq![RefM { kind: RefKind::Include, path: i.path@ }],
            _ => seq![],
        }
    }
}

/// The `include`s made directly by nested nodes.
pub open spec fn include_refs(v: Seq<Node>) -> Seq<RefM>
    decreases v.len(),
{
    if v.len() == 0 {
        seq![]
    } else {
        include_refs(v.drop_last()) + match v.last() {
            Node::Include(i) => seq![RefM { kind: RefKind::Include, path: i.path@ }],
            _ => seq![],
        }
    }
}

/// The references of a nested list: its `include`s, then the lists nested
/// in it, the last one first.
pub open spec fn nested_refs(v: Seq<Node>) -> Seq<RefM>
    decreases v, 1int,
{
    include_refs(v) + children_refs(v, false)
}

/// The references of the lists nested in the nodes of `v`, the last node's
/// lists first (within a node, the last list first); macros count only at
/// the top.
pub open spec fn children_refs(v: Seq<Node>, top: bool) -> Seq<RefM>
    decreases v, 0int,
{
    if v.len() == 0 {
        seq![]
    } else {
        proof {
            assert(decreases_to!(v => v.drop_last()));
        }
        node_children_refs(v.last(), top) + children_refs(v.drop_last(), top)
    }
}

pub open spec fn node_children_refs(n: Node, top: bool) -> Seq<RefM>
    decreases n, 0int,
{
    match n {
        Node::Macro(m) => if top {
            nested_refs(m.nodes@)
        } else {
            seq![]
        },
        Node::BlockDef(b) => nested_refs(b.nodes@),
        Node::If(i) => conds_refs(i.branches@),
        Node::Loop(l) => nested_refs(l.else_nodes@) + nested_refs(l.body@),
        Node::Match(m) => whens_refs(m.arms@),
        _ => seq![],
    }
}

pub open spec fn conds_refs(v: Seq<Cond>) -> Seq<RefM>
    decreases v, 0int,
{
    if v.len() == 0 {
        seq![]
    } else {
        proof {
            assert(decreases_to!(v => v.drop_last()));
            assert(decreases_to!(v => v.last()));
        }
        nested_refs(v.last().nodes@) + conds_refs(v.drop_last())
    }
}

pub open spec fn whens_refs(v: Seq<When>) -> Seq<RefM>
    decreases v, 0int,
{
    if v.len() == 0 {
        seq![]
    } else {
        proof {
            assert(decreases_to!(v => v.drop_last()));
            assert(decreases_to!(v => v.last()));
        }
        nested_refs(v.last().nodes@) + whens_refs(v.drop_last())
    }
}

/// All references of a template, in the order they are looked up.
pub open spec fn template_refs(v: Seq<Node>) -> Seq<RefM> {
    top_refs(v) + children_refs(v, true)
}


// ---------------------------------------------------------------------------
// Collecting the references.
// ---------------------------------------------------------------------------

fn push_ref(out: &mut Vec<Reference>, kind: RefKind, path: &String)
    ensures
        refs_m(final(out)@) == refs_m(old(out)@).push(RefM { kind, path: path@ }),
{
    out.push(Reference { kind, path: path.clone() });
    assert(refs_m(out@) =~= refs_m(old(out)@).push(RefM { kind, path: path@ }));
}

fn push_top_refs(out: &mut Vec<Reference>, v: &[Node])
    ensures
        refs_m(final(out)@) == refs_m(old(out)@) + top_refs(v@),
{
    let ghost start = refs_m(out@);
    let mut i: usize = 0;
    while i < v.len()
        invariant
            i <= v@.len(),
            refs_m(out@) == start + top_refs(v@.subrange(0, i as int)),
        decreases v.len() - i,
    {
        assert(v@.subrange(0, i + 1).drop_last() =~= v@.subrange(0, i as int));
        let ghost before = refs_m(out@);
        match &v[i] {
            Node::Extends(e) => push_ref(out, RefKind::Extends, &e.path),
            Node::Import(im) => push_ref(out, RefKind::Import, &im.path),
            Node::Include(inc) => push_ref(out, RefKind::Include, &inc.path),
            _ => {},
        }
        i = i + 1;
        assert(refs_m(out@) =~= start + top_refs(v@.subrange(0, i as int)));
    }
    assert(v@.subrange(0, i as int) =~= v@);
}

fn push_include_refs(out: &mut Vec<Reference>, v: &[Node])
    ensures
        refs_m(final(out)@) == refs_m(old(out)@) + include_refs(v@),
{
    let ghost start = refs_m(out@);
    let mut i: usize = 0;
    while i < v.len()
        invariant
            i <= v@.len(),
            refs_m(out@) == start + include_refs(v@.subrange(0, i as int)),
        decreases v.len() - i,
    {
        assert(v@.subrange(0, i + 1).drop_last() =~= v@.subrange(0, i as int));
        match &v[i] {
            Node::Include(inc) => push_ref(out, RefKind::Include, &inc.path),
            _ => {},
        }
        i = i + 1;
        assert(refs_m(out@) =~= start + include_refs(v@.subrange(0, i as int)));
    }
    assert(v@.subrange(0, i as int) =~= v@);
}

fn push_nested(out: &mut Vec<Reference>, v: &[Node])
    ensures
        refs_m(final(out)@) == refs_m(old(out)@) + nested_refs(v@),
    decreases v@, 1int,
{
    let ghost start = refs_m(out@);
    push_include_refs(out, v);
    push_children(out, v, false);
    assert(refs_m(out@) =~= start + nested_refs(v@));
}

fn push_children(out: &mut Vec<Reference>, v: &[Node], top: bool)
    ensures
        refs_m(final(out)@) == refs_m(old(out)@) + children_refs(v@, top),
    decreases v@, 0int,
{
    let ghost start = refs_m(out@);
    let mut k: usize = v.len();
    assert(v@.subrange(0, k as int) =~= v@);
    while k > 0
        invariant
            k <= v@.len(),
            refs_m(out@) + children_refs(v@.subrange(0, k as int), top) == start + children_refs(
                v@,
                top,
            ),
        decreases k,
    {
        let ghost sub = v@.subrange(0, k as int);
        assert(sub.drop_last() =~= v@.subrange(0, k - 1));
        assert(sub.last() == v@[k - 1]);
        let ghost before = refs_m(out@);
        push_node_children(out, &v[k - 1], top);
        k = k - 1;
        assert(refs_m(out@) + children_refs(v@.subrange(0, k as int), top) =~= before
            + children_refs(sub, top));
    }
    assert(children_refs(v@.subrange(0, 0), top) =~= Seq::<RefM>::empty());
    assert(refs_m(out@) =~= refs_m(out@) + children_refs(v@.subrange(0, 0), top));
}

fn push_node_children(out: &mut Vec<Reference>, n: &Node, top: bool)
    ensures
        refs_m(final(out)@) == refs_m(old(out)@) + node_children_refs(*n, top),
    decreases n, 0int,
{
    let ghost start = refs_m(out@);
    match n {
        Node::Macro(m) => {
            if top {
                push_nested(out, m.nodes.as_slice());
            } else {
                assert(refs_m(out@) =~= start + node_children_refs(*n, top));
            }
        },
        Node::BlockDef(b) => push_nested(out, b.nodes.as_slice()),
        Node::If(i) => push_conds(out, &i.branches),
        Node::Loop(l) => {
            push_nested(out, l.else_nodes.as_slice());
            push_nested(out, l.body.as_slice());
            assert(refs_m(out@) =~= start + node_children_refs(*n, top));
        },
        Node::Match(m) => push_whens(out, &m.arms),
        _ => {
            assert(refs_m(out@) =~= start + node_children_refs(*n, top));
        },
    }
}

fn push_conds(out: &mut Vec<Reference>, v: &Vec<Cond>)
    ensures
        refs_m(final(out)@) == refs_m(old(out)@) + conds_refs(v@),
    decreases v@, 0int,
{
    let ghost start = refs_m(out@);
    let mut k: usize = v.len();
    assert(v@.subrange(0, k as int) =~= v@);
    while k > 0
        invariant
            k <= v@.len(),
            refs_m(out@) + conds_refs(v@.subrange(0, k as int)) == start + conds_refs(v@),
        decreases k,
    {
        let ghost sub = v@.subrange(0, k as int);
        assert(sub.drop_last() =~= v@.subrange(0, k - 1));
        assert(sub.last() == v@[k - 1]);
        let ghost before = refs_m(out@);
        push_nested(out, v[k - 1].nodes.as_slice());
        k = k - 1;
        assert(refs_m(out@) + conds_refs(v@.subrange(0, k as int)) =~= before + conds_refs(sub));
    }
    assert(refs_m(out@) =~= refs_m(out@) + conds_refs(v@.subrange(0, 0)));
}

fn push_whens(out: &mut Vec<Reference>, v: &Vec<When>)
    ensures
        refs_m(final(out)@) == refs_m(old(out)@) + whens_refs(v@),
    decreases v@, 0int,
{
    let ghost start = refs_m(out@);
    let mut k: usize = v.len();
    assert(v@.subrange(0, k as int) =~= v@);
    while k > 0
        invariant
            k <= v@.len(),
            refs_m(out@) + whens_refs(v@.subrange(0, k as int)) == start + whens_refs(v@),
        decreases k,
    {
        let ghost sub = v@.subrange(0, k as int);
        assert(sub.drop_last() =~= v@.subrange(0, k - 1));
        assert(sub.last() == v@[k - 1]);
        let ghost before = refs_m(out@);
        push_nested(out, v[k - 1].nodes.as_slice());
        k = k - 1;
        assert(refs_m(out@) + whens_refs(v@.subrange(0, k as int)) =~= before + whens_refs(sub));
    }
    assert(refs_m(out@) =~= refs_m(out@) + whens_refs(v@.subrange(0, 0)));
}

/// The templates that the template with the nodes `nodes` refers to, in the
/// order in which they are looked up (see `template_refs`).
pub fn template_references(nodes: &[Node]) -> (r: Vec<Reference>)
    ensures
        refs_m(r@) == template_refs(nodes@),
{
    let mut out: Vec<Reference> = Vec::new();
    assert(refs_m(out@) =~= Seq::<RefM>::empty());
    push_top_refs(&mut out, nodes);
    push_children(&mut out, nodes, true);
    assert(refs_m(out@) =~= template_refs(nodes@));
    out
}


// ---------------------------------------------------------------------------
// The `extends` graph.
// ---------------------------------------------------------------------------

pub open spec fn graph_m(g: Seq<(String, String)>) -> Seq<(Seq<char>, Seq<char>)> {
    g.map_values(|e: (String, String)| (e.0@, e.1@))
}

/// An edge as shown in the cycle error: both paths quoted, with an arrow.
pub open spec fn edge_text(e: (Seq<char>, Seq<char>)) -> Seq<char> {
    debug_str(e.0) + " --> "@ + debug_str(e.1)
}

/// The lines of a pretty-printed list of strings.
pub open spec fn list_lines(v: Seq<Seq<char>>) -> Seq<char>
    decreases v.len(),
{
    if v.len() == 0 {
        seq![]
    } else {
        list_lines(v.drop_last()) + "    "@ + debug_str(v.last()) + ",\n"@
    }
}

/// A list of strings pretty-printed with `{:#?}`.
pub open spec fn pretty_list(v: Seq<Seq<char>>) -> Seq<char> {
    if v.len() == 0 {
        "[]"@
    } else {
        "[\n"@ + list_lines(v) + "]"@
    }
}

/// The error for an `extends` edge that was already there.
pub open spec fn cycle_message(g: Seq<(Seq<char>, Seq<char>)>) -> Seq<char> {
    "cyclic dependency in graph "@ + pretty_list(
        g.map_values(|e: (Seq<char>, Seq<char>)| edge_text(e)),
    )
}

fn edge_text_exec(a: &str, b: &str) -> (r: String)
    ensures
        r@ == edge_text((a@, b@)),
{
    let mut t = debug_quote(a);
    string_push_str(&mut t, " --> ");
    string_push_str(&mut t, debug_quote(b).as_str());
    t
}

fn cycle_message_exec(graph: &Vec<(String, String)>) -> (r: String)
    ensures
        r@ == cycle_message(graph_m(graph@)),
{
    let ghost texts = graph_m(graph@).map_values(|e: (Seq<char>, Seq<char>)| edge_text(e));
    let mut m = "cyclic dependency in graph ".to_owned();
    if graph.len() == 0 {
        string_push_str(&mut m, "[]");
        assert(texts.len() == 0);
        return m;
    }
    let ghost head = m@;
    string_push_str(&mut m, "[\n");
    let mut i: usize = 0;
    while i < graph.len()
        invariant
            i <= graph@.len(),
            texts == graph_m(graph@).map_values(|e: (Seq<char>, Seq<char>)| edge_text(e)),
            m@ == head + "[\n"@ + list_lines(texts.subrange(0, i as int)),
        decreases graph.len() - i,
    {
        let t = edge_text_exec(graph[i].0.as_str(), graph[i].1.as_str());
        assert(t@ == texts[i as int]);
        string_push_str(&mut m, "    ");
        string_push_str(&mut m, debug_quote(t.as_str()).as_str());
        string_push_str(&mut m, ",\n");
        assert(texts.subrange(0, i + 1).drop_last() =~= texts.subrange(0, i as int));
        i = i + 1;
        assert(m@ =~= head + "[\n"@ + list_lines(texts.subrange(0, i as int)));
    }
    assert(texts.subrange(0, i as int) =~= texts);
    string_push_str(&mut m, "]");
    assert(m@ =~= cycle_message(graph_m(graph@)));
    m
}

/// Records that the template at `parent` extends the one at `child`. When
/// that edge is already in `graph`, the templates extend each other in a
/// cycle: the graph is left as it is and the error lists its edges.
pub fn record_extends(graph: &mut Vec<(String, String)>, parent: &str, child: &str) -> (r: Result<
    (),
    CompileError,
>)
    ensures
        graph_m(old(graph)@).contains((parent@, child@)) ==> (r matches Err(e) && e.msg@
            == cycle_message(graph_m(old(graph)@)) && final(graph)@ == old(graph)@),
        !graph_m(old(graph)@).contains((parent@, child@)) ==> r is Ok && graph_m(final(graph)@)
            == graph_m(old(graph)@).push((parent@, child@)),
{
    let ghost g = graph_m(graph@);
    let mut i: usize = 0;
    while i < graph.len()
        invariant
            i <= graph@.len(),
            g == graph_m(graph@),
            forall|j: int| 0 <= j < i ==> g[j] != (parent@, child@),
        decreases graph.len() - i,
    {
        if crate::text::str_eq(graph[i].0.as_str(), parent) && crate::text::str_eq(
            graph[i].1.as_str(),
            child,
        ) {
            assert(g[i as int] == (parent@, child@));
            return Err(CompileError { msg: cycle_message_exec(graph) });
        }
        assert(g[i as int] == (graph@[i as int].0@, graph@[i as int].1@));
        i = i + 1;
    }
    assert(!g.contains((parent@, child@)));
    graph.push((parent.to_owned(), child.to_owned()));
    assert(graph_m(graph@) =~= g.push((parent@, child@)));
    Ok(())
}


// ---------------------------------------------------------------------------
// The templates still to read.
// ---------------------------------------------------------------------------

/// The first place, from `i`, where `x` stands in `s`; the length of `s`
/// where it does not.
pub open spec fn first_at(s: Seq<Seq<char>>, x: Seq<char>, i: int) -> int
    decreases s.len() - i,
{
    if i >= s.len() || i < 0 {
        s.len() as int
    } else if s[i] == x {
        i
    } else {
        first_at(s, x, i + 1)
    }
}

/// The templates found so far while following references: each path once,
/// with its parsed nodes once it was read, and the templates still to read
/// with their sources, the last added first.
pub struct UsedTemplates {
    found: Vec<(String, Option<Parsed>)>,
    pending: Vec<(String, String)>,
}

impl UsedTemplates {
    /// The paths found so far, in the order they were found.
    pub closed spec fn found_paths(&self) -> Seq<Seq<char>> {
        self.found@.map_values(|e: (String, Option<Parsed>)| e.0@)
    }

    /// The templates found so far, each with its parsed nodes once it was
    /// read.
    pub closed spec fn found_entries(&self) -> Seq<(Seq<char>, Option<Parsed>)> {
        self.found@.map_values(|e: (String, Option<Parsed>)| (e.0@, e.1))
    }

    /// The paths still to read, the next one last.
    pub closed spec fn pending_paths(&self) -> Seq<Seq<char>> {
        self.pending@.map_values(|e: (String, String)| e.0@)
    }

    /// Starts with the template at `path`, whose source is `source`.
    pub fn new(path: String, source: String) -> (r: Self)
        ensures
            r.found_paths() == Seq::<Seq<char>>::empty(),
            r.found_entries() == Seq::<(Seq<char>, Option<Parsed>)>::empty(),
            r.pending_paths() == seq![path@],
    {
        let r = UsedTemplates { found: Vec::new(), pending: vec![(path, source)] };
        assert(r.found_paths() =~= Seq::<Seq<char>>::empty());
        assert(r.found_entries() =~= Seq::<(Seq<char>, Option<Parsed>)>::empty());
        assert(r.pending_paths() =~= seq![path@]);
        r
    }

    /// The next template to read, with its source: the last one added.
    pub fn next(&mut self) -> (r: Option<(String, String)>)
        ensures
            old(self).pending_paths().len() == 0 ==> r is None && final(self).pending_paths()
                == old(self).pending_paths(),
            old(self).pending_paths().len() > 0 ==> (r matches Some(p) && p.0@ == old(
                self,
            ).pending_paths().last() && final(self).pending_paths() == old(
                self,
            ).pending_paths().drop_last()),
            final(self).found_paths() == old(self).found_paths(),
            final(self).found_entries() == old(self).found_entries(),
    {
        let ghost before = self.pending@;
        let r = self.pending.pop();
        proof {
            if before.len() > 0 {
                assert(self.pending_paths() =~= before.map_values(|e: (String, String)| e.0@).drop_last());
            }
        }
        r
    }

    /// Whether the template at `path` was not found before.
    pub fn wants(&self, path: &str) -> (r: bool)
        ensures
            r == !self.found_paths().contains(path@),
    {
        let mut i: usize = 0;
        while i < self.found.len()
            invariant
                i <= self.found@.len(),
                forall|j: int| 0 <= j < i ==> self.found_paths()[j] != path@,
            decreases self.found.len() - i,
        {
            if crate::text::str_eq(self.found[i].0.as_str(), path) {
                assert(self.found_paths()[i as int] == path@);
                return false;
            }
            assert(self.found_paths()[i as int] == self.found@[i as int].0@);
            i = i + 1;
        }
        true
    }

    /// Adds the template at `path`, with its source, to the ones to read.
    pub fn add(&mut self, path: String, source: String)
        ensures
            final(self).found_paths() == old(self).found_paths().push(path@),
            final(self).found_entries() == old(self).found_entries().push((path@, None::<Parsed>)),
            final(self).pending_paths() == old(self).pending_paths().push(path@),
    {
        let ghost f = self.found@;
        let ghost p = self.pending@;
        self.found.push((path.clone(), None));
        self.pending.push((path, source));
        assert(self.found_paths() =~= f.map_values(|e: (String, Option<Parsed>)| e.0@).push(
            self.found@.last().0@,
        ));
        assert(self.pending_paths() =~= p.map_values(|e: (String, String)| e.0@).push(
            self.pending@.last().0@,
        ));
        assert(self.found_entries() =~= f.map_values(|e: (String, Option<Parsed>)| (e.0@, e.1)).push(
            (self.found@.last().0@, None::<Parsed>),
        ));
    }

    /// Records the parsed nodes of the template at `path`.
    pub fn finish(&mut self, path: String, parsed: Parsed)
        ensures
            old(self).found_paths().contains(path@) ==> final(self).found_paths() == old(
                self,
            ).found_paths(),
            !old(self).found_paths().contains(path@) ==> final(self).found_paths() == old(
                self,
            ).found_paths().push(path@),
            final(self).pending_paths() == old(self).pending_paths(),
            ({
                let k = first_at(old(self).found_paths(), path@, 0);
                if k < old(self).found_paths().len() {
                    final(self).found_entries() == old(self).found_entries().update(
                        k,
                        (path@, Some(parsed)),
                    )
                } else {
                    final(self).found_entries() == old(self).found_entries().push(
                        (path@, Some(parsed)),
                    )
                }
            }),
    {
        let ghost fp = self.found_paths();
        let ghost fe = self.found_entries();
        let ghost pv = parsed;
        let mut i: usize = 0;
        while i < self.found.len()
            invariant
                i <= self.found@.len(),
                fp == self.found_paths(),
                fp == old(self).found_paths(),
                fe == old(self).found_entries(),
                fe == self.found_entries(),
                pv == parsed,
                fe.len() == fp.len(),
                self.pending@ == old(self).pending@,
                forall|j: int| 0 <= j < i ==> fp[j] != path@,
                first_at(fp, path@, 0) == first_at(fp, path@, i as int),
            decreases self.found.len() - i,
        {
            if crate::text::str_eq(self.found[i].0.as_str(), path.as_str()) {
                let ghost before = self.found@;
                assert(fp[i as int] == path@);
                self.found.set(i, (path, Some(parsed)));
                assert(self.found_paths() =~= fp);
                assert forall|j: int| 0 <= j < fe.len() implies #[trigger] self.found_entries()[j]
                    == fe.update(i as int, (path@, Some(pv)))[j] by {
                    if j != i {
                        assert(self.found@[j] == before[j]);
                    } else {
                        assert(self.found@[j] == (self.found@[j].0, Some(pv)));
                    }
                }
                assert(self.found_entries() =~= fe.update(i as int, (path@, Some(pv))));
                assert(self.pending_paths() =~= old(self).pending_paths());
                return;
            }
            assert(fp[i as int] == self.found@[i as int].0@);
            i = i + 1;
        }
        assert(!fp.contains(path@));
        let ghost before = self.found@;
        self.found.push((path, Some(parsed)));
        assert(self.found_paths() =~= fp.push(self.found@.last().0@));
        assert(self.found_entries() =~= fe.push((path@, Some(pv))));
        assert(self.pending_paths() =~= old(self).pending_paths());
    }

    /// The templates found, with their parsed nodes when they were read.
    pub fn into_found(self) -> (r: Vec<(String, Option<Parsed>)>)
        ensures
            r@.map_values(|e: (String, Option<Parsed>)| e.0@) == self.found_paths(),
            r@.map_values(|e: (String, Option<Parsed>)| (e.0@, e.1)) == self.found_entries(),
    {
        self.found
    }
}

} // verus!
