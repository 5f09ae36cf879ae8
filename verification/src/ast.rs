//! The template syntax tree, together with its mathematical model (strings as
//! character sequences, lists as sequences) in which the grammar is stated.

use vstd::prelude::*;

verus! {

/// Whitespace handling requested by a `+`, `-` or `~` marker next to a delimiter.
#[derive(Clone, Copy, Debug, PartialEq, Eq)]
pub enum Whitespace {
    Preserve,
    Suppress,
    Minimize,
}

/// The markers used on the left and on the right part of an item.
#[derive(Clone, Copy, Debug, PartialEq, Eq)]
pub struct Ws(pub Option<Whitespace>, pub Option<Whitespace>);

#[derive(Debug, PartialEq)]
pub enum Expr {
    BoolLit(String),
    NumLit(String),
    StrLit(String),
    CharLit(String),
    Var(String),
    Path(Vec<String>),
    Array(Vec<Expr>),
    Attr(Box<Expr>, String),
    Index(Box<Expr>, Box<Expr>),
    Filter(Filter),
    NamedArgument(String, Box<Expr>),
    Unary(String, Box<Expr>),
    BinOp(String, Box<Expr>, Box<Expr>),
    Range(String, Option<Box<Expr>>, Option<Box<Expr>>),
    Group(Box<Expr>),
    Tuple(Vec<Expr>),
    Call(Box<Expr>, Vec<Expr>),
    RustMacro(Vec<String>, String),
    Try(Box<Expr>),
    /// Only created when generating filter blocks, never by the parser.
    Generated(String),
}

#[derive(Debug, PartialEq)]
pub struct Filter {
    pub name: String,
    pub arguments: Vec<Expr>,
}

#[derive(Debug, PartialEq)]
pub enum Target {
    Placeholder,
    Name(String),
    Tuple(Vec<String>, Vec<Target>),
    Struct(Vec<String>, Vec<(String, Target)>),
    NumLit(String),
    StrLit(String),
    CharLit(String),
    BoolLit(String),
    Path(Vec<String>),
    OrChain(Vec<Target>),
}

#[derive(Debug, PartialEq)]
pub struct Lit {
    pub lws: String,
    pub val: String,
    pub rws: String,
}

#[derive(Debug, PartialEq)]
pub struct Comment {
    pub ws: Ws,
    pub content: String,
}

#[derive(Debug, PartialEq)]
pub struct Call {
    pub ws: Ws,
    pub scope: Option<String>,
    pub name: String,
    pub args: Vec<Expr>,
}

#[derive(Debug, PartialEq)]
pub struct Let {
    pub ws: Ws,
    pub var: Target,
    pub val: Option<Expr>,
}

#[derive(Debug, PartialEq)]
pub struct CondTest {
    pub target: Option<Target>,
    pub expr: Expr,
}

#[derive(Debug, PartialEq)]
pub struct Cond {
    pub ws: Ws,
    pub cond: Option<CondTest>,
    pub nodes: Vec<Node>,
}

#[derive(Debug, PartialEq)]
pub struct If {
    pub ws: Ws,
    pub branches: Vec<Cond>,
}

#[derive(Debug, PartialEq)]
pub struct When {
    pub ws: Ws,
    pub target: Target,
    pub nodes: Vec<Node>,
}

#[derive(Debug, PartialEq)]
pub struct Match {
    pub ws1: Ws,
    pub expr: Expr,
    pub arms: Vec<When>,
    pub ws2: Ws,
}

#[derive(Debug, PartialEq)]
pub struct Loop {
    pub ws1: Ws,
    pub var: Target,
    pub iter: Expr,
    pub cond: Option<Expr>,
    pub body: Vec<Node>,
    pub ws2: Ws,
    pub else_nodes: Vec<Node>,
    pub ws3: Ws,
}

#[derive(Debug, PartialEq)]
pub struct Extends {
    pub path: String,
}

#[derive(Debug, PartialEq)]
pub struct BlockDef {
    pub ws1: Ws,
    pub name: String,
    pub nodes: Vec<Node>,
    pub ws2: Ws,
}

#[derive(Debug, PartialEq)]
pub struct Include {
    pub ws: Ws,
    pub path: String,
}

#[derive(Debug, PartialEq)]
pub struct Import {
    pub ws: Ws,
    pub path: String,
    pub scope: String,
}

#[derive(Debug, PartialEq)]
pub struct Macro {
    pub ws1: Ws,
    pub name: String,
    pub args: Vec<String>,
    pub nodes: Vec<Node>,
    pub ws2: Ws,
}

#[derive(Debug, PartialEq)]
pub struct Raw {
    pub ws1: Ws,
    pub lit: Lit,
    pub ws2: Ws,
}

#[derive(Debug, PartialEq)]
pub struct FilterBlock {
    pub ws1: Ws,
    pub filters: Filter,
    pub nodes: Vec<Node>,
    pub ws2: Ws,
}

#[derive(Debug, PartialEq)]
pub enum Node {
    Lit(Lit),
    Comment(Comment),
    Expr(Ws, Expr),
    Call(Call),
    Let(Let),
    If(If),
    Match(Match),
    Loop(Box<Loop>),
    Extends(Extends),
    BlockDef(BlockDef),
    Include(Include),
    Import(Import),
    Macro(Macro),
    Raw(Raw),
    Break(Ws),
    Continue(Ws),
    FilterBlock(FilterBlock),
}

// ---------------------------------------------------------------------------
// The model: the same tree with strings as character sequences and lists as
// sequences.
// ---------------------------------------------------------------------------

pub enum ExprM {
    BoolLit(Seq<char>),
    NumLit(Seq<char>),
    StrLit(Seq<char>),
    CharLit(Seq<char>),
    Var(Seq<char>),
    Path(Seq<Seq<char>>),
    Array(Seq<ExprM>),
    Attr(Box<ExprM>, Seq<char>),
    Index(Box<ExprM>, Box<ExprM>),
    Filter(FilterM),
    NamedArgument(Seq<char>, Box<ExprM>),
    Unary(Seq<char>, Box<ExprM>),
    BinOp(Seq<char>, Box<ExprM>, Box<ExprM>),
    Range(Seq<char>, Option<Box<ExprM>>, Option<Box<ExprM>>),
    Group(Box<ExprM>),
    Tuple(Seq<ExprM>),
    Call(Box<ExprM>, Seq<ExprM>),
    RustMacro(Seq<Seq<char>>, Seq<char>),
    Try(Box<ExprM>),
    Generated(Seq<char>),
}

pub struct FilterM {
    pub name: Seq<char>,
    pub arguments: Seq<ExprM>,
}

pub enum TargetM {
    Placeholder,
    Name(Seq<char>),
    Tuple(Seq<Seq<char>>, Seq<TargetM>),
    Struct(Seq<Seq<char>>, Seq<(Seq<char>, TargetM)>),
    NumLit(Seq<char>),
    StrLit(Seq<char>),
    CharLit(Seq<char>),
    BoolLit(Seq<char>),
    Path(Seq<Seq<char>>),
    OrChain(Seq<TargetM>),
}

pub struct LitM {
    pub lws: Seq<char>,
    pub val: Seq<char>,
    pub rws: Seq<char>,
}

pub struct CommentM {
    pub ws: Ws,
    pub content: Seq<char>,
}

pub struct CallM {
    pub ws: Ws,
    pub scope: Option<Seq<char>>,
    pub name: Seq<char>,
    pub args: Seq<ExprM>,
}

pub struct LetM {
    pub ws: Ws,
    pub var: TargetM,
    pub val: Option<ExprM>,
}

pub struct CondTestM {
    pub target: Option<TargetM>,
    pub expr: ExprM,
}

pub struct CondM {
    pub ws: Ws,
    pub cond: Option<CondTestM>,
    pub nodes: Seq<NodeM>,
}

pub struct IfM {
    pub ws: Ws,
    pub branches: Seq<CondM>,
}

pub struct WhenM {
    pub ws: Ws,
    pub target: TargetM,
    pub nodes: Seq<NodeM>,
}

pub struct MatchM {
    pub ws1: Ws,
    pub expr: ExprM,
    pub arms: Seq<WhenM>,
    pub ws2: Ws,
}

pub struct LoopM {
    pub ws1: Ws,
    pub var: TargetM,
    pub iter: ExprM,
    pub cond: Option<ExprM>,
    pub body: Seq<NodeM>,
    pub ws2: Ws,
    pub else_nodes: Seq<NodeM>,
    pub ws3: Ws,
}

pub struct BlockDefM {
    pub ws1: Ws,
    pub name: Seq<char>,
    pub nodes: Seq<NodeM>,
    pub ws2: Ws,
}

pub struct ImportM {
    pub ws: Ws,
    pub path: Seq<char>,
    pub scope: Seq<char>,
}

pub struct MacroM {
    pub ws1: Ws,
    pub name: Seq<char>,
    pub args: Seq<Seq<char>>,
    pub nodes: Seq<NodeM>,
    pub ws2: Ws,
}

pub struct RawM {
    pub ws1: Ws,
    pub lit: LitM,
    pub ws2: Ws,
}

pub struct FilterBlockM {
    pub ws1: Ws,
    pub filters: FilterM,
    pub nodes: Seq<NodeM>,
    pub ws2: Ws,
}

pub enum NodeM {
    Lit(LitM),
    Comment(CommentM),
    Expr(Ws, ExprM),
    Call(CallM),
    Let(LetM),
    If(IfM),
    Match(MatchM),
    Loop(Box<LoopM>),
    Extends(Seq<char>),
    BlockDef(BlockDefM),
    Include(Ws, Seq<char>),
    Import(ImportM),
    Macro(MacroM),
    Raw(RawM),
    Break(Ws),
    Continue(Ws),
    FilterBlock(FilterBlockM),
}

// ---------------------------------------------------------------------------
// Views.
// ---------------------------------------------------------------------------

pub open spec fn strs_m(v: Seq<String>) -> Seq<Seq<char>> {
    v.map_values(|s: String| s@)
}

pub open spec fn expr_m(e: Expr) -> ExprM
    decreases e,
{
    match e {
        Expr::BoolLit(s) => ExprM::BoolLit(s@),
        Expr::NumLit(s) => ExprM::NumLit(s@),
        Expr::StrLit(s) => ExprM::StrLit(s@),
        Expr::CharLit(s) => ExprM::CharLit(s@),
        Expr::Var(s) => ExprM::Var(s@),
        Expr::Path(p) => ExprM::Path(strs_m(p@)),
        Expr::Array(v) => ExprM::Array(exprs_m(v@)),
        Expr::Attr(b, s) => ExprM::Attr(Box::new(expr_m(*b)), s@),
        Expr::Index(a, b) => ExprM::Index(Box::new(expr_m(*a)), Box::new(expr_m(*b))),
        Expr::Filter(f) => ExprM::Filter(FilterM { name: f.name@, arguments: exprs_m(f.arguments@) }),
        Expr::NamedArgument(s, b) => ExprM::NamedArgument(s@, Box::new(expr_m(*b))),
        Expr::Unary(s, b) => ExprM::Unary(s@, Box::new(expr_m(*b))),
        Expr::BinOp(s, a, b) => ExprM::BinOp(s@, Box::new(expr_m(*a)), Box::new(expr_m(*b))),
        Expr::Range(s, a, b) => ExprM::Range(
            s@,
            match a {
                Some(x) => Some(Box::new(expr_m(*x))),
                None => None,
            },
            match b {
                Some(x) => Some(Box::new(expr_m(*x))),
                None => None,
            },
        ),
        Expr::Group(b) => ExprM::Group(Box::new(expr_m(*b))),
        Expr::Tuple(v) => ExprM::Tuple(exprs_m(v@)),
        Expr::Call(b, v) => ExprM::Call(Box::new(expr_m(*b)), exprs_m(v@)),
        Expr::RustMacro(p, s) => ExprM::RustMacro(strs_m(p@), s@),
        Expr::Try(b) => ExprM::Try(Box::new(expr_m(*b))),
        Expr::Generated(s) => ExprM::Generated(s@),
    }
}

pub open spec fn exprs_m(v: Seq<Expr>) -> Seq<ExprM>
    decreases v,
{
    if v.len() == 0 {
        seq![]
    } else {
        proof {
            assert(decreases_to!(v => v.drop_last()));
        }
        exprs_m(v.drop_last()).push(expr_m(v.last()))
    }
}

pub open spec fn filter_m(f: Filter) -> FilterM {
    FilterM { name: f.name@, arguments: exprs_m(f.arguments@) }
}

pub open spec fn target_m(t: Target) -> TargetM
    decreases t,
{
    match t {
        Target::Placeholder => TargetM::Placeholder,
        Target::Name(s) => TargetM::Name(s@),
        Target::Tuple(p, v) => TargetM::Tuple(strs_m(p@), targets_m(v@)),
        Target::Struct(p, v) => TargetM::Struct(strs_m(p@), named_targets_m(v@)),
        Target::NumLit(s) => TargetM::NumLit(s@),
        Target::StrLit(s) => TargetM::StrLit(s@),
        Target::CharLit(s) => TargetM::CharLit(s@),
        Target::BoolLit(s) => TargetM::BoolLit(s@),
        Target::Path(p) => TargetM::Path(strs_m(p@)),
        Target::OrChain(v) => TargetM::OrChain(targets_m(v@)),
    }
}

pub open spec fn targets_m(v: Seq<Target>) -> Seq<TargetM>
    decreases v,
{
    if v.len() == 0 {
        seq![]
    } else {
        proof {
            assert(decreases_to!(v => v.drop_last()));
        }
        targets_m(v.drop_last()).push(target_m(v.last()))
    }
}

pub open spec fn named_targets_m(v: Seq<(String, Target)>) -> Seq<(Seq<char>, TargetM)>
    decreases v,
{
    if v.len() == 0 {
        seq![]
    } else {
        proof {
            assert(decreases_to!(v => v.drop_last()));
            assert(decreases_to!(v => v.last()));
        }
        named_targets_m(v.drop_last()).push((v.last().0@, target_m(v.last().1)))
    }
}

pub open spec fn lit_m(l: Lit) -> LitM {
    LitM { lws: l.lws@, val: l.val@, rws: l.rws@ }
}

pub open spec fn opt_expr_m(e: Option<Expr>) -> Option<ExprM> {
    match e {
        Some(x) => Some(expr_m(x)),
        None => None,
    }
}

pub open spec fn opt_target_m(t: Option<Target>) -> Option<TargetM> {
    match t {
        Some(x) => Some(target_m(x)),
        None => None,
    }
}

pub open spec fn node_m(n: Node) -> NodeM
    decreases n,
{
    match n {
        Node::Lit(l) => NodeM::Lit(lit_m(l)),
        Node::Comment(c) => NodeM::Comment(CommentM { ws: c.ws, content: c.content@ }),
        Node::Expr(ws, e) => NodeM::Expr(ws, expr_m(e)),
        Node::Call(c) => NodeM::Call(
            CallM {
                ws: c.ws,
                scope: match c.scope {
                    Some(s) => Some(s@),
                    None => None,
                },
                name: c.name@,
                args: exprs_m(c.args@),
            },
        ),
        Node::Let(l) => NodeM::Let(LetM { ws: l.ws, var: target_m(l.var), val: opt_expr_m(l.val) }),
        Node::If(i) => NodeM::If(IfM { ws: i.ws, branches: conds_m(i.branches@) }),
        Node::Match(m) => NodeM::Match(
            MatchM { ws1: m.ws1, expr: expr_m(m.expr), arms: whens_m(m.arms@), ws2: m.ws2 },
        ),
        Node::Loop(l) => NodeM::Loop(
            Box::new(
                LoopM {
                    ws1: l.ws1,
                    var: target_m(l.var),
                    iter: expr_m(l.iter),
                    cond: opt_expr_m(l.cond),
                    body: nodes_m(l.body@),
                    ws2: l.ws2,
                    else_nodes: nodes_m(l.else_nodes@),
                    ws3: l.ws3,
                },
            ),
        ),
        Node::Extends(e) => NodeM::Extends(e.path@),
        Node::BlockDef(b) => NodeM::BlockDef(
            BlockDefM { ws1: b.ws1, name: b.name@, nodes: nodes_m(b.nodes@), ws2: b.ws2 },
        ),
        Node::Include(i) => NodeM::Include(i.ws, i.path@),
        Node::Import(i) => NodeM::Import(ImportM { ws: i.ws, path: i.path@, scope: i.scope@ }),
        Node::Macro(m) => NodeM::Macro(
            MacroM {
                ws1: m.ws1,
                name: m.name@,
                args: strs_m(m.args@),
                nodes: nodes_m(m.nodes@),
                ws2: m.ws2,
            },
        ),
        Node::Raw(r) => NodeM::Raw(RawM { ws1: r.ws1, lit: lit_m(r.lit), ws2: r.ws2 }),
        Node::Break(ws) => NodeM::Break(ws),
        Node::Continue(ws) => NodeM::Continue(ws),
        Node::FilterBlock(f) => NodeM::FilterBlock(
            FilterBlockM {
                ws1: f.ws1,
                filters: filter_m(f.filters),
                nodes: nodes_m(f.nodes@),
                ws2: f.ws2,
            },
        ),
    }
}

pub open spec fn nodes_m(v: Seq<Node>) -> Seq<NodeM>
    decreases v,
{
    if v.len() == 0 {
        seq![]
    } else {
        proof {
            assert(decreases_to!(v => v.drop_last()));
        }
        nodes_m(v.drop_last()).push(node_m(v.last()))
    }
}

pub open spec fn conds_m(v: Seq<Cond>) -> Seq<CondM>
    decreases v,
{
    if v.len() == 0 {
        seq![]
    } else {
        proof {
            assert(decreases_to!(v => v.drop_last()));
            assert(decreases_to!(v => v.last()));
        }
        let c = v.last();
        conds_m(v.drop_last()).push(
            CondM {
                ws: c.ws,
                cond: match c.cond {
                    Some(t) => Some(CondTestM { target: opt_target_m(t.target), expr: expr_m(t.expr) }),
                    None => None,
                },
                nodes: nodes_m(c.nodes@),
            },
        )
    }
}

pub open spec fn whens_m(v: Seq<When>) -> Seq<WhenM>
    decreases v,
{
    if v.len() == 0 {
        seq![]
    } else {
        proof {
            assert(decreases_to!(v => v.drop_last()));
            assert(decreases_to!(v => v.last()));
        }
        let w = v.last();
        whens_m(v.drop_last()).push(
            WhenM { ws: w.ws, target: target_m(w.target), nodes: nodes_m(w.nodes@) },
        )
    }
}


// ---------------------------------------------------------------------------
// Facts about the views of lists.
// ---------------------------------------------------------------------------

pub proof fn lemma_exprs_push(v: Seq<Expr>, e: Expr)
    ensures
        exprs_m(v.push(e)) == exprs_m(v).push(expr_m(e)),
{
    assert(v.push(e).drop_last() =~= v);
}

pub proof fn lemma_exprs_len(v: Seq<Expr>)
    ensures
        exprs_m(v).len() == v.len(),
    decreases v.len(),
{
    if v.len() > 0 {
        lemma_exprs_len(v.drop_last());
    }
}

pub proof fn lemma_exprs_prepend(e: Expr, v: Seq<Expr>)
    ensures
        exprs_m(seq![e] + v) == seq![expr_m(e)] + exprs_m(v),
    decreases v.len(),
{
    if v.len() == 0 {
        assert(seq![e] + v =~= seq![e]);
        assert(seq![e].drop_last() =~= Seq::<Expr>::empty());
        assert(exprs_m(Seq::<Expr>::empty()) =~= seq![]);
        assert(exprs_m(seq![e]) =~= seq![expr_m(e)]);
        assert(seq![expr_m(e)] + exprs_m(v) =~= seq![expr_m(e)]);
    } else {
        lemma_exprs_prepend(e, v.drop_last());
        assert((seq![e] + v).drop_last() =~= seq![e] + v.drop_last());
        assert((seq![e] + v).last() == v.last());
        assert(exprs_m(seq![e] + v) == exprs_m(seq![e] + v.drop_last()).push(expr_m(v.last())));
        assert(seq![expr_m(e)] + exprs_m(v) =~= (seq![expr_m(e)] + exprs_m(v.drop_last())).push(
            expr_m(v.last()),
        ));
    }
}

pub proof fn lemma_targets_push(v: Seq<Target>, t: Target)
    ensures
        targets_m(v.push(t)) == targets_m(v).push(target_m(t)),
{
    assert(v.push(t).drop_last() =~= v);
}

pub proof fn lemma_named_targets_push(v: Seq<(String, Target)>, t: (String, Target))
    ensures
        named_targets_m(v.push(t)) == named_targets_m(v).push((t.0@, target_m(t.1))),
{
    assert(v.push(t).drop_last() =~= v);
}

pub proof fn lemma_nodes_push(v: Seq<Node>, n: Node)
    ensures
        nodes_m(v.push(n)) == nodes_m(v).push(node_m(n)),
{
    assert(v.push(n).drop_last() =~= v);
}

pub proof fn lemma_conds_push(v: Seq<Cond>, c: Cond)
    ensures
        conds_m(v.push(c)) == conds_m(v).push(
            CondM {
                ws: c.ws,
                cond: match c.cond {
                    Some(t) => Some(CondTestM { target: opt_target_m(t.target), expr: expr_m(t.expr) }),
                    None => None,
                },
                nodes: nodes_m(c.nodes@),
            },
        ),
{
    assert(v.push(c).drop_last() =~= v);
}

pub proof fn lemma_whens_push(v: Seq<When>, w: When)
    ensures
        whens_m(v.push(w)) == whens_m(v).push(
            WhenM { ws: w.ws, target: target_m(w.target), nodes: nodes_m(w.nodes@) },
        ),
{
    assert(v.push(w).drop_last() =~= v);
}


pub proof fn lemma_targets_len(v: Seq<Target>)
    ensures
        targets_m(v).len() == v.len(),
    decreases v.len(),
{
    if v.len() > 0 {
        lemma_targets_len(v.drop_last());
    }
}

pub proof fn lemma_named_targets_len(v: Seq<(String, Target)>)
    ensures
        named_targets_m(v).len() == v.len(),
    decreases v.len(),
{
    if v.len() > 0 {
        lemma_named_targets_len(v.drop_last());
    }
}

pub proof fn lemma_nodes_len(v: Seq<Node>)
    ensures
        nodes_m(v).len() == v.len(),
    decreases v.len(),
{
    if v.len() > 0 {
        lemma_nodes_len(v.drop_last());
    }
}

} // verus!
