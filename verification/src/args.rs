//! The arguments of the `template()` attribute.
//!
//! The attributes of the type that derives `Template` are given as plain
//! values: each attribute's name, and for a list its items, each either a
//! `key = literal` pair or something else (with the text to show for it in
//! an error).

use vstd::prelude::*;
use crate::config::CompileError;
use crate::input::{print_named, Print, Source};
use crate::text::{str_eq, string_push_str};

verus! {

/// A literal on the right of `key =`.
#[derive(Debug, Clone, PartialEq, Eq)]
pub enum AttrLit {
    /// A string literal, with its value.
    Str(String),
    /// Any other literal.
    Other,
}

/// An item of an attribute's list.
#[derive(Debug, Clone, PartialEq, Eq)]
pub enum AttrItem {
    /// `key = literal`: the key's name when it is a single identifier, the
    /// key as shown in error messages, and the literal.
    NameValue { key: Option<String>, key_debug: String, lit: AttrLit },
    /// Anything else, as shown in error messages.
    Other(String),
}

/// What an attribute holds.
#[derive(Debug, Clone, PartialEq, Eq)]
pub enum AttrMeta {
    /// A list of items, as in `#[template(path = "a.html")]`.
    List(Vec<AttrItem>),
    /// Any other well-formed attribute.
    Other,
    /// An attribute that could not be read, with the reason.
    Invalid(String),
}

/// An attribute: its name when it is a single identifier, and its content.
#[derive(Debug, Clone, PartialEq, Eq)]
pub struct Attribute {
    pub name: Option<String>,
    pub meta: AttrMeta,
}

/// The arguments of `template()`.
#[derive(Debug, Clone, PartialEq, Eq)]
pub struct TemplateArgs {
    pub source: Option<Source>,
    pub print: Print,
    pub escaping: Option<String>,
    pub ext: Option<String>,
    pub syntax: Option<String>,
    pub config_path: Option<String>,
    pub whitespace: Option<String>,
}

impl Default for TemplateArgs {
    fn default() -> (r: Self)
        ensures
            r.source is None,
            r.print == Print::Nothing,
            r.escaping is None,
            r.ext is None,
            r.syntax is None,
            r.config_path is None,
            r.whitespace is None,
    {
        TemplateArgs {
            source: None,
            print: Print::Nothing,
            escaping: None,
            ext: None,
            syntax: None,
            config_path: None,
            whitespace: None,
        }
    }
}

// ---------------------------------------------------------------------------
// The model.
// ---------------------------------------------------------------------------

pub enum SourceM {
    Path(Seq<char>),
    Source(Seq<char>),
}

pub struct ArgsM {
    pub source: Option<SourceM>,
    pub print: Print,
    pub escaping: Option<Seq<char>>,
    pub ext: Option<Seq<char>>,
    pub syntax: Option<Seq<char>>,
    pub config_path: Option<Seq<char>>,
    pub whitespace: Option<Seq<char>>,
}

pub open spec fn opt_view(o: Option<String>) -> Option<Seq<char>> {
    match o {
        Some(s) => Some(s@),
        None => None,
    }
}

pub open spec fn args_m(a: TemplateArgs) -> ArgsM {
    ArgsM {
        source: match a.source {
            Some(Source::Path(p)) => Some(SourceM::Path(p@)),
            Some(Source::Source(s)) => Some(SourceM::Source(s@)),
            None => None,
        },
        print: a.print,
        escaping: opt_view(a.escaping),
        ext: opt_view(a.ext),
        syntax: opt_view(a.syntax),
        config_path: opt_view(a.config_path),
        whitespace: opt_view(a.whitespace),
    }
}

pub open spec fn default_args() -> ArgsM {
    ArgsM {
        source: None,
        print: Print::Nothing,
        escaping: None,
        ext: None,
        syntax: None,
        config_path: None,
        whitespace: None,
    }
}

/// The list of the one `template` attribute among `attrs[..n]`, or why
/// there is none: a second `template` attribute, or one that is not a list.
pub open spec fn template_list(attrs: Seq<Attribute>, n: int) -> Option<Result<Seq<AttrItem>, Seq<char>>>
    decreases n,
{
    if n <= 0 || n > attrs.len() {
        None
    } else {
        let a = attrs[n - 1];
        match template_list(attrs, n - 1) {
            Some(Err(m)) => Some(Err(m)),
            found => if a.name matches Some(x) && x@ == "template"@ {
                if found is Some {
                    Some(Err("duplicated 'template' attribute"@))
                } else {
                    match a.meta {
                        AttrMeta::List(items) => Some(Ok(items@)),
                        AttrMeta::Other => Some(Err("'template' attribute must be a list"@)),
                        AttrMeta::Invalid(e) => Some(Err("unable to parse attribute: "@ + e@)),
                    }
                }
            } else {
                found
            },
        }
    }
}

proof fn lemma_template_list_err(attrs: Seq<Attribute>, n: int, k: int, m: Seq<char>)
    requires
        0 <= n <= k <= attrs.len(),
        template_list(attrs, n) == Some(Err::<Seq<AttrItem>, Seq<char>>(m)),
    ensures
        template_list(attrs, k) == Some(Err::<Seq<AttrItem>, Seq<char>>(m)),
    decreases k - n,
{
    if k > n {
        lemma_template_list_err(attrs, n, k - 1, m);
    }
}

proof fn lemma_apply_items_err(items: Seq<AttrItem>, n: int, k: int, m: Seq<char>)
    requires
        0 <= n <= k <= items.len(),
        apply_items(items.subrange(0, n)) == Err::<ArgsM, Seq<char>>(m),
    ensures
        apply_items(items.subrange(0, k)) == Err::<ArgsM, Seq<char>>(m),
    decreases k - n,
{
    if k > n {
        lemma_apply_items_err(items, n, k - 1, m);
        assert(items.subrange(0, k).drop_last() =~= items.subrange(0, k - 1));
    }
}

/// The string literal of `lit`, or the error `msg`.
pub open spec fn str_lit(lit: AttrLit, msg: Seq<char>) -> Result<Seq<char>, Seq<char>> {
    match lit {
        AttrLit::Str(s) => Ok(s@),
        AttrLit::Other => Err(msg),
    }
}

/// The arguments after the item `item`.
pub open spec fn apply_item(a: ArgsM, item: AttrItem) -> Result<ArgsM, Seq<char>> {
    match item {
        AttrItem::Other(d) => Err("unsupported attribute argument "@ + d@),
        AttrItem::NameValue { key, key_debug, lit } => {
            let k = key.unwrap()@;
            if k == "path"@ {
                match str_lit(lit, "template path must be string literal"@) {
                    Err(m) => Err(m),
                    Ok(s) => if a.source is Some {
                        Err("must specify 'source' or 'path', not both"@)
                    } else {
                        Ok(ArgsM { source: Some(SourceM::Path(s)), ..a })
                    },
                }
            } else if k == "source"@ {
                match str_lit(lit, "template source must be string literal"@) {
                    Err(m) => Err(m),
                    Ok(s) => if a.source is Some {
                        Err("must specify 'source' or 'path', not both"@)
                    } else {
                        Ok(ArgsM { source: Some(SourceM::Source(s)), ..a })
                    },
                }
            } else if k == "print"@ {
                match str_lit(lit, "print value must be string literal"@) {
                    Err(m) => Err(m),
                    Ok(s) => match print_named(s) {
                        Some(p) => Ok(ArgsM { print: p, ..a }),
                        None => Err("invalid value for print option: "@ + s),
                    },
                }
            } else if k == "escape"@ {
                match str_lit(lit, "escape value must be string literal"@) {
                    Err(m) => Err(m),
                    Ok(s) => Ok(ArgsM { escaping: Some(s), ..a }),
                }
            } else if k == "ext"@ {
                match str_lit(lit, "ext value must be string literal"@) {
                    Err(m) => Err(m),
                    Ok(s) => Ok(ArgsM { ext: Some(s), ..a }),
                }
            } else if k == "syntax"@ {
                match str_lit(lit, "syntax value must be string literal"@) {
                    Err(m) => Err(m),
                    Ok(s) => Ok(ArgsM { syntax: Some(s), ..a }),
                }
            } else if k == "config"@ {
                match str_lit(lit, "config value must be string literal"@) {
                    Err(m) => Err(m),
                    Ok(s) => Ok(ArgsM { config_path: Some(s), ..a }),
                }
            } else if k == "whitespace"@ {
                match str_lit(lit, "whitespace value must be string literal"@) {
                    Err(m) => Err(m),
                    Ok(s) => Ok(ArgsM { whitespace: Some(s), ..a }),
                }
            } else {
                Err("unsupported attribute key "@ + key_debug@ + " found"@)
            }
        },
    }
}

/// The arguments after the items `items`, in order, or the first error.
pub open spec fn apply_items(items: Seq<AttrItem>) -> Result<ArgsM, Seq<char>>
    decreases items.len(),
{
    if items.len() == 0 {
        Ok(default_args())
    } else {
        match apply_items(items.drop_last()) {
            Err(m) => Err(m),
            Ok(a) => apply_item(a, items.last()),
        }
    }
}

/// What `TemplateArgs::new` gives for the attributes `attrs`.
pub open spec fn args_spec(attrs: Seq<Attribute>) -> Result<ArgsM, Seq<char>> {
    match template_list(attrs, attrs.len() as int) {
        None => Err("no attribute 'template' found"@),
        Some(Err(m)) => Err(m),
        Some(Ok(items)) => apply_items(items),
    }
}

/// A `key = literal` item has a single-identifier key.
pub open spec fn key_named(item: AttrItem) -> bool {
    match item {
        AttrItem::NameValue { key, .. } => key is Some,
        AttrItem::Other(_) => true,
    }
}

pub open spec fn items_keys_named(items: Seq<AttrItem>) -> bool {
    forall|j: int| 0 <= j < items.len() ==> key_named(#[trigger] items[j])
}

/// Every `key = literal` item of every attribute has a single-identifier key.
pub open spec fn keys_named(attrs: Seq<Attribute>) -> bool {
    forall|i: int|
        0 <= i < attrs.len() ==> match #[trigger] attrs[i].meta {
            AttrMeta::List(items) => items_keys_named(items@),
            _ => true,
        }
}

// ---------------------------------------------------------------------------
// Reading the attributes.
// ---------------------------------------------------------------------------

fn lit_str(lit: &AttrLit, msg: &str) -> (r: Result<String, CompileError>)
    ensures
        match str_lit(*lit, msg@) {
            Ok(s) => r matches Ok(x) && x@ == s,
            Err(m) => r matches Err(e) && e.msg@ == m,
        },
{
    match lit {
        AttrLit::Str(s) => Ok(s.clone()),
        AttrLit::Other => Err(CompileError { msg: msg.to_owned() }),
    }
}

fn error(msg: &str) -> (r: CompileError)
    ensures
        r.msg@ == msg@,
{
    CompileError { msg: msg.to_owned() }
}

fn apply_item_exec(args: TemplateArgs, item: &AttrItem) -> (r: Result<TemplateArgs, CompileError>)
    requires
        key_named(*item),
    ensures
        match apply_item(args_m(args), *item) {
            Ok(a) => r matches Ok(x) && args_m(x) == a,
            Err(m) => r matches Err(e) && e.msg@ == m,
        },
{
    let mut args = args;
    match item {
        AttrItem::Other(d) => {
            let mut m = "unsupported attribute argument ".to_owned();
            string_push_str(&mut m, d.as_str());
            Err(CompileError { msg: m })
        },
        AttrItem::NameValue { key, key_debug, lit } => {
            let k = match key {
                Some(k) => k.as_str(),
                None => {
                    return Err(error(""));
                },
            };
            if str_eq(k, "path") {
                let s = match lit_str(lit, "template path must be string literal") {
                    Ok(s) => s,
                    Err(e) => {
                        return Err(e);
                    },
                };
                if args.source.is_some() {
                    return Err(error("must specify 'source' or 'path', not both"));
                }
                args.source = Some(Source::Path(s));
                Ok(args)
            } else if str_eq(k, "source") {
                let s = match lit_str(lit, "template source must be string literal") {
                    Ok(s) => s,
                    Err(e) => {
                        return Err(e);
                    },
                };
                if args.source.is_some() {
                    return Err(error("must specify 'source' or 'path', not both"));
                }
                args.source = Some(Source::Source(s));
                Ok(args)
            } else if str_eq(k, "print") {
                let s = match lit_str(lit, "print value must be string literal") {
                    Ok(s) => s,
                    Err(e) => {
                        return Err(e);
                    },
                };
                args.print = match Print::from_str(s.as_str()) {
                    Ok(p) => p,
                    Err(e) => {
                        return Err(e);
                    },
                };
                Ok(args)
            } else if str_eq(k, "escape") {
                let s = match lit_str(lit, "escape value must be string literal") {
                    Ok(s) => s,
                    Err(e) => {
                        return Err(e);
                    },
                };
                args.escaping = Some(s);
                Ok(args)
            } else if str_eq(k, "ext") {
                let s = match lit_str(lit, "ext value must be string literal") {
                    Ok(s) => s,
                    Err(e) => {
                        return Err(e);
                    },
                };
                args.ext = Some(s);
                Ok(args)
            } else if str_eq(k, "syntax") {
                let s = match lit_str(lit, "syntax value must be string literal") {
                    Ok(s) => s,
                    Err(e) => {
                        return Err(e);
                    },
                };
                args.syntax = Some(s);
                Ok(args)
            } else if str_eq(k, "config") {
                let s = match lit_str(lit, "config value must be string literal") {
                    Ok(s) => s,
                    Err(e) => {
                        return Err(e);
                    },
                };
                args.config_path = Some(s);
                Ok(args)
            } else if str_eq(k, "whitespace") {
                let s = match lit_str(lit, "whitespace value must be string literal") {
                    Ok(s) => s,
                    Err(e) => {
                        return Err(e);
                    },
                };
                args.whitespace = Some(s);
                Ok(args)
            } else {
                let mut m = "unsupported attribute key ".to_owned();
                string_push_str(&mut m, key_debug.as_str());
                string_push_str(&mut m, " found");
                Err(CompileError { msg: m })
            }
        },
    }
}

impl TemplateArgs {
    /// The arguments of the one `template` attribute among `attrs`: its
    /// `path` or `source`, `print`, `escape`, `ext`, `syntax`, `config` and `whitespace`.
    pub fn new(attrs: &Vec<Attribute>) -> (r: Result<TemplateArgs, CompileError>)
        requires
            keys_named(attrs@),
        ensures
            match args_spec(attrs@) {
                Ok(a) => r matches Ok(x) && args_m(x) == a,
                Err(m) => r matches Err(e) && e.msg@ == m,
            },
    {
        let mut found: Option<&Vec<AttrItem>> = None;
        let ghost mut fi: int = -1;
        let mut n: usize = 0;
        while n < attrs.len()
            invariant
                n <= attrs@.len(),
                found matches Some(v) ==> (0 <= fi < n && attrs@[fi].meta == AttrMeta::List(*v)),
                match template_list(attrs@, n as int) {
                    None => found is None,
                    Some(Ok(items)) => found matches Some(v) && v@ == items,
                    Some(Err(_)) => false,
                },
            decreases attrs.len() - n,
        {
            let a = &attrs[n];
            let is_template = match &a.name {
                Some(x) => str_eq(x.as_str(), "template"),
                None => false,
            };
            if is_template {
                if found.is_some() {
                    proof {
                        lemma_template_list_err(
                            attrs@,
                            n + 1,
                            attrs@.len() as int,
                            "duplicated 'template' attribute"@,
                        );
                    }
                    return Err(error("duplicated 'template' attribute"));
                }
                match &a.meta {
                    AttrMeta::List(items) => {
                        found = Some(items);
                        proof {
                            fi = n as int;
                        }
                    },
                    AttrMeta::Other => {
                        proof {
                            lemma_template_list_err(
                                attrs@,
                                n + 1,
                                attrs@.len() as int,
                                "'template' attribute must be a list"@,
                            );
                        }
                        return Err(error("'template' attribute must be a list"));
                    },
                    AttrMeta::Invalid(e) => {
                        let mut m = "unable to parse attribute: ".to_owned();
                        string_push_str(&mut m, e.as_str());
                        proof {
                            lemma_template_list_err(attrs@, n + 1, attrs@.len() as int, m@);
                        }
                        return Err(CompileError { msg: m });
                    },
                }
            }
            n = n + 1;
        }
        let items = match found {
            Some(v) => v,
            None => {
                return Err(error("no attribute 'template' found"));
            },
        };
        assert(items_keys_named(items@)) by {
            assert(attrs@[fi].meta == AttrMeta::List(*items));
        }
        let mut args = TemplateArgs::default();
        let mut i: usize = 0;
        while i < items.len()
            invariant
                i <= items@.len(),
                items_keys_named(items@),
                args_spec(attrs@) == apply_items(items@),
                apply_items(items@.subrange(0, i as int)) == Ok::<ArgsM, Seq<char>>(args_m(args)),
            decreases items.len() - i,
        {
            assert(items@.subrange(0, i + 1).drop_last() =~= items@.subrange(0, i as int));
            args = match apply_item_exec(args, &items[i]) {
                Ok(a) => a,
                Err(e) => {
                    proof {
                        lemma_apply_items_err(items@, i + 1, items@.len() as int, e.msg@);
                        assert(items@.subrange(0, items@.len() as int) =~= items@);
                    }
                    return Err(e);
                },
            };
            i = i + 1;
        }
        assert(items@.subrange(0, i as int) =~= items@);
        Ok(args)
    }
}

} // verus!
