//! A template's metadata, gathered from the deriving item, the
//! configuration and the `template()` attributes: where the template is,
//! its syntax, its escaper and the MIME type of its output.

use vstd::prelude::*;
use crate::args::{TemplateArgs, opt_view};
use crate::config::{CompileError, Config, names_of};
use crate::parse::Syntax;
use crate::derive_input::DeriveInput;
use crate::input::{Source, Print, path_ext, template_ext, with_charset, guessed_mime,
    extension_to_mime_type, ext_default_to_path};
use crate::path::find_in_config;
use crate::text::{str_eq, string_push_str};

verus! {

/// The metadata of a template.
pub struct TemplateInput<'a> {
    pub ast: &'a DeriveInput,
    pub config: &'a Config,
    pub syntax: &'a Syntax,
    pub source: &'a Source,
    pub print: Print,
    pub escaper: &'a str,
    pub ext: Option<&'a str>,
    pub mime_type: String,
    pub path: String,
}

/// The template directories of a configuration, as text.
pub open spec fn dirs_m(c: Config) -> Seq<Seq<char>> {
    c.dirs@.map_values(|x: String| x@)
}

/// The escapers of a configuration: the extensions each is for, and its
/// path.
pub open spec fn escapers_m(c: Config) -> Seq<(Seq<Seq<char>>, Seq<char>)> {
    escapers_of(c.escapers@)
}

/// A list of escapers, as text.
pub open spec fn escapers_of(v: Seq<(Vec<String>, String)>) -> Seq<(Seq<Seq<char>>, Seq<char>)> {
    v.map_values(|e: (Vec<String>, String)| (e.0@.map_values(|s: String| s@), e.1@))
}

/// Where the template is: the path found for a template file, or, for a
/// source given inline, the item's name with the extension `ext`.
pub open spec fn input_path(
    ident: Seq<char>,
    dirs: Seq<Seq<char>>,
    source: Source,
    ext: Option<Seq<char>>,
    existing: Seq<Seq<char>>,
) -> Result<Seq<char>, Seq<char>> {
    match source {
        Source::Path(p) => find_in_config(dirs, p@, None, existing),
        Source::Source(_) => match ext {
            Some(e) => Ok(ident + "."@ + e),
            None => Err("must include 'ext' attribute when using 'source' attribute"@),
        },
    }
}

/// The extension that picks the escaper: the `escape` attribute, else the
/// extension of the template's path, else nothing.
pub open spec fn escaping_of(escaping: Option<Seq<char>>, path: Seq<char>) -> Seq<char> {
    match escaping {
        Some(e) => e,
        None => match path_ext(path) {
            Some(e) => e,
            None => ""@,
        },
    }
}

/// The first escaper, from `i`, whose extensions include `e`.
pub open spec fn escaper_index(es: Seq<(Seq<Seq<char>>, Seq<char>)>, e: Seq<char>, i: int) -> Option<
    int,
>
    decreases es.len() - i,
{
    if !(0 <= i < es.len()) {
        None
    } else if es[i].0.contains(e) {
        Some(i)
    } else {
        escaper_index(es, e, i + 1)
    }
}

/// The extension that picks the MIME type: the `ext` attribute, else the
/// template's extension, else `txt`.
pub open spec fn mime_ext(ext: Option<Seq<char>>, path: Seq<char>) -> Seq<char> {
    match ext {
        Some(x) => x,
        None => match template_ext(path) {
            Some(e) => e,
            None => "txt"@,
        },
    }
}

/// The name of the syntax the template uses.
pub open spec fn syntax_name(syntax: Option<Seq<char>>, default_syntax: Seq<char>) -> Seq<char> {
    match syntax {
        Some(s) => s,
        None => default_syntax,
    }
}

/// The escaper whose extensions include `e`, from `i` on.
fn find_escaper(escapers: &Vec<(Vec<String>, String)>, e: &str) -> (r: Option<usize>)
    ensures
        match escaper_index(escapers_of(escapers@), e@, 0) {
            Some(k) => r matches Some(x) && x as int == k,
            None => r is None,
        },
        r matches Some(k) ==> k < escapers@.len(),
{
    let ghost es = escapers_of(escapers@);
    let mut i: usize = 0;
    while i < escapers.len()
        invariant
            i <= escapers@.len(),
            es == escapers_of(escapers@),
            escaper_index(es, e@, 0) == escaper_index(es, e@, i as int),
        decreases escapers.len() - i,
    {
        let exts = &escapers[i].0;
        let ghost xs = exts@.map_values(|s: String| s@);
        assert(es[i as int].0 == xs);
        let mut j: usize = 0;
        while j < exts.len()
            invariant
                j <= exts@.len(),
                i < escapers@.len(),
                xs == exts@.map_values(|s: String| s@),
                es == escapers_of(escapers@),
                es[i as int].0 == xs,
                escaper_index(es, e@, 0) == escaper_index(es, e@, i as int),
                forall|k: int| 0 <= k < j ==> xs[k] != e@,
            decreases exts.len() - j,
        {
            if str_eq(exts[j].as_str(), e) {
                assert(xs[j as int] == e@);
                assert(es[i as int].0.contains(e@));
                return Some(i);
            }
            j = j + 1;
        }
        assert(!xs.contains(e@));
        i = i + 1;
    }
    None
}

impl<'a> TemplateInput<'a> {
    /// Gathers a template's metadata. `existing` lists the files that
    /// exist, by their paths in normal form (see `Config::find_template`).
    /// Fails where the template file is not found, where an inline source
    /// has no `ext`, where the named syntax is not defined, or where no
    /// escaper is defined for the template's extension.
    pub fn new(
        ast: &'a DeriveInput,
        config: &'a Config,
        args: &'a TemplateArgs,
        existing: &Vec<String>,
    ) -> (r: Result<TemplateInput<'a>, CompileError>)
        requires
            args.source is Some,
            args.syntax is None ==> names_of(config.syntaxes.entries@).contains(
                config.default_syntax@,
            ),
        ensures
            match input_path(
                ast.ident@,
                dirs_m(*config),
                args.source.unwrap(),
                opt_view(args.ext),
                existing@.map_values(|x: String| x@),
            ) {
                Err(m) => r matches Err(e) && e.msg@ == m,
                Ok(p) => if args.syntax is Some && !names_of(config.syntaxes.entries@).contains(
                    args.syntax.unwrap()@,
                ) {
                    r matches Err(e) && e.msg@ == "attribute syntax "@ + args.syntax.unwrap()@
                        + " not exist"@
                } else {
                    match escaper_index(
                        escapers_m(*config),
                        escaping_of(opt_view(args.escaping), p),
                        0,
                    ) {
                        None => r matches Err(e) && e.msg@ == "no escaper defined for extension '"@
                            + escaping_of(opt_view(args.escaping), p) + "'"@,
                        Some(k) => r matches Ok(t) && t.path@ == p && t.ast == ast && t.config
                            == config && *t.source == args.source.unwrap() && t.print
                            == args.print && t.escaper@ == config.escapers@[k].1@ && (match args.ext {
                            Some(x) => t.ext matches Some(y) && y@ == x@,
                            None => t.ext is None,
                        }) && t.mime_type@ == with_charset(
                            guessed_mime(mime_ext(opt_view(args.ext), p)),
                        ) && (exists|i: int|
                            0 <= i < config.syntaxes.entries@.len()
                                && config.syntaxes.entries@[i].0@ == syntax_name(
                                opt_view(args.syntax),
                                config.default_syntax@,
                            ) && config.syntaxes.entries@[i].1 == *t.syntax),
                    }
                },
            },
    {
        let source = args.source.as_ref().unwrap();
        let path = match source {
            Source::Path(p) => match config.find_template(p.as_str(), None, existing) {
                Ok(found) => found,
                Err(e) => {
                    return Err(e);
                },
            },
            Source::Source(_) => match &args.ext {
                Some(ext) => {
                    let mut joined = ast.ident.as_str().to_owned();
                    string_push_str(&mut joined, ".");
                    string_push_str(&mut joined, ext.as_str());
                    joined
                },
                None => {
                    return Err(
                        CompileError {
                            msg: "must include 'ext' attribute when using 'source' attribute".to_owned(),
                        },
                    );
                },
            },
        };
        let syntax = match &args.syntax {
            None => config.syntaxes.get(config.default_syntax.as_str()).unwrap(),
            Some(s) => match config.syntaxes.get(s.as_str()) {
                Some(x) => x,
                None => {
                    let mut msg = "attribute syntax ".to_owned();
                    string_push_str(&mut msg, s.as_str());
                    string_push_str(&mut msg, " not exist");
                    return Err(CompileError { msg });
                },
            },
        };
        let escaping: String = match &args.escaping {
            Some(e) => e.as_str().to_owned(),
            None => match crate::input::path_extension(path.as_str()) {
                Some(e) => e,
                None => "".to_owned(),
            },
        };
        let k = match find_escaper(&config.escapers, escaping.as_str()) {
            Some(k) => k,
            None => {
                let mut msg = "no escaper defined for extension '".to_owned();
                string_push_str(&mut msg, escaping.as_str());
                string_push_str(&mut msg, "'");
                return Err(CompileError { msg });
            },
        };
        let escaper = config.escapers[k].1.as_str();
        assert(escaper_index(escapers_m(*config), escaping_of(opt_view(args.escaping), path@), 0)
            == Some(k as int));
        let ext: Option<&str> = match &args.ext {
            Some(x) => Some(x.as_str()),
            None => None,
        };
        let mime_type = match ext_default_to_path(ext, path.as_str()) {
            Some(e) => extension_to_mime_type(e.as_str()),
            None => extension_to_mime_type("txt"),
        };
        Ok(TemplateInput { ast, config, syntax, source, print: args.print, escaper, ext, mime_type, path })
    }

    /// The extension that picks the MIME type (see `mime_ext`).
    pub fn extension(&self) -> (r: Option<String>)
        ensures
            match self.ext {
                Some(x) => r matches Some(y) && y@ == x@,
                None => match template_ext(self.path@) {
                    Some(e) => r matches Some(y) && y@ == e,
                    None => r is None,
                },
            },
    {
        ext_default_to_path(self.ext, self.path.as_str())
    }
}

} // verus!
