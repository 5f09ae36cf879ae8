//! The localization settings read from `i18n.toml`: the fallback language,
//! where the core locales and the translation files are, and whether
//! placeables are isolated. Paths are taken relative to the crate's root
//! unless absolute.

use vstd::prelude::*;
use crate::config::{join_path, join_path_exec};

verus! {

/// The settings, with the defaults applied and the paths resolved.
#[derive(Debug, Clone, PartialEq, Eq)]
pub struct I18nSettings {
    /// The language used when no other matches (not yet checked to be a
    /// language identifier).
    pub fallback: String,
    /// The file of the core locales, if one is given.
    pub core_locales: Option<String>,
    /// The directory with one directory of translations per language.
    pub assets_dir: String,
    /// Whether placeables are wrapped in Unicode isolation marks.
    pub use_isolating: bool,
}

/// Resolves the settings read from the file (each `None` where the file,
/// or the whole file, leaves it out): the fallback language defaults to
/// `en`, the assets directory to `i18n`, isolation to off; relative paths
/// are taken from `root`. An absolute assets directory is not supported.
pub fn i18n_settings(
    root: &str,
    fallback_language: Option<&str>,
    core_locales: Option<&str>,
    assets_dir: Option<&str>,
    use_isolating: Option<bool>,
) -> (r: I18nSettings)
    requires
        assets_dir matches Some(p) ==> !(p@.len() > 0 && p@[0] == '/'),
    ensures
        r.fallback@ == (match fallback_language {
            Some(f) => f@,
            None => "en"@,
        }),
        match core_locales {
            Some(p) => r.core_locales matches Some(c) && c@ == join_path(root@, p@),
            None => r.core_locales is None,
        },
        r.assets_dir@ == join_path(
            root@,
            match assets_dir {
                Some(p) => p@,
                None => "i18n"@,
            },
        ),
        r.use_isolating == (match use_isolating {
            Some(b) => b,
            None => false,
        }),
{
    let fallback = match fallback_language {
        Some(f) => f.to_owned(),
        None => "en".to_owned(),
    };
    let core = match core_locales {
        Some(p) => Some(join_path_exec(root, p)),
        None => None,
    };
    let assets = match assets_dir {
        Some(p) => join_path_exec(root, p),
        None => join_path_exec(root, "i18n"),
    };
    let iso = match use_isolating {
        Some(b) => b,
        None => false,
    };
    I18nSettings { fallback, core_locales: core, assets_dir: assets, use_isolating: iso }
}

} // verus!
