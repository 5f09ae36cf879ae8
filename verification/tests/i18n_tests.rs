use askama::i18n::i18n_settings;

#[test]
fn i18n_defaults() {
    let s = i18n_settings("/crate", None, None, None, None);
    assert_eq!(s.fallback, "en");
    assert_eq!(s.core_locales, None);
    assert_eq!(s.assets_dir, "/crate/i18n");
    assert!(!s.use_isolating);
}

#[test]
fn i18n_paths_relative_and_absolute() {
    let s = i18n_settings("/crate/", Some("de-DE"), Some("/etc/core.ftl"), Some("tr"), Some(true));
    assert_eq!(s.fallback, "de-DE");
    assert_eq!(s.core_locales.as_deref(), Some("/etc/core.ftl"));
    assert_eq!(s.assets_dir, "/crate/tr");
    assert!(s.use_isolating);
    let s = i18n_settings("/crate", None, Some("core.ftl"), None, None);
    assert_eq!(s.core_locales.as_deref(), Some("/crate/core.ftl"));
}
