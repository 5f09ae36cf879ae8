use askama::config::{Config, RawConfig};

const ROOT: &str = "/crate";

fn existing() -> Vec<String> {
    vec![
        "/crate/templates/a.html".to_string(),
        "/crate/templates/sub/b.html".to_string(),
        "/crate/templates/sub/c.html".to_string(),
        "/crate/templates/sub/sub1/d.html".to_string(),
    ]
}

fn rooted(p: &str) -> String {
    format!("/crate/templates/{}", p)
}

#[test]
fn config_find_absolute() {
    let config = Config::new(RawConfig::default(), ROOT, None).unwrap();
    let root = config.find_template("a.html", None, &existing()).unwrap();
    let path = config.find_template("sub/b.html", Some(&root), &existing()).unwrap();
    assert_eq!(path, rooted("sub/b.html"));
}

#[test]
#[should_panic]
fn config_find_relative_nonexistent() {
    let config = Config::new(RawConfig::default(), ROOT, None).unwrap();
    let root = config.find_template("a.html", None, &existing()).unwrap();
    config.find_template("c.html", Some(&root), &existing()).unwrap();
}

#[test]
fn config_find_relative() {
    let config = Config::new(RawConfig::default(), ROOT, None).unwrap();
    let root = config.find_template("sub/b.html", None, &existing()).unwrap();
    let path = config.find_template("c.html", Some(&root), &existing()).unwrap();
    assert_eq!(path, rooted("sub/c.html"));
}

#[test]
fn config_find_relative_sub() {
    let config = Config::new(RawConfig::default(), ROOT, None).unwrap();
    let root = config.find_template("sub/b.html", None, &existing()).unwrap();
    let path = config.find_template("sub1/d.html", Some(&root), &existing()).unwrap();
    assert_eq!(path, rooted("sub/sub1/d.html"));
}

#[test]
fn config_find_not_found_message() {
    let config = Config::new(RawConfig::default(), ROOT, None).unwrap();
    let err = config.find_template("x.html", None, &existing()).unwrap_err();
    assert_eq!(err.msg, "template \"x.html\" not found in directories [\"/crate/templates\"]");
}
