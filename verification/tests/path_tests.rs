use askama::path::find_template_from_path;

// The templates of the test directory, relative to it.
fn existing() -> Vec<String> {
    vec![
        "a.html".to_string(),
        "sub/b.html".to_string(),
        "sub/c.html".to_string(),
        "sub/sub1/d.html".to_string(),
    ]
}

#[test]
fn path_find_absolute() {
    let path = find_template_from_path("sub/b.html", Some("a.html"), &existing()).unwrap();
    assert_eq!(path, "sub/b.html");
}

#[test]
#[should_panic]
fn path_find_relative_nonexistent() {
    find_template_from_path("b.html", Some("a.html"), &existing()).unwrap();
}

#[test]
fn path_find_relative() {
    let path = find_template_from_path("c.html", Some("sub/b.html"), &existing()).unwrap();
    assert_eq!(path, "sub/c.html");
}

#[test]
fn path_find_relative_sub() {
    let path = find_template_from_path("sub1/d.html", Some("sub/b.html"), &existing()).unwrap();
    assert_eq!(path, "sub/sub1/d.html");
}

#[test]
fn strip_common_paths() {
    use_strip();
}

fn use_strip() {
    let f = askama::path::strip_common;
    assert_eq!(f("/a/b/c", Some("/a/b/c/d/e.txt"), "d/e.txt"), "d/e.txt");
    assert_eq!(f("/home/user", Some("/home"), "/home"), "/home");
    assert_eq!(f("/home/user", None, "/a/b/c"), "/a/b/c");
    assert_eq!(f("/a/b", Some("/x/y"), "y"), "x/y");
    assert_eq!(f("/a/b", Some("/a/b"), "b"), "/a/b");
    assert_eq!(f("/", Some("/x"), "x"), "x");
}

#[test]
fn find_absolute_path_outside_templates() {
    let mut files = existing();
    files.push("/elsewhere/x.html".to_string());
    let path = find_template_from_path("/elsewhere//x.html", None, &files).unwrap();
    assert_eq!(path, "/elsewhere//x.html");
    assert!(find_template_from_path("/elsewhere/y.html", Some("a.html"), &files).is_none());
}
