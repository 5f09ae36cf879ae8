use askama::codegen::{generate, normalize_identifier};

#[test]
fn generate_three_pieces() {
    let tokens = vec![b"Hello, ".to_vec(), b"name".to_vec(), b"!".to_vec()];
    let code = generate("Hello", &tokens);
    assert_eq!(
        code,
        "impl askama::Template for Hello {\n    fn render(&self) -> String {\n        let mut buf = String::new();\n        buf.push_str(\"Hello, \");\n        buf.push_str(&self.name);\n        buf.push_str(\"!\");\n        buf    }\n}\n\n"
    );
}

#[test]
fn keywords_become_raw_identifiers() {
    assert_eq!(normalize_identifier("type"), "r#type");
    assert_eq!(normalize_identifier("as"), "r#as");
    assert_eq!(normalize_identifier("continue"), "r#continue");
    assert_eq!(normalize_identifier("override"), "r#override");
    assert_eq!(normalize_identifier("loop"), "loop");
    assert_eq!(normalize_identifier("self"), "self");
    assert_eq!(normalize_identifier("super"), "super");
    assert_eq!(normalize_identifier("name"), "name");
    assert_eq!(normalize_identifier("types"), "types");
    assert_eq!(normalize_identifier("if_"), "if_");
    assert_eq!(normalize_identifier("abstracts"), "abstracts");
}
