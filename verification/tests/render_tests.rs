use askama::render::{
    error_response, into_response, ok_response, response_from, response_or_error, try_into_response, Error,
    Template,
};

struct Hello<'a> {
    name: &'a str,
}

impl Template for Hello<'_> {
    fn render_into(&self, writer: &mut String) -> Result<(), Error> {
        writer.push_str("Hello, ");
        writer.push_str(self.name);
        writer.push('!');
        Ok(())
    }

    fn extension() -> Option<&'static str> {
        Some("html")
    }

    fn mime_type() -> &'static str {
        "text/html; charset=utf-8"
    }
}

struct Broken;

impl Template for Broken {
    fn render_into(&self, _writer: &mut String) -> Result<(), Error> {
        Err(Error::Custom("boom".to_string()))
    }

    fn extension() -> Option<&'static str> {
        None
    }

    fn mime_type() -> &'static str {
        "text/plain; charset=utf-8"
    }
}

#[test]
fn render_and_respond() {
    let t = Hello { name: "world" };
    assert_eq!(t.render().unwrap(), "Hello, world!");
    let r = try_into_response(&t).unwrap();
    assert_eq!(r.status, 200);
    assert_eq!(r.content_type.as_deref(), Some("text/html; charset=utf-8"));
    assert_eq!(r.body, "Hello, world!");
    assert_eq!(Hello::extension(), Some("html"));
}

#[test]
fn failed_render_gives_500() {
    assert!(Broken.render().is_err());
    let r = into_response(&Broken);
    assert_eq!(r.status, 500);
    assert_eq!(r.body, "boom");
    assert_eq!(r.content_type, None);
    assert_eq!(Error::Fmt.to_string(), "formatter error");
}

#[test]
fn plain_responses() {
    let r = ok_response("x".to_string(), "text/plain");
    assert_eq!((r.status, r.content_type.as_deref(), r.body.as_str()), (200, Some("text/plain"), "x"));
    let r = error_response(&Error::Custom("bad".to_string()));
    assert_eq!((r.status, r.content_type, r.body.as_str()), (500, None, "bad"));
}

#[test]
fn responses_from_render_results() {
    let r = response_from(Ok("hi".to_string()), "text/plain").unwrap();
    assert_eq!(r.status, 200);
    assert_eq!(r.content_type.as_deref(), Some("text/plain"));
    assert_eq!(r.body, "hi");
    let e = response_from(Err(Error::Custom("bad".to_string())), "text/plain").err().unwrap();
    assert_eq!(e, Error::Custom("bad".to_string()));
    let out = response_or_error(Err(Error::Fmt));
    assert_eq!(out.status, 500);
    assert_eq!(out.body, "formatter error");
    let ok = ok_response("x".to_string(), "text/html");
    assert_eq!(response_or_error(Ok(ok.clone())), ok);
}
