//! The `Template` trait that rendered types implement, and the HTTP
//! response a web framework builds from a rendered template.

use vstd::prelude::*;

verus! {

/// Why a template could not be rendered.
#[derive(Debug, Clone, PartialEq, Eq)]
pub enum Error {
    /// Writing the output failed.
    Fmt,
    /// An error raised by a filter or a value, with its message.
    Custom(String),
}

/// The message of an error.
pub open spec fn error_text(e: Error) -> Seq<char> {
    match e {
        Error::Fmt => "formatter error"@,
        Error::Custom(m) => m@,
    }
}

impl Error {
    /// The message shown for the error.
    pub fn to_string(&self) -> (r: String)
        ensures
            r@ == error_text(*self),
    {
        match self {
            Error::Fmt => "formatter error".to_owned(),
            Error::Custom(m) => m.clone(),
        }
    }
}

/// A template that can be rendered; implementations are generally derived.
/// What a template renders to is up to its implementation; rendering only
/// ever appends to the writer.
pub trait Template {
    /// Appends the rendered template to `writer`.
    fn render_into(&self, writer: &mut String) -> (r: Result<(), Error>)
        ensures
            old(writer)@.is_prefix_of(final(writer)@),
    ;

    /// The rendered template in a new string: what `render_into` appends to
    /// an empty string, or its error.
    fn render(&self) -> (r: Result<String, Error>) {
        let mut buf = String::new();
        match self.render_into(&mut buf) {
            Ok(()) => Ok(buf),
            Err(e) => Err(e),
        }
    }

    /// The extension of the template's file, when it has one.
    fn extension() -> Option<&'static str>
        where Self: Sized
    ;

    /// The MIME type of the rendered text.
    fn mime_type() -> &'static str
        where Self: Sized
    ;
}

/// An HTTP response: status, content type and body.
#[derive(Debug, Clone, PartialEq, Eq)]
pub struct Response {
    pub status: u16,
    pub content_type: Option<String>,
    pub body: String,
}

/// The `200 OK` response carrying `body` as `mime`.
pub fn ok_response(body: String, mime: &str) -> (r: Response)
    ensures
        r.status == 200,
        r.content_type matches Some(c) && c@ == mime@,
        r.body@ == body@,
{
    Response { status: 200, content_type: Some(mime.to_owned()), body }
}

/// The `500 Internal Server Error` response whose body is the error's
/// message.
pub fn error_response(e: &Error) -> (r: Response)
    ensures
        r.status == 500,
        r.content_type is None,
        r.body@ == error_text(*e),
{
    Response { status: 500, content_type: None, body: e.to_string() }
}

/// The response for the result of rendering a template whose MIME type is
/// `mime`: `200 OK` with the text as its body, or the rendering error
/// passed on.
pub fn response_from(rendered: Result<String, Error>, mime: &str) -> (r: Result<Response, Error>)
    ensures
        match rendered {
            Ok(s) => r matches Ok(resp) && resp.status == 200 && (resp.content_type matches Some(
                c,
            ) && c@ == mime@) && resp.body@ == s@,
            Err(e) => r == Err::<Response, Error>(e),
        },
{
    match rendered {
        Ok(value) => Ok(ok_response(value, mime)),
        Err(e) => Err(e),
    }
}

/// The response itself, or the `500 Internal Server Error` response for the
/// error.
pub fn response_or_error(r: Result<Response, Error>) -> (out: Response)
    ensures
        match r {
            Ok(resp) => out == resp,
            Err(e) => out.status == 500 && out.content_type is None && out.body@ == error_text(e),
        },
{
    match r {
        Ok(resp) => resp,
        Err(e) => error_response(&e),
    }
}

/// A rendered template as a `200 OK` response with the template's MIME
/// type and the rendered text as its body, or the rendering error (see
/// `response_from`). What the template renders to is up to its
/// implementation, so only what holds of every outcome is stated here.
pub fn try_into_response<T: Template>(tmpl: &T) -> (r: Result<Response, Error>)
    ensures
        r matches Ok(resp) ==> (resp.status == 200 && resp.content_type is Some),
{
    response_from(tmpl.render(), T::mime_type())
}

/// A rendered template as a response, or a `500 Internal Server Error`
/// response whose body is the error's message (see `response_or_error`).
pub fn into_response<T: Template>(tmpl: &T) -> (r: Response)
    ensures
        r.status == 200 ==> r.content_type is Some,
        r.status == 500 ==> r.content_type is None,
        r.status == 200 || r.status == 500,
{
    response_or_error(try_into_response(tmpl))
}

} // verus!
