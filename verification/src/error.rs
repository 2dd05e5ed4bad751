use vstd::prelude::*;

use crate::text::push_str;
use texter::error::Error as TexterError;
use serde_json::Error as JsonError;
use httparse::Error as HeaderError;

verus! {

#[verifier::external_type_specification]
#[verifier::external_body]
pub struct ExTexterError(TexterError);

/// Why the backend could not do what a notification asked.
#[derive(Debug)]
pub enum Error {
    /// The parser gave no syntax tree back.
    TreeSitterParserError,
    /// A document is already open at this address.
    FileAlreadyExists { uri: String },
    /// The text buffer refused a change.
    TexterError(TexterError),
}

impl From<TexterError> for Error {
    fn from(value: TexterError) -> (r: Self) {
        Error::TexterError(value)
    }
}

impl vstd::std_specs::convert::FromSpecImpl<TexterError> for Error {
    open spec fn obeys_from_spec() -> bool {
        true
    }

    open spec fn from_spec(v: TexterError) -> Self {
        Error::TexterError(v)
    }
}

/// The message of a text-buffer error.
///
/// Trusted: `Display` of `texter::error::Error`. Nothing is stated of the text.
#[verifier::external_body]
fn texter_error_text(e: &TexterError) -> String {
    e.to_string()
}

impl Error {
    /// The message shown to the user for this error.
    pub fn to_string(&self) -> (r: String)
        ensures
            self is TreeSitterParserError ==> r@ == "An error occurred during parsing"@,
            self matches Error::FileAlreadyExists { uri } ==> r@ == "File '"@ + uri@ + "' already exists"@,
            self is TexterError ==> r@.len() >= 14 && r@.subrange(0, 14) == "Texter error: "@,
    {
        let mut s = String::new();
        match self {
            Error::TreeSitterParserError => {
                push_str(&mut s, "An error occurred during parsing");
            },
            Error::FileAlreadyExists { uri } => {
                push_str(&mut s, "File '");
                push_str(&mut s, uri.as_str());
                push_str(&mut s, "' already exists");
            },
            Error::TexterError(e) => {
                push_str(&mut s, "Texter error: ");
                let ghost prefix = s@;
                let text = texter_error_text(e);
                push_str(&mut s, text.as_str());
                proof {
                    reveal_strlit("Texter error: ");
                    assert(s@.subrange(0, 14) =~= prefix);
                }
            },
        }
        s
    }
}

#[verifier::external_type_specification]
#[verifier::external_body]
pub struct ExJsonError(JsonError);

#[verifier::external_type_specification]
#[verifier::external_body]
pub struct ExIoError(std::io::Error);

#[verifier::external_type_specification]
#[verifier::external_body]
pub struct ExHeaderError(HeaderError);

#[verifier::external_type_specification]
#[verifier::external_body]
pub struct ExParseIntError(std::num::ParseIntError);

#[verifier::external_type_specification]
#[verifier::external_body]
pub struct ExUtf8Error(std::str::Utf8Error);

/// Errors that can occur when processing an LSP message.
#[derive(Debug)]
pub enum ParseError {
    /// Failed to parse the JSON body. The flag says whether the JSON was
    /// well formed but did not have the shape of a message.
    Body(JsonError, bool),
    /// Failed to encode the response.
    Encode(std::io::Error),
    /// Failed to parse headers.
    Headers(HeaderError),
    /// The media type in the `Content-Type` header is invalid.
    InvalidContentType,
    /// The length value in the `Content-Length` header is invalid.
    InvalidContentLength(std::num::ParseIntError),
    /// Request lacks the required `Content-Length` header.
    MissingContentLength,
    /// Request contains invalid UTF8.
    Utf8(std::str::Utf8Error),
}

/// Trusted: `Display` of `serde_json::Error`. Nothing is stated of the text.
#[verifier::external_body]
fn json_error_text(e: &JsonError) -> String {
    e.to_string()
}

/// Trusted: `Display` of `std::io::Error`. Nothing is stated of the text.
#[verifier::external_body]
fn io_error_text(e: &std::io::Error) -> String {
    e.to_string()
}

/// Trusted: `Display` of `httparse::Error`. Nothing is stated of the text.
#[verifier::external_body]
fn header_error_text(e: &HeaderError) -> String {
    e.to_string()
}

/// Trusted: `Display` of `std::num::ParseIntError`. Nothing is stated of the text.
#[verifier::external_body]
fn parse_int_error_text(e: &std::num::ParseIntError) -> String {
    e.to_string()
}

/// Trusted: `Display` of `std::str::Utf8Error`. Nothing is stated of the text.
#[verifier::external_body]
fn utf8_error_text(e: &std::str::Utf8Error) -> String {
    e.to_string()
}

/// Whether `s` starts with `prefix`.
pub open spec fn starts_with(s: Seq<char>, prefix: Seq<char>) -> bool {
    s.len() >= prefix.len() && s.subrange(0, prefix.len() as int) == prefix
}

/// `prefix` followed by `detail`.
fn prefixed(prefix: &str, detail: String) -> (r: String)
    ensures
        r@ == prefix@ + detail@,
        starts_with(r@, prefix@),
{
    let mut s = String::new();
    push_str(&mut s, prefix);
    push_str(&mut s, detail.as_str());
    proof {
        assert(s@.subrange(0, prefix@.len() as int) =~= prefix@);
    }
    s
}

/// Trusted: `serde_json::Error::is_data`, whether the JSON was well formed
/// but did not fit the type it was read into. Nothing is stated of which
/// errors those are.
#[verifier::external_body]
fn json_error_is_data(e: &JsonError) -> bool {
    e.is_data()
}

impl ParseError {
    /// The error for a JSON body that could not be read, classed by whether
    /// it was well formed JSON of the wrong shape.
    pub fn body(e: JsonError) -> (r: ParseError)
        ensures
            r is Body,
    {
        let wrong_shape = json_error_is_data(&e);
        ParseError::Body(e, wrong_shape)
    }

    /// The message of the error: what went wrong, followed by the message
    /// of the underlying error where there is one.
    pub fn to_string(&self) -> (r: String)
        ensures
            self is Body ==> starts_with(r@, "unable to parse JSON body: "@),
            self is Encode ==> starts_with(r@, "failed to encode response: "@),
            self is Headers ==> starts_with(r@, "failed to parse headers: "@),
            self is InvalidContentType ==> r@ == "unable to parse content type"@,
            self is InvalidContentLength ==> starts_with(r@, "unable to parse content length: "@),
            self is MissingContentLength ==> r@ == "missing required `Content-Length` header"@,
            self is Utf8 ==> starts_with(r@, "request contains invalid UTF8: "@),
    {
        match self {
            ParseError::Body(e, _) => prefixed("unable to parse JSON body: ", json_error_text(e)),
            ParseError::Encode(e) => prefixed("failed to encode response: ", io_error_text(e)),
            ParseError::Headers(e) => prefixed("failed to parse headers: ", header_error_text(e)),
            ParseError::InvalidContentType => "unable to parse content type".to_owned(),
            ParseError::InvalidContentLength(e) => prefixed(
                "unable to parse content length: ",
                parse_int_error_text(e),
            ),
            ParseError::MissingContentLength => "missing required `Content-Length` header".to_owned(),
            ParseError::Utf8(e) => prefixed("request contains invalid UTF8: ", utf8_error_text(e)),
        }
    }
}

} // verus!
