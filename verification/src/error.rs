//! The library's error type and the text it is reported with.
use vstd::prelude::*;

use crate::text::{append_str, chars_of, string_of};

verus! {

#[derive(Debug)]
pub enum OpenApiFdwError {
    Configuration(String),
    Http(String),
    Response(String),
    Spec(String),
    Conversion { column: String, target: String, reason: String },
}

pub enum ErrV {
    Configuration(Seq<char>),
    Http(Seq<char>),
    Response(Seq<char>),
    Spec(Seq<char>),
    Conversion { column: Seq<char>, target: Seq<char>, reason: Seq<char> },
}

impl View for OpenApiFdwError {
    type V = ErrV;

    open spec fn view(&self) -> ErrV {
        match self {
            OpenApiFdwError::Configuration(m) => ErrV::Configuration(m@),
            OpenApiFdwError::Http(m) => ErrV::Http(m@),
            OpenApiFdwError::Response(m) => ErrV::Response(m@),
            OpenApiFdwError::Spec(m) => ErrV::Spec(m@),
            OpenApiFdwError::Conversion { column, target, reason } => ErrV::Conversion {
                column: column@,
                target: target@,
                reason: reason@,
            },
        }
    }
}

/// The text with which an error is reported (its `Display` form).
pub open spec fn error_message(e: ErrV) -> Seq<char> {
    match e {
        ErrV::Configuration(m) => "invalid OpenAPI FDW configuration: "@ + m,
        ErrV::Http(m) => "OpenAPI FDW request failed: "@ + m,
        ErrV::Response(m) => "OpenAPI FDW received an invalid response: "@ + m,
        ErrV::Spec(m) => "OpenAPI schema import failed: "@ + m,
        ErrV::Conversion { column, target, reason } => "cannot convert JSON value for column `"@
            + column + "` to "@ + target + ": "@ + reason,
    }
}

impl OpenApiFdwError {
    pub fn message(&self) -> (r: String)
        ensures
            r@ == error_message(self@),
    {
        let mut out: Vec<char> = Vec::new();
        match self {
            OpenApiFdwError::Configuration(m) => {
                append_str(&mut out, "invalid OpenAPI FDW configuration: ");
                append_str(&mut out, m.as_str());
            },
            OpenApiFdwError::Http(m) => {
                append_str(&mut out, "OpenAPI FDW request failed: ");
                append_str(&mut out, m.as_str());
            },
            OpenApiFdwError::Response(m) => {
                append_str(&mut out, "OpenAPI FDW received an invalid response: ");
                append_str(&mut out, m.as_str());
            },
            OpenApiFdwError::Spec(m) => {
                append_str(&mut out, "OpenAPI schema import failed: ");
                append_str(&mut out, m.as_str());
            },
            OpenApiFdwError::Conversion { column, target, reason } => {
                append_str(&mut out, "cannot convert JSON value for column `");
                append_str(&mut out, column.as_str());
                append_str(&mut out, "` to ");
                append_str(&mut out, target.as_str());
                append_str(&mut out, ": ");
                append_str(&mut out, reason.as_str());
            },
        }
        string_of(&out)
    }
}

/// A configuration error built from the pieces of its message.
pub fn configuration(parts: Vec<char>) -> (r: OpenApiFdwError)
    ensures
        r@ == ErrV::Configuration(parts@),
{
    OpenApiFdwError::Configuration(string_of(&parts))
}

pub fn config_error(message: &str) -> (r: OpenApiFdwError)
    ensures
        r@ == ErrV::Configuration(message@),
{
    let v = chars_of(message);
    OpenApiFdwError::Configuration(string_of(&v))
}

pub fn spec_error(message: &str) -> (r: OpenApiFdwError)
    ensures
        r@ == ErrV::Spec(message@),
{
    let v = chars_of(message);
    OpenApiFdwError::Spec(string_of(&v))
}

pub fn response_error(message: &str) -> (r: OpenApiFdwError)
    ensures
        r@ == ErrV::Response(message@),
{
    let v = chars_of(message);
    OpenApiFdwError::Response(string_of(&v))
}

/// `a`, `b`, `c` joined: the shape of most messages (text, name, text).
pub open spec fn msg3(a: Seq<char>, b: Seq<char>, c: Seq<char>) -> Seq<char> {
    a + b + c
}

pub fn msg3_exec(a: &str, b: &str, c: &str) -> (r: Vec<char>)
    ensures
        r@ == msg3(a@, b@, c@),
{
    let mut out = chars_of(a);
    append_str(&mut out, b);
    append_str(&mut out, c);
    out
}

} // verus!
