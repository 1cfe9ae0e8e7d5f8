//! The library's error type.
use vstd::prelude::*;

verus! {

/// An error from building, validating or driving a radar.
#[derive(Clone, Debug)]
pub enum Error {
    /// The spec, a command or a command field is malformed.
    BadSpec(String),
    /// A JSON document failed to parse; the parser's own description.
    Json(String),
    /// A TOML document failed to parse; the parser's own description.
    Toml(String),
}

/// What [`Error::message`] renders for an error.
pub open spec fn error_text(e: Error) -> Seq<char> {
    match e {
        Error::BadSpec(m) => "invalid spec: "@ + m@,
        Error::Json(m) => "json error: "@ + m@,
        Error::Toml(m) => "toml error: "@ + m@,
    }
}

impl Error {
    /// The human-readable description of the error.
    pub fn message(&self) -> (text: String)
        ensures
            text@ == error_text(*self),
    {
        match self {
            Error::BadSpec(m) => "invalid spec: ".to_owned().concat(m.as_str()),
            Error::Json(m) => "json error: ".to_owned().concat(m.as_str()),
            Error::Toml(m) => "toml error: ".to_owned().concat(m.as_str()),
        }
    }
}

/// The result type of the library.
pub type Result<T> = core::result::Result<T, Error>;

} // verus!
