//! The library's error type.
use vstd::prelude::*;

use crate::model::validation::ValidationError;
use crate::text::{decimal, owned, push_decimal, push_str};

verus! {

/// The text of an I/O error (`std::io::Error`'s `Display`). Not specified:
/// it is the operating system's description.
#[verifier::external_body]
fn io_error_text(e: &std::io::Error) -> (s: String) {
    e.to_string()
}

/// The text of a JSON error (`serde_json::Error`'s `Display`). Not specified:
/// serde_json words it.
#[verifier::external_body]
fn serde_error_text(e: &serde_json::Error) -> (s: String) {
    e.to_string()
}

/// Crate-wide error type.
#[derive(Debug)]
pub enum Error {
    Io(std::io::Error),
    Serde(serde_json::Error),
    Keychain(String),
    Validation(Vec<ValidationError>),
    NotFound(String),
    NoConfigDir,
    Ssh(String),
    AuthFailed,
    HostKeyRejected(String),
    Unsupported(String),
}

pub type Result<T> = std::result::Result<T, Error>;

/// `Error::Ssh` with the message `m`.
pub open spec fn ssh_error(r: Error, m: Seq<char>) -> bool {
    r matches Error::Ssh(s) && s@ == m
}

/// The short, stable name of an error's variant.
pub open spec fn kind_name(e: Error) -> Seq<char> {
    match e {
        Error::Io(_) => "io"@,
        Error::Serde(_) => "serde"@,
        Error::Keychain(_) => "keychain"@,
        Error::Validation(_) => "validation"@,
        Error::NotFound(_) => "notFound"@,
        Error::NoConfigDir => "noConfigDir"@,
        Error::Ssh(_) => "ssh"@,
        Error::AuthFailed => "authFailed"@,
        Error::HostKeyRejected(_) => "hostKeyRejected"@,
        Error::Unsupported(_) => "unsupported"@,
    }
}

/// The message of every error whose text is the library's own (all but
/// `Io` and `Serde`, which carry the outside error's text).
pub open spec fn message_text(e: Error) -> Seq<char> {
    match e {
        Error::Keychain(s) => "keychain error: "@ + s@,
        Error::Validation(v) => "validation failed ("@ + decimal(v@.len()) + " issue(s))"@,
        Error::NotFound(s) => "not found: "@ + s@,
        Error::NoConfigDir => "could not determine the application config directory"@,
        Error::Ssh(s) => "SSH error: "@ + s@,
        Error::AuthFailed => "authentication failed"@,
        Error::HostKeyRejected(s) => "host key rejected: "@ + s@,
        Error::Unsupported(s) => s@,
        _ => seq![],
    }
}

impl Error {
    /// The short, stable name of the variant, for the UI.
    pub fn kind(&self) -> (k: &'static str)
        ensures
            k@ == kind_name(*self),
    {
        match self {
            Error::Io(_) => "io",
            Error::Serde(_) => "serde",
            Error::Keychain(_) => "keychain",
            Error::Validation(_) => "validation",
            Error::NotFound(_) => "notFound",
            Error::NoConfigDir => "noConfigDir",
            Error::Ssh(_) => "ssh",
            Error::AuthFailed => "authFailed",
            Error::HostKeyRejected(_) => "hostKeyRejected",
            Error::Unsupported(_) => "unsupported",
        }
    }

    /// The human-readable message.
    pub fn message(&self) -> (m: String)
        ensures
            !(self is Io) && !(self is Serde) ==> m@ == message_text(*self),
            self is Io ==> exists|t: Seq<char>| m@ == "I/O error: "@ + t,
            self is Serde ==> exists|t: Seq<char>| m@ == "serialization error: "@ + t,
    {
        match self {
            Error::Io(e) => {
                let mut m = owned("I/O error: ");
                let t = io_error_text(e);
                push_str(&mut m, t.as_str());
                assert(m@ == "I/O error: "@ + t@);
                m
            },
            Error::Serde(e) => {
                let mut m = owned("serialization error: ");
                let t = serde_error_text(e);
                push_str(&mut m, t.as_str());
                assert(m@ == "serialization error: "@ + t@);
                m
            },
            Error::Keychain(s) => {
                let mut m = owned("keychain error: ");
                push_str(&mut m, s.as_str());
                m
            },
            Error::Validation(v) => {
                let mut m = owned("validation failed (");
                push_decimal(&mut m, v.len() as u64);
                push_str(&mut m, " issue(s))");
                m
            },
            Error::NotFound(s) => {
                let mut m = owned("not found: ");
                push_str(&mut m, s.as_str());
                m
            },
            Error::NoConfigDir => owned("could not determine the application config directory"),
            Error::Ssh(s) => {
                let mut m = owned("SSH error: ");
                push_str(&mut m, s.as_str());
                m
            },
            Error::AuthFailed => owned("authentication failed"),
            Error::HostKeyRejected(s) => {
                let mut m = owned("host key rejected: ");
                push_str(&mut m, s.as_str());
                m
            },
            Error::Unsupported(s) => owned(s.as_str()),
        }
    }
}

} // verus!
