//! Project-wide error type.

use vstd::prelude::*;
use vstd::std_specs::convert::FromSpecImpl;
use vstd::string::StringExecFns;

verus! {

/// `std::io::Error`, carried through unchanged.
#[verifier::external_type_specification]
#[verifier::external_body]
pub struct ExIoError(std::io::Error);

/// Calls the `Display` impl of `std::io::Error`. Its text comes from the
/// operating system and the error kind, so nothing is stated of it.
#[verifier::external_body]
pub(crate) fn io_error_text(e: &std::io::Error) -> String {
    format!("{e}")
}

/// The project-wide error enum.
#[derive(Debug)]
#[non_exhaustive]
pub enum Error {
    /// An I/O error occurred.
    Io(std::io::Error),
    /// A configuration file could not be parsed.
    Config(String),
    /// An authentication error occurred.
    Auth(String),
    /// A network protocol error occurred.
    Net(String),
    /// A world registry error occurred.
    World(String),
    /// A protocol-level error from the telnet codec.
    Codec(String),
}

/// Convenience alias used throughout the library.
pub type Result<T> = core::result::Result<T, Error>;

impl Error {
    /// The human-readable text of the error (what `Display` shows).
    pub fn message(&self) -> (s: String)
        ensures
            match self {
                Error::Io(_) => s@.len() >= 11 && s@.take(11) == "I/O error: "@,
                Error::Config(m) => s@ == "configuration error: "@ + m@,
                Error::Auth(m) => s@ == "authentication error: "@ + m@,
                Error::Net(m) => s@ == "network error: "@ + m@,
                Error::World(m) => s@ == "world error: "@ + m@,
                Error::Codec(m) => s@ == "codec error: "@ + m@,
            },
    {
        match self {
            Error::Io(e) => {
                let mut s = String::from_str("I/O error: ");
                let detail = io_error_text(e);
                proof {
                    reveal_strlit("I/O error: ");
                }
                let ghost before = s@;
                s.append(detail.as_str());
                assert(s@.take(11) =~= before);
                s
            },
            Error::Config(m) => String::from_str("configuration error: ").concat(m.as_str()),
            Error::Auth(m) => String::from_str("authentication error: ").concat(m.as_str()),
            Error::Net(m) => String::from_str("network error: ").concat(m.as_str()),
            Error::World(m) => String::from_str("world error: ").concat(m.as_str()),
            Error::Codec(m) => String::from_str("codec error: ").concat(m.as_str()),
        }
    }
}

impl From<std::io::Error> for Error {
    fn from(e: std::io::Error) -> (r: Error) {
        Error::Io(e)
    }
}

impl FromSpecImpl<std::io::Error> for Error {
    open spec fn obeys_from_spec() -> bool {
        true
    }

    open spec fn from_spec(e: std::io::Error) -> Error {
        Error::Io(e)
    }
}

} // verus!
