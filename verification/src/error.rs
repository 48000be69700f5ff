//! The error type of the protocol modules.
use vstd::prelude::*;
use vstd::string::*;

use crate::text::copy_str;
use crate::wire::{wire_error_text, WireError};

verus! {

/// What can go wrong on a connection.
#[derive(Debug, Clone, PartialEq, Eq)]
pub enum Error {
    /// Bytes that do not hold a wire value.
    Wire(WireError),
    /// Something that is not there yet, and where it is described.
    NotImplemented(&'static str, &'static str),
    /// The host broke the protocol.
    Protocol(String),
    /// The operating system reported an error.
    Io(String),
}

/// The text that describes an error.
pub open spec fn error_text(e: Error) -> Seq<char> {
    match e {
        Error::Wire(w) => "wire format error: "@ + wire_error_text(w),
        Error::NotImplemented(what, place) => "not yet implemented: "@ + what@ + " (docs/"@ + place@
            + ")"@,
        Error::Protocol(s) => "protocol error: "@ + s@,
        Error::Io(s) => "i/o error: "@ + s@,
    }
}

/// Whether `e` is the protocol error with the given text.
pub open spec fn is_protocol(e: Error, text: Seq<char>) -> bool {
    e matches Error::Protocol(s) && s@ == text
}

/// Whether `e` says that `what`, described at `place`, is not there yet.
pub open spec fn is_not_implemented(e: Error, what: Seq<char>, place: Seq<char>) -> bool {
    e matches Error::NotImplemented(w, p) && w@ == what && p@ == place
}

/// The protocol error with the given text.
pub fn protocol(text: &str) -> (r: Error)
    ensures
        is_protocol(r, text@),
{
    Error::Protocol(copy_str(text))
}

/// The protocol error whose text is `a` followed by `b`.
pub fn protocol2(a: &str, b: &str) -> (r: Error)
    ensures
        is_protocol(r, a@ + b@),
{
    let mut s = copy_str(a);
    s.append(b);
    Error::Protocol(s)
}

/// The protocol error whose text is `a`, `b` and `c` in a row.
pub fn protocol3(a: &str, b: &str, c: &str) -> (r: Error)
    ensures
        is_protocol(r, a@ + b@ + c@),
{
    let mut s = copy_str(a);
    s.append(b);
    s.append(c);
    Error::Protocol(s)
}

impl Error {
    /// The text that describes this error.
    pub fn message(&self) -> (r: String)
        ensures
            r@ == error_text(*self),
    {
        match self {
            Error::Wire(w) => {
                let mut s = "wire format error: ".to_owned();
                s.append(w.message().as_str());
                s
            },
            Error::NotImplemented(what, place) => {
                let mut s = "not yet implemented: ".to_owned();
                s.append(what);
                s.append(" (docs/");
                s.append(place);
                s.append(")");
                s
            },
            Error::Protocol(text) => {
                let mut s = "protocol error: ".to_owned();
                s.append(text.as_str());
                s
            },
            Error::Io(text) => {
                let mut s = "i/o error: ".to_owned();
                s.append(text.as_str());
                s
            },
        }
    }
}

} // verus!
