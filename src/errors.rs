//! Errors of the service, each with a message.
use vstd::prelude::*;
use crate::request::{str_chars, string_from_chars};

verus! {

/// An error and its message.
#[derive(Debug)]
pub enum ErrType {
    /// Input in a form that is not supported.
    NotSupported(String),
    /// A number or a record could not be read.
    ParseError(String),
    /// A resource could not be acquired or released.
    NoAccess(String),
    /// A file could not be read.
    ReadError(String),
    /// A socket could not be opened or used.
    ConnectionError(String),
    /// A peer sent a bad request or went away.
    RequestError(String),
    /// The interrupt handler could not be installed.
    CtrlcError(String),
}

/// The text of an error: its kind, then the message in parentheses.
pub open spec fn err_text(e: ErrType) -> Seq<char> {
    match e {
        ErrType::NotSupported(s) => "Not supported("@ + s@ + seq![')'],
        ErrType::ParseError(s) => "ParseError("@ + s@ + seq![')'],
        ErrType::NoAccess(s) => "NoAccess("@ + s@ + seq![')'],
        ErrType::ReadError(s) => "ReadError("@ + s@ + seq![')'],
        ErrType::ConnectionError(s) => "ConnectionError("@ + s@ + seq![')'],
        ErrType::RequestError(s) => "RequestError("@ + s@ + seq![')'],
        ErrType::CtrlcError(s) => "CtrlcError("@ + s@ + seq![')'],
    }
}

impl ErrType {
    /// The error as text, `Kind(message)`.
    pub fn to_text(&self) -> (r: String)
        ensures
            r@ == err_text(*self),
    {
        let (kind, message) = match self {
            ErrType::NotSupported(s) => ("Not supported(", s),
            ErrType::ParseError(s) => ("ParseError(", s),
            ErrType::NoAccess(s) => ("NoAccess(", s),
            ErrType::ReadError(s) => ("ReadError(", s),
            ErrType::ConnectionError(s) => ("ConnectionError(", s),
            ErrType::RequestError(s) => ("RequestError(", s),
            ErrType::CtrlcError(s) => ("CtrlcError(", s),
        };
        let mut chars = str_chars(kind);
        let tail = str_chars(message.as_str());
        let ghost head = chars@;
        let mut i: usize = 0;
        while i < tail.len()
            invariant
                0 <= i <= tail@.len(),
                chars@ == head + tail@.subrange(0, i as int),
            decreases tail@.len() - i,
        {
            chars.push(tail[i]);
            i = i + 1;
            assert(chars@ =~= head + tail@.subrange(0, i as int));
        }
        assert(tail@.subrange(0, i as int) =~= tail@);
        chars.push(')');
        string_from_chars(&chars)
    }
}

} // verus!
