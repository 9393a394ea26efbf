use vstd::prelude::*;

verus! {

/// What went wrong while decoding or encoding a message.
#[derive(Debug, Clone, Copy, PartialEq, Eq, Structural)]
pub enum ErrorKind {
    /// The input ended before the value was complete.
    Eof,
    /// A string was not valid UTF-8.
    Utf8,
    /// A message type byte that the protocol does not define.
    UnknownMessage,
    /// A REL element type that the protocol does not define.
    UnknownRel,
    /// A GLOBLOB element type that the protocol does not define.
    UnknownGlob,
    /// A list element tag that the protocol does not define.
    UnknownList,
    /// A length field out of the accepted range.
    BadLength,
    /// An element that this side of the protocol does not encode.
    NotImplemented,
    /// The server refused the session.
    Session,
    /// The server closed the session.
    Closed,
    /// A map plot of an unknown type.
    UnknownPlot,
    /// A map plot whose rectangle reaches past the last cell of the grid.
    PlotRange,
    /// Compressed grid data that the zlib decoder refused.
    Inflate,
    /// A widget that the request needs does not exist.
    NoWidget,
    /// An object that the request needs is unknown or has no position.
    NoObject,
    /// An authentication server answer that is neither "ok" nor "no".
    BadAnswer,
    /// The authentication server refused the credentials.
    AuthRefused,
    /// OpenSSL could not compute a digest.
    Crypto,
}

/// The error of this crate: a kind and an optional description.
#[derive(Debug)]
pub struct Error {
    pub kind: ErrorKind,
    pub detail: Option<String>,
}

impl Error {
    /// Builds an error of the given kind with an optional description.
    pub fn new(kind: ErrorKind, detail: Option<String>) -> (e: Error)
        ensures
            e.kind == kind,
            e.detail == detail,
    {
        Error { kind, detail }
    }

    /// An error of the given kind without description.
    pub fn of(kind: ErrorKind) -> (e: Error)
        ensures
            e.kind == kind,
            e.detail is None,
    {
        Error { kind, detail: None }
    }
}

} // verus!
