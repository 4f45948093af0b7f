//! Errors of rendering.
use vstd::prelude::*;
use crate::parser::ParseError;
use crate::text::owned;

verus! {

/// `std::io::Error`, carried through as it is.
#[verifier::external_type_specification]
#[verifier::external_body]
pub struct ExIoError(std::io::Error);

/// The kinds of I/O error that rendering turns its own errors into.
#[derive(Clone, Copy, Debug, PartialEq, Eq, Structural)]
pub enum IoKind {
    InvalidData,
    NotFound,
}

/// The kind of an I/O error (`std::io::Error::kind`), when it is one of
/// [`IoKind`]; `None` for any other kind.
pub uninterp spec fn io_kind_of(e: std::io::Error) -> Option<IoKind>;

/// The payload of an I/O error made by `std::io::Error::new` from a string
/// (`std::io::Error::get_ref`), as that string; `None` for an error without
/// such a payload.
pub uninterp spec fn io_payload_text(e: std::io::Error) -> Option<Seq<char>>;

/// `std::io::Error::new`: an I/O error of kind `kind` whose payload is the
/// string `msg`, as its documentation says (`kind` gives the kind back,
/// `get_ref` the payload).
#[verifier::external_body]
fn io_error(kind: IoKind, msg: String) -> (r: std::io::Error)
    ensures
        io_kind_of(r) == Some(kind),
        io_payload_text(r) == Some(msg@),
{
    let kind = match kind {
        IoKind::InvalidData => std::io::ErrorKind::InvalidData,
        IoKind::NotFound => std::io::ErrorKind::NotFound,
    };
    std::io::Error::new(kind, msg)
}

/// An error that can occur during rendering.
#[derive(Debug)]
pub enum Error {
    Parse(ParseError),
    Io(std::io::Error),
    NoBlock,
}

/// The message of [`Error::NoBlock`].
pub open spec fn no_block_message() -> Seq<char> {
    "no such block"@
}

/// The kind and message of the I/O error that `e` becomes: a parse error is
/// invalid data with its message, a missing block is not found; `None` for
/// an I/O error, which stays as it is.
pub open spec fn spec_io_parts(e: Error) -> Option<(IoKind, Seq<char>)> {
    match e {
        Error::Parse(p) => Some((IoKind::InvalidData, p.spec_message())),
        Error::NoBlock => Some((IoKind::NotFound, no_block_message())),
        Error::Io(_) => None,
    }
}

impl Error {
    /// The kind and message of the I/O error this error becomes, if it is
    /// not one already.
    pub fn io_parts(&self) -> (r: Option<(IoKind, String)>)
        ensures
            match r {
                Some((k, m)) => spec_io_parts(*self) == Some((k, m@)),
                None => spec_io_parts(*self) is None,
            },
    {
        match self {
            Error::Parse(e) => Some((IoKind::InvalidData, owned(e.message()))),
            Error::NoBlock => Some((IoKind::NotFound, owned("no such block"))),
            Error::Io(_) => None,
        }
    }

    /// Convert error to [`std::io::Error`].
    ///
    /// [`ParseError`] will become `InvalidData`, and [`Error::NoBlock`]
    /// will become `NotFound`, each with its message.
    pub fn into_io(self) -> (r: std::io::Error)
        ensures
            match self {
                Error::Io(e) => r == e,
                _ => spec_io_parts(self) matches Some((k, m)) && io_kind_of(r) == Some(k) && io_payload_text(r) == Some(m),
            },
    {
        match self {
            Error::Io(error) => error,
            other => {
                let (kind, msg) = other.io_parts().unwrap();
                io_error(kind, msg)
            },
        }
    }

    /// The message of a parse error or of a missing block; `None` for an
    /// I/O error.
    pub fn message(&self) -> (r: Option<&str>)
        ensures
            match self {
                Error::Parse(e) => r matches Some(m) && m@ == e.spec_message(),
                Error::NoBlock => r matches Some(m) && m@ == no_block_message(),
                Error::Io(_) => r is None,
            },
    {
        match self {
            Error::Parse(e) => Some(e.message()),
            Error::NoBlock => Some("no such block"),
            Error::Io(_) => None,
        }
    }
}

impl From<ParseError> for Error {
    fn from(value: ParseError) -> (r: Error) {
        Error::Parse(value)
    }
}

impl vstd::std_specs::convert::FromSpecImpl<ParseError> for Error {
    open spec fn obeys_from_spec() -> bool {
        true
    }

    open spec fn from_spec(v: ParseError) -> Error {
        Error::Parse(v)
    }
}

impl From<std::io::Error> for Error {
    fn from(value: std::io::Error) -> (r: Error) {
        Error::Io(value)
    }
}

impl vstd::std_specs::convert::FromSpecImpl<std::io::Error> for Error {
    open spec fn obeys_from_spec() -> bool {
        true
    }

    open spec fn from_spec(v: std::io::Error) -> Error {
        Error::Io(v)
    }
}

} // verus!
