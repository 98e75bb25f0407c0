//! What goes wrong while code is generated from interface descriptions.

use vstd::prelude::*;

verus! {

/// What goes wrong while code is generated. Where the cause has a text of its own, that is kept.
#[derive(Debug)]
pub enum Error {
    /// An argument is invalid.
    InvalidArgument,
    /// Reading or writing a file failed.
    Io(String),
    /// The library failed.
    Zlink(String),
    /// Writing the code failed.
    Fmt(String),
    /// The formatter gave something that is not UTF-8.
    InvalidUtf8(String),
}

impl Error {
    /// What is said of the error.
    pub open spec fn said(self) -> Seq<char> {
        match self {
            Error::InvalidArgument => "Invalid argument provided"@,
            Error::Io(e) => "I/O error: "@ + e@,
            Error::Zlink(e) => "Zlink error: "@ + e@,
            Error::Fmt(e) => "Formatting error: "@ + e@,
            Error::InvalidUtf8(e) => "Invalid UTF-8 from rustfmt: "@ + e@,
        }
    }

    /// What the cause of the error says, where it has one.
    pub open spec fn cause(self) -> Option<Seq<char>> {
        match self {
            Error::InvalidArgument => None,
            Error::Io(e) => Some(e@),
            Error::Zlink(e) => Some(e@),
            Error::Fmt(e) => Some(e@),
            Error::InvalidUtf8(e) => Some(e@),
        }
    }

    /// What is said of the error.
    pub fn message(&self) -> (r: String)
        ensures
            r@ == self.said(),
    {
        match self {
            Error::InvalidArgument => "Invalid argument provided".to_string(),
            Error::Io(e) => {
                let mut out = "I/O error: ".to_string();
                out.append(e.as_str());
                out
            },
            Error::Zlink(e) => {
                let mut out = "Zlink error: ".to_string();
                out.append(e.as_str());
                out
            },
            Error::Fmt(e) => {
                let mut out = "Formatting error: ".to_string();
                out.append(e.as_str());
                out
            },
            Error::InvalidUtf8(e) => {
                let mut out = "Invalid UTF-8 from rustfmt: ".to_string();
                out.append(e.as_str());
                out
            },
        }
    }

    /// What the cause of the error says, where it has one.
    pub fn source(&self) -> (r: Option<&str>)
        ensures
            match r {
                Some(e) => self.cause() == Some(e@),
                None => self.cause() is None,
            },
    {
        match self {
            Error::InvalidArgument => None,
            Error::Io(e) => Some(e.as_str()),
            Error::Zlink(e) => Some(e.as_str()),
            Error::Fmt(e) => Some(e.as_str()),
            Error::InvalidUtf8(e) => Some(e.as_str()),
        }
    }
}

/// What is said of an error names what went wrong and ends in what its cause says.
pub proof fn law_errors_tell_their_cause(e: Error)
    ensures
        e is InvalidArgument <==> e.cause() is None,
        e is InvalidArgument ==> e.said() == "Invalid argument provided"@,
        e is Io ==> e.cause() == Some(e->Io_0@) && e.said() == "I/O error: "@ + e->Io_0@,
        e is Zlink ==> e.cause() == Some(e->Zlink_0@) && e.said() == "Zlink error: "@ + e->Zlink_0@,
        e is Fmt ==> e.cause() == Some(e->Fmt_0@) && e.said() == "Formatting error: "@ + e->Fmt_0@,
        e is InvalidUtf8 ==> e.cause() == Some(e->InvalidUtf8_0@) && e.said()
            == "Invalid UTF-8 from rustfmt: "@ + e->InvalidUtf8_0@,
{
}

} // verus!
