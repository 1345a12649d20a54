use vstd::prelude::*;
use vstd::string::*;

use crate::location::{location_text, Location};

verus! {

/// The class of a failure.
#[derive(Debug, Clone, Copy, PartialEq, Eq, PartialOrd, Ord)]
pub enum ErrorKind {
    IO,
    Unknown,
}

/// How a kind prints: its name.
pub open spec fn kind_text(k: ErrorKind) -> Seq<char> {
    match k {
        ErrorKind::IO => seq!['I', 'O'],
        ErrorKind::Unknown => seq!['U', 'n', 'k', 'n', 'o', 'w', 'n'],
    }
}

/// The line that introduces the error behind another.
pub open spec fn caused_by_text() -> Seq<char> {
    seq!['\n', 'C', 'a', 'u', 's', 'e', 'd', ' ', 'b', 'y', ':', ' ']
}

/// How an error prints: `[kind] message at path:line:column`.
pub open spec fn error_line(kind: ErrorKind, message: Seq<char>, location: Location) -> Seq<char> {
    seq!['['] + kind_text(kind) + seq![']', ' '] + message + seq![' ', 'a', 't', ' '] + location_text(
        location.spec_path(),
        location.spec_line(),
        location.spec_column(),
    )
}

impl ErrorKind {
    /// The kind's name.
    pub fn to_string(&self) -> (r: String)
        ensures
            r@ == kind_text(*self),
    {
        proof {
            reveal_strlit("IO");
            reveal_strlit("Unknown");
        }
        match self {
            ErrorKind::IO => "IO".to_owned(),
            ErrorKind::Unknown => "Unknown".to_owned(),
        }
    }
}

/// A failure: its kind, a message, the error that caused it if any, and the
/// place in the source that raised it.
#[derive(Debug)]
pub struct Error {
    kind: ErrorKind,
    message: String,
    cause: Option<Box<Error>>,
    location: Location,
}

impl Error {
    pub closed spec fn spec_kind(&self) -> ErrorKind {
        self.kind
    }

    pub closed spec fn spec_message(&self) -> Seq<char> {
        self.message@
    }

    pub closed spec fn spec_location(&self) -> Location {
        self.location
    }

    pub closed spec fn spec_cause(&self) -> Option<Error> {
        match self.cause {
            Some(c) => Some(*c),
            None => None,
        }
    }

    /// An error of the given kind, message, cause and origin.
    pub fn new(kind: ErrorKind, message: String, cause: Option<Error>, location: Location) -> (r: Error)
        ensures
            r.spec_kind() == kind,
            r.spec_message() == message@,
            r.spec_cause() == cause,
            r.spec_location() == location,
    {
        let cause = match cause {
            Some(c) => Some(Box::new(c)),
            None => None,
        };
        Error { kind, message, cause, location }
    }

    pub fn kind(&self) -> (r: ErrorKind)
        ensures
            r == self.spec_kind(),
    {
        self.kind
    }

    pub fn message(&self) -> (r: &String)
        ensures
            r@ == self.spec_message(),
    {
        &self.message
    }

    pub fn location(&self) -> (r: &Location)
        ensures
            *r == self.spec_location(),
    {
        &self.location
    }

    pub fn cause(&self) -> (r: Option<&Error>)
        ensures
            r matches Some(c) ==> self.spec_cause() == Some(*c),
            r is None <==> self.spec_cause() is None,
    {
        match &self.cause {
            Some(c) => Some(&**c),
            None => None,
        }
    }

    /// How the error prints: its own line, then for each cause in turn a
    /// `Caused by: ` line with the cause's text.
    pub closed spec fn spec_text(&self) -> Seq<char>
        decreases self,
    {
        let head = error_line(self.kind, self.message@, self.location);
        match &self.cause {
            Some(c) => head + caused_by_text() + (**c).spec_text(),
            None => head,
        }
    }

    /// The error as text; see `spec_text`.
    pub fn to_string(&self) -> (r: String)
        ensures
            r@ == self.spec_text(),
            r@.subrange(0, error_line(self.spec_kind(), self.spec_message(), self.spec_location()).len() as int)
                == error_line(self.spec_kind(), self.spec_message(), self.spec_location()),
        decreases self,
    {
        proof {
            reveal_strlit("[");
            reveal_strlit("] ");
            reveal_strlit(" at ");
            reveal_strlit("\nCaused by: ");
        }
        let head = "[".to_owned().concat(self.kind.to_string().as_str()).concat("] ").concat(
            self.message.as_str(),
        ).concat(" at ").concat(self.location.to_string().as_str());
        proof {
            assert(head@ =~= error_line(self.kind, self.message@, self.location));
        }
        match &self.cause {
            Some(c) => {
                let r = head.concat("\nCaused by: ").concat((**c).to_string().as_str());
                proof {
                    assert(r@.subrange(0, head@.len() as int) =~= head@);
                }
                r
            },
            None => {
                proof {
                    assert(head@.subrange(0, head@.len() as int) =~= head@);
                }
                head
            },
        }
    }
}

} // verus!
