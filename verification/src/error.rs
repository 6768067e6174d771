//! What goes wrong while a request is read or a document is built, and the
//! HTTP status that each failure suggests to the transport.

use vstd::prelude::*;
use vstd::string::*;

verus! {

/// The two headers that content negotiation looks at.
#[derive(Clone, Copy, Debug, PartialEq, Eq, Structural)]
pub enum Header {
    ContentType,
    Accept,
}

/// The kinds of failure.
#[derive(Clone, Copy, Debug, PartialEq, Eq, Structural)]
pub enum ErrorKind {
    /// A query parameter that cannot be read.
    MalformedQuery,
    /// An attribute or relationship that the entity does not have.
    FieldNotExist,
    /// A comparison that is not defined for its operator and number of arguments.
    UnsupportedComparison,
    /// A filter key that names a path through relationships.
    RelationshipPathNotSupported,
    /// An identifier that is already taken.
    DuplicateId,
    /// An identifier that is not of the expected form.
    InvalidIdentifier,
    /// A value that is not of the type that its field has.
    WrongFieldType,
    /// An entity that the service does not hold.
    EntityNotFound,
    /// A header that is not the one the protocol asks for.
    HeaderMismatch(Header),
    /// A page cursor that points at no element of the collection.
    CursorTargetNotFound,
    /// A filter whose key is not the type of the entities it is applied to.
    UnsupportedCrossEntityFilter,
}

/// The status that an error stands for when it declares none, or one that
/// cannot be read.
pub const DEFAULT_STATUS: u16 = 400;

impl ErrorKind {
    /// The HTTP status that goes with a kind of failure.
    pub open spec fn status_number(self) -> u16 {
        match self {
            ErrorKind::EntityNotFound => 404,
            ErrorKind::DuplicateId => 409,
            ErrorKind::HeaderMismatch(Header::ContentType) => 415,
            ErrorKind::HeaderMismatch(Header::Accept) => 406,
            ErrorKind::RelationshipPathNotSupported => 501,
            ErrorKind::UnsupportedCrossEntityFilter => 501,
            _ => 400,
        }
    }

    /// That status as the text which an error of this kind declares.
    pub open spec fn status_text(self) -> Seq<char> {
        match self {
            ErrorKind::EntityNotFound => "404"@,
            ErrorKind::DuplicateId => "409"@,
            ErrorKind::HeaderMismatch(Header::ContentType) => "415"@,
            ErrorKind::HeaderMismatch(Header::Accept) => "406"@,
            ErrorKind::RelationshipPathNotSupported => "501"@,
            ErrorKind::UnsupportedCrossEntityFilter => "501"@,
            _ => "400"@,
        }
    }

    /// The status text of a kind, as a string.
    pub fn status(self) -> (text: String)
        ensures
            text@ == self.status_text(),
    {
        match self {
            ErrorKind::EntityNotFound => String::from_str("404"),
            ErrorKind::DuplicateId => String::from_str("409"),
            ErrorKind::HeaderMismatch(Header::ContentType) => String::from_str("415"),
            ErrorKind::HeaderMismatch(Header::Accept) => String::from_str("406"),
            ErrorKind::RelationshipPathNotSupported => String::from_str("501"),
            ErrorKind::UnsupportedCrossEntityFilter => String::from_str("501"),
            _ => String::from_str("400"),
        }
    }
}

/// A failure, with what the transport needs to report it.
#[derive(Clone, Debug, PartialEq, Eq)]
pub struct Error {
    pub kind: ErrorKind,
    /// The declared HTTP status, as text; a service may leave it out.
    pub status: Option<String>,
    /// What the failure is about: a field, a key, a path, an identifier.
    pub subject: String,
    /// The offending value, where there is one.
    pub detail: String,
}

/// An error as a plain value.
pub struct ErrorView {
    pub kind: ErrorKind,
    pub status: Option<Seq<char>>,
    pub subject: Seq<char>,
    pub detail: Seq<char>,
}

impl View for Error {
    type V = ErrorView;

    open spec fn view(&self) -> ErrorView {
        ErrorView {
            kind: self.kind,
            status: match self.status {
                Some(s) => Some(s@),
                None => None,
            },
            subject: self.subject@,
            detail: self.detail@,
        }
    }
}

/// The error that the engine raises for a kind of failure: it declares the
/// status of its kind.
pub open spec fn failure(kind: ErrorKind, subject: Seq<char>, detail: Seq<char>) -> ErrorView {
    ErrorView { kind, status: Some(kind.status_text()), subject, detail }
}

/// The number that a status text writes: three decimal digits, the first of
/// them not zero.
pub open spec fn status_of(s: Seq<char>) -> Option<u16> {
    if s.len() == 3 && '1' <= s[0] <= '9' && '0' <= s[1] <= '9' && '0' <= s[2] <= '9' {
        Some(
            (100 * (s[0] as int - '0' as int) + 10 * (s[1] as int - '0' as int) + (s[2] as int
                - '0' as int)) as u16,
        )
    } else {
        None
    }
}

/// The status to answer with: the declared one where it can be read, the
/// default otherwise.
pub open spec fn status_code_of(status: Option<Seq<char>>) -> u16 {
    match status {
        Some(s) => match status_of(s) {
            Some(code) => code,
            None => DEFAULT_STATUS,
        },
        None => DEFAULT_STATUS,
    }
}

/// `StatusCode::from_str` of the `http` crate, which actix-web hands on as
/// `actix_web::http::StatusCode`: it accepts exactly three ASCII digits of
/// which the first is not `0`, and the code it gives is the number they write.
#[verifier::external_body]
fn parse_status(s: &str) -> (code: Option<u16>)
    ensures
        code == status_of(s@),
{
    match s.parse::<actix_web::http::StatusCode>() {
        Ok(c) => Some(c.as_u16()),
        Err(_) => None,
    }
}

impl Error {
    /// An error of the given kind, declaring the status of its kind.
    pub fn new(kind: ErrorKind, subject: &str, detail: &str) -> (e: Error)
        ensures
            e@ == failure(kind, subject@, detail@),
    {
        Error {
            kind,
            status: Some(kind.status()),
            subject: String::from_str(subject),
            detail: String::from_str(detail),
        }
    }

    /// An error of the given kind about `subject`, with no offending value.
    pub fn about(kind: ErrorKind, subject: &str) -> (e: Error)
        ensures
            e@ == failure(kind, subject@, Seq::empty()),
    {
        proof {
            reveal_strlit("");
            assert(""@ =~= Seq::<char>::empty());
        }
        Error::new(kind, subject, "")
    }

    /// The HTTP status to answer this error with.
    pub fn status_code(&self) -> (code: u16)
        ensures
            code == status_code_of(self@.status),
    {
        match &self.status {
            Some(s) => match parse_status(s.as_str()) {
                Some(code) => code,
                None => DEFAULT_STATUS,
            },
            None => DEFAULT_STATUS,
        }
    }
}

/// An error that the engine raises answers with the status of its kind.
pub proof fn lemma_failure_status(kind: ErrorKind, subject: Seq<char>, detail: Seq<char>)
    ensures
        status_code_of(failure(kind, subject, detail).status) == kind.status_number(),
{
    reveal_strlit("400");
    reveal_strlit("404");
    reveal_strlit("406");
    reveal_strlit("409");
    reveal_strlit("415");
    reveal_strlit("501");
}

} // verus!
