//! The crate-wide error type and its texts.
use crate::text::{decimal, hex, prefixed, to_decimal, to_hex};
use vstd::prelude::*;

verus! {

/// Why an operation failed. The texts inside `Rocks` and `Io` are those of the
/// storage engine and the operating system.
#[derive(Debug, Clone, PartialEq, Eq)]
pub enum Error {
    Config(String),
    Rocks(String),
    Codec(String),
    IdentityMismatch { found_cluster: u128, found_node: u64, want_cluster: u128, want_node: u64 },
    Corrupt(String, String),
    Raft(String),
    Search(String),
    Io(String),
}

/// The mathematical content of an [`Error`].
#[verifier::ext_equal]
pub enum ErrorView {
    Config(Seq<char>),
    Rocks(Seq<char>),
    Codec(Seq<char>),
    IdentityMismatch { found_cluster: u128, found_node: u64, want_cluster: u128, want_node: u64 },
    Corrupt(Seq<char>, Seq<char>),
    Raft(Seq<char>),
    Search(Seq<char>),
    Io(Seq<char>),
}

impl View for Error {
    type V = ErrorView;

    open spec fn view(&self) -> ErrorView {
        match self {
            Error::Config(m) => ErrorView::Config(m@),
            Error::Rocks(m) => ErrorView::Rocks(m@),
            Error::Codec(m) => ErrorView::Codec(m@),
            Error::IdentityMismatch { found_cluster, found_node, want_cluster, want_node } => {
                ErrorView::IdentityMismatch {
                    found_cluster: *found_cluster,
                    found_node: *found_node,
                    want_cluster: *want_cluster,
                    want_node: *want_node,
                }
            },
            Error::Corrupt(place, detail) => ErrorView::Corrupt(place@, detail@),
            Error::Raft(m) => ErrorView::Raft(m@),
            Error::Search(m) => ErrorView::Search(m@),
            Error::Io(m) => ErrorView::Io(m@),
        }
    }
}

/// The content of an error, if there is one.
pub open spec fn error_view(e: Option<&Error>) -> Option<ErrorView> {
    match e {
        Some(e) => Some(e@),
        None => None,
    }
}

/// Whether an outcome is the one wanted, an error by its content.
pub open spec fn gives<T>(r: Result<T, Error>, want: Result<T, ErrorView>) -> bool {
    match (r, want) {
        (Ok(a), Ok(b)) => a == b,
        (Err(e), Err(f)) => e@ == f,
        _ => false,
    }
}

/// An answer behind a gate: where it is closed, its refusal is all there is.
pub open spec fn behind<T>(gate: Option<ErrorView>, answer: Result<T, ErrorView>) -> Result<
    T,
    ErrorView,
> {
    match gate {
        Some(e) => Err(e),
        None => answer,
    }
}

impl ErrorView {
    /// The text an operator reads.
    pub open spec fn text(self) -> Seq<char> {
        match self {
            ErrorView::Config(m) => "configuration invalid: "@ + m,
            ErrorView::Rocks(m) => "storage: "@ + m,
            ErrorView::Codec(m) => "codec: "@ + m,
            ErrorView::IdentityMismatch { found_cluster, found_node, want_cluster, want_node } => {
                "identity mismatch: data dir holds cluster "@ + hex(found_cluster as nat) + " node "@
                    + decimal(found_node as nat) + ", config expects cluster "@ + hex(
                    want_cluster as nat,
                ) + " node "@ + decimal(want_node as nat)
            },
            ErrorView::Corrupt(place, detail) => "corrupt on-disk record in "@ + place + ": "@
                + detail,
            ErrorView::Raft(m) => "raft: "@ + m,
            ErrorView::Search(m) => "search: "@ + m,
            ErrorView::Io(m) => "io: "@ + m,
        }
    }
}

impl Error {
    /// An encoding failure, from the text of its cause.
    pub fn codec(detail: String) -> (e: Error)
        ensures
            e@ == ErrorView::Codec(detail@),
    {
        Error::Codec(detail)
    }

    /// The text an operator reads.
    pub fn to_text(&self) -> (s: String)
        ensures
            s@ == self@.text(),
    {
        match self {
            Error::Config(m) => prefixed("configuration invalid: ", m.as_str()),
            Error::Rocks(m) => prefixed("storage: ", m.as_str()),
            Error::Codec(m) => prefixed("codec: ", m.as_str()),
            Error::IdentityMismatch { found_cluster, found_node, want_cluster, want_node } => {
                let mut s = prefixed(
                    "identity mismatch: data dir holds cluster ",
                    to_hex(*found_cluster).as_str(),
                );
                s.append(" node ");
                s.append(to_decimal(*found_node as u128).as_str());
                s.append(", config expects cluster ");
                s.append(to_hex(*want_cluster).as_str());
                s.append(" node ");
                s.append(to_decimal(*want_node as u128).as_str());
                s
            },
            Error::Corrupt(place, detail) => {
                let mut s = prefixed("corrupt on-disk record in ", place.as_str());
                s.append(": ");
                s.append(detail.as_str());
                s
            },
            Error::Raft(m) => prefixed("raft: ", m.as_str()),
            Error::Search(m) => prefixed("search: ", m.as_str()),
            Error::Io(m) => prefixed("io: ", m.as_str()),
        }
    }

    /// A copy of the error.
    pub fn duplicate(&self) -> (e: Error)
        ensures
            e@ == self@,
    {
        match self {
            Error::Config(m) => Error::Config(m.clone()),
            Error::Rocks(m) => Error::Rocks(m.clone()),
            Error::Codec(m) => Error::Codec(m.clone()),
            Error::IdentityMismatch { found_cluster, found_node, want_cluster, want_node } => {
                Error::IdentityMismatch {
                    found_cluster: *found_cluster,
                    found_node: *found_node,
                    want_cluster: *want_cluster,
                    want_node: *want_node,
                }
            },
            Error::Corrupt(place, detail) => Error::Corrupt(place.clone(), detail.clone()),
            Error::Raft(m) => Error::Raft(m.clone()),
            Error::Search(m) => Error::Search(m.clone()),
            Error::Io(m) => Error::Io(m.clone()),
        }
    }
}

/// A configuration error with a fixed text.
pub fn config_error(text: &str) -> (e: Error)
    ensures
        e@ == ErrorView::Config(text@),
{
    Error::Config(text.to_owned())
}

/// A call gives what is wanted only where both succeed with the same value or both
/// fail with the same error; behind a refusal nothing else is answered.
pub proof fn law_answers_agree<T>(
    r: Result<T, Error>,
    want: Result<T, ErrorView>,
    closed: Option<ErrorView>,
    answer: Result<T, ErrorView>,
)
    ensures
        gives(r, want) ==> (r is Ok <==> want is Ok),
        gives(r, want) && r is Ok ==> r->Ok_0 == want->Ok_0,
        gives(r, want) && r is Err ==> r->Err_0@ == want->Err_0,
        closed is None ==> behind(closed, answer) == answer,
        closed is Some ==> behind(closed, answer) == Err::<T, ErrorView>(closed->0),
{
}

} // verus!
