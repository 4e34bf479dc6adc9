//! What can go wrong at the library's boundary.

use crate::{LocalSelectionSetId, SelectionSetId};
use std::io;
use vstd::prelude::*;
use vstd::std_specs::cmp::PartialEqSpecImpl;
use vstd::std_specs::convert::FromSpecImpl;
use vstd::string::to_string_from_display_ensures;

verus! {

/// `std::io::Error`, held as an opaque value.
#[verifier::external_type_specification]
#[verifier::external_body]
pub struct ExIoError(std::io::Error);

/// `std::io::ErrorKind`, held as an opaque value: two of them are the same
/// value exactly when they are the same category.
#[verifier::external_type_specification]
#[verifier::external_body]
pub struct ExIoErrorKind(std::io::ErrorKind);

/// The category of an I/O failure.
pub uninterp spec fn io_kind_of(failure: std::io::Error) -> std::io::ErrorKind;

/// `io::Error::kind` reports the category of an I/O failure, which the
/// failure carries with it from where it was made.
pub assume_specification[ std::io::Error::kind ](failure: &std::io::Error) -> (kind:
    std::io::ErrorKind)
    ensures
        kind == io_kind_of(*failure),
;

/// `==` on two categories holds exactly when they are the same category.
pub assume_specification[ <std::io::ErrorKind as PartialEq>::eq ](
    a: &std::io::ErrorKind,
    b: &std::io::ErrorKind,
) -> (same: bool)
    ensures
        same == (*a == *b),
;

/// The failures that the library reports to its caller.
///
/// An I/O failure is kept as its category and its message, which is all that
/// two such failures are compared by.
#[derive(Debug)]
pub enum Error {
    IoError(io::ErrorKind, String),
    DeserializeError,
    InvalidPath(String),
    InvalidOperations,
    InvalidFileId(String),
    InvalidBufferId,
    InvalidDirEntry,
    InvalidOperation,
    InvalidSelectionSet(SelectionSetId),
    InvalidLocalSelectionSet(LocalSelectionSetId),
    InvalidAnchor(String),
    OffsetOutOfRange,
    CursorExhausted,
}

/// What an error holds, as plain values: its variant, and with it the text,
/// the stamp (counter and replica key), the number or the category that it
/// carries.
pub enum ErrorView {
    IoError(std::io::ErrorKind, Seq<char>),
    DeserializeError,
    InvalidPath(Seq<char>),
    InvalidOperations,
    InvalidFileId(Seq<char>),
    InvalidBufferId,
    InvalidDirEntry,
    InvalidOperation,
    InvalidSelectionSet((u64, u128)),
    InvalidLocalSelectionSet(LocalSelectionSetId),
    InvalidAnchor(Seq<char>),
    OffsetOutOfRange,
    CursorExhausted,
}

impl View for Error {
    type V = ErrorView;

    open spec fn view(&self) -> ErrorView {
        match *self {
            Error::IoError(kind, text) => ErrorView::IoError(kind, text@),
            Error::DeserializeError => ErrorView::DeserializeError,
            Error::InvalidPath(text) => ErrorView::InvalidPath(text@),
            Error::InvalidOperations => ErrorView::InvalidOperations,
            Error::InvalidFileId(text) => ErrorView::InvalidFileId(text@),
            Error::InvalidBufferId => ErrorView::InvalidBufferId,
            Error::InvalidDirEntry => ErrorView::InvalidDirEntry,
            Error::InvalidOperation => ErrorView::InvalidOperation,
            Error::InvalidSelectionSet(id) => ErrorView::InvalidSelectionSet(id@),
            Error::InvalidLocalSelectionSet(id) => ErrorView::InvalidLocalSelectionSet(id),
            Error::InvalidAnchor(text) => ErrorView::InvalidAnchor(text@),
            Error::OffsetOutOfRange => ErrorView::OffsetOutOfRange,
            Error::CursorExhausted => ErrorView::CursorExhausted,
        }
    }
}

/// The text that `Debug` formatting gives an error: the variant's name and,
/// where the variant carries something, that in brackets. It depends on what
/// the error holds and on nothing else.
pub uninterp spec fn debug_text_of(error: ErrorView) -> Seq<char>;

impl Error {
    /// Whether two errors are the same failure: the same variant, carrying
    /// equal text, ids or categories.
    pub open spec fn same_as(&self, other: &Self) -> bool {
        match (*self, *other) {
            (Error::IoError(kind_1, text_1), Error::IoError(kind_2, text_2)) => kind_1 == kind_2
                && text_1@ == text_2@,
            (Error::DeserializeError, Error::DeserializeError) => true,
            (Error::InvalidPath(err_1), Error::InvalidPath(err_2)) => err_1@ == err_2@,
            (Error::InvalidOperations, Error::InvalidOperations) => true,
            (Error::InvalidFileId(err_1), Error::InvalidFileId(err_2)) => err_1@ == err_2@,
            (Error::InvalidBufferId, Error::InvalidBufferId) => true,
            (Error::InvalidDirEntry, Error::InvalidDirEntry) => true,
            (Error::InvalidOperation, Error::InvalidOperation) => true,
            (Error::InvalidSelectionSet(id_1), Error::InvalidSelectionSet(id_2)) => id_1@ == id_2@,
            (
                Error::InvalidLocalSelectionSet(id_1),
                Error::InvalidLocalSelectionSet(id_2),
            ) => id_1 == id_2,
            (Error::InvalidAnchor(err_1), Error::InvalidAnchor(err_2)) => err_1@ == err_2@,
            (Error::OffsetOutOfRange, Error::OffsetOutOfRange) => true,
            (Error::CursorExhausted, Error::CursorExhausted) => true,
            _ => false,
        }
    }

    /// The error as text, for logs and for callers that carry errors as
    /// strings: its `Debug` form, so that errors that hold the same have the
    /// same text.
    pub fn to_string(&self) -> (text: String)
        ensures
            text@ == debug_text_of(self@),
    {
        debug_text(self)
    }
}

/// `format!` with `{:?}` writes the error out through its derived `Debug`
/// impl, which reads the variant and what it carries and nothing besides.
/// Which characters come out is not claimed.
#[verifier::external_body]
fn debug_text(error: &Error) -> (text: String)
    ensures
        text@ == debug_text_of(error@),
{
    format!("{:?}", error)
}

impl PartialEq for Error {
    fn eq(&self, other: &Self) -> (same: bool) {
        match (self, other) {
            (Error::IoError(kind_1, text_1), Error::IoError(kind_2, text_2)) => {
                *kind_1 == *kind_2 && *text_1 == *text_2
            },
            (Error::DeserializeError, Error::DeserializeError) => true,
            (Error::InvalidPath(err_1), Error::InvalidPath(err_2)) => *err_1 == *err_2,
            (Error::InvalidOperations, Error::InvalidOperations) => true,
            (Error::InvalidFileId(err_1), Error::InvalidFileId(err_2)) => *err_1 == *err_2,
            (Error::InvalidBufferId, Error::InvalidBufferId) => true,
            (Error::InvalidDirEntry, Error::InvalidDirEntry) => true,
            (Error::InvalidOperation, Error::InvalidOperation) => true,
            (Error::InvalidSelectionSet(id_1), Error::InvalidSelectionSet(id_2)) => *id_1 == *id_2,
            (Error::InvalidLocalSelectionSet(id_1), Error::InvalidLocalSelectionSet(id_2)) => {
                *id_1 == *id_2
            },
            (Error::InvalidAnchor(err_1), Error::InvalidAnchor(err_2)) => *err_1 == *err_2,
            (Error::OffsetOutOfRange, Error::OffsetOutOfRange) => true,
            (Error::CursorExhausted, Error::CursorExhausted) => true,
            _ => false,
        }
    }
}

impl PartialEqSpecImpl for Error {
    open spec fn obeys_eq_spec() -> bool {
        true
    }

    open spec fn eq_spec(&self, other: &Self) -> bool {
        self.same_as(other)
    }
}

impl From<io::Error> for Error {
    /// Keeps the category of an I/O failure and the message that it displays.
    fn from(error: io::Error) -> (e: Self)
        ensures
            e matches Error::IoError(kind, text) && kind == io_kind_of(error)
                && to_string_from_display_ensures::<io::Error>(&error, text),
    {
        let kind = error.kind();
        Error::IoError(kind, error.to_string())
    }
}

impl FromSpecImpl<io::Error> for Error {
    open spec fn obeys_from_spec() -> bool {
        false
    }

    open spec fn from_spec(error: io::Error) -> Self {
        Error::IoError(arbitrary(), arbitrary())
    }
}

impl From<Error> for String {
    /// The error's text, as `Error::to_string` gives it.
    fn from(error: Error) -> (text: Self)
        ensures
            text@ == debug_text_of(error@),
    {
        error.to_string()
    }
}

impl FromSpecImpl<Error> for String {
    open spec fn obeys_from_spec() -> bool {
        false
    }

    open spec fn from_spec(error: Error) -> Self {
        arbitrary()
    }
}

} // verus!
