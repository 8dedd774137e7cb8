//! The error taxonomy of the lexer.

use vstd::prelude::*;
use vstd::std_specs::convert::FromSpecImpl;

verus! {

/// What went wrong, with the position it is reported at.
///
/// Lines are counted from one. Columns are the zero-based index of a character
/// in its line.
#[derive(Clone, Copy, Debug, PartialEq, Eq, Structural)]
pub enum ErrorKind {
    /// The grammar needed one more character and the input had ended.
    EndOfInput,
    /// A verbatim span was opened and the input ended before it was closed.
    /// Holds the line and column of the opening delimiter.
    UnclosedVerbatim(usize, usize),
    /// The bytes of the given line are not valid UTF-8, or reading the line
    /// failed on data that is not valid.
    Unicode(usize),
    /// Reading the given line failed for any other reason.
    Io(usize),
}

/// The error type of every fallible operation of the lexer: an [`ErrorKind`]
/// behind an accessor.
#[derive(Clone, Copy, Debug, PartialEq, Eq, Structural)]
pub struct Error {
    kind: ErrorKind,
}

impl View for Error {
    type V = ErrorKind;

    closed spec fn view(&self) -> ErrorKind {
        self.kind
    }
}

impl Error {
    /// The kind of this error.
    pub fn kind(&self) -> (k: ErrorKind)
        ensures
            k == self@,
    {
        self.kind
    }

    /// Two errors of the same kind are the same error.
    pub proof fn lemma_view_injective(a: Error, b: Error)
        requires
            a@ == b@,
        ensures
            a == b,
    {
    }
}

impl From<ErrorKind> for Error {
    fn from(kind: ErrorKind) -> (e: Error)
        ensures
            e@ == kind,
    {
        Error { kind }
    }
}

impl FromSpecImpl<ErrorKind> for Error {
    open spec fn obeys_from_spec() -> bool {
        true
    }

    closed spec fn from_spec(kind: ErrorKind) -> Error {
        Error { kind }
    }
}

/// `std::io::Error`, carried through as an opaque value.
#[verifier::external_type_specification]
#[verifier::external_body]
pub struct ExIoError(std::io::Error);

/// `std::io::Error::kind`, reduced to the one question the lexer asks of it:
/// is the kind `InvalidData`? The answer depends on a value that is opaque
/// here, so nothing is claimed of it.
#[verifier::external_body]
fn is_invalid_data(err: &std::io::Error) -> (b: bool) {
    match err.kind() {
        std::io::ErrorKind::InvalidData => true,
        _ => false,
    }
}

impl ErrorKind {
    /// The kind that a failed read of line `line` is reported as.
    pub open spec fn read_failure(invalid_data: bool, line: usize) -> ErrorKind {
        if invalid_data {
            ErrorKind::Unicode(line)
        } else {
            ErrorKind::Io(line)
        }
    }

    /// Classifies a failed read of line `line`: bytes that are not text are a
    /// [`ErrorKind::Unicode`] error, everything else is [`ErrorKind::Io`].
    pub fn from_read_failure(invalid_data: bool, line: usize) -> (k: ErrorKind)
        ensures
            k == ErrorKind::read_failure(invalid_data, line),
    {
        if invalid_data {
            ErrorKind::Unicode(line)
        } else {
            ErrorKind::Io(line)
        }
    }

    /// Classifies the I/O error `err`, met while reading line `line`.
    ///
    /// Which of the two kinds comes out is decided by `err` alone; see
    /// [`ErrorKind::from_read_failure`] for the rule.
    pub fn from_io(err: &std::io::Error, line: usize) -> (k: ErrorKind)
        ensures
            k == ErrorKind::Unicode(line) || k == ErrorKind::Io(line),
    {
        let invalid_data = is_invalid_data(err);
        ErrorKind::from_read_failure(invalid_data, line)
    }
}

} // verus!
