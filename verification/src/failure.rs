//! Failed operations, from `std::io`.
//!
//! An `io::Error` is modelled by the kinds that this library tells apart. What a
//! system says of one is the platform's own.
use vstd::prelude::*;

verus! {

/// A failed operation.
#[verifier::external_type_specification]
#[verifier::external_body]
pub struct ExIoError(std::io::Error);

/// What kind of failure it is.
#[derive(Debug, Clone, Copy, PartialEq, Eq, Structural)]
pub enum FailureKind {
    /// Permission was denied.
    PermissionDenied,
    /// The end came before what was asked for.
    UnexpectedEof,
    /// Any other kind.
    Other,
}

/// The kind of a failure.
pub uninterp spec fn kind_of(error: std::io::Error) -> FailureKind;

/// The failure of a kind that carries given words.
pub uninterp spec fn failure(kind: FailureKind, words: Seq<char>) -> std::io::Error;

/// `std::io::Error::kind`: the kind of a failure, as far as it is told apart here.
#[verifier::external_body]
pub(crate) fn kind(error: &std::io::Error) -> (r: FailureKind)
    ensures
        r == kind_of(*error),
{
    match error.kind() {
        std::io::ErrorKind::PermissionDenied => FailureKind::PermissionDenied,
        std::io::ErrorKind::UnexpectedEof => FailureKind::UnexpectedEof,
        _ => FailureKind::Other,
    }
}

/// `std::io::Error::new`: a failure of the given kind that carries the given words.
#[verifier::external_body]
pub(crate) fn fail(kind: FailureKind, words: String) -> (r: std::io::Error)
    ensures
        r == failure(kind, words@),
        kind_of(r) == kind,
{
    let kind = match kind {
        FailureKind::PermissionDenied => std::io::ErrorKind::PermissionDenied,
        FailureKind::UnexpectedEof => std::io::ErrorKind::UnexpectedEof,
        FailureKind::Other => std::io::ErrorKind::Other,
    };
    std::io::Error::new(kind, words)
}

/// `std::io::Error::to_string`: what the system says of a failed operation. The
/// wording is the platform's, so nothing is claimed of it.
#[verifier::external_body]
pub(crate) fn io_error_text(error: &std::io::Error) -> (r: String) {
    error.to_string()
}

} // verus!
