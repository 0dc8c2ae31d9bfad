//! Where and why reading an SMD document stopped.

use vstd::prelude::*;
use nom::error::ErrorKind;

verus! {

/// Whether a failed step may be retried by an enclosing alternative
/// (`Error`) or ends the whole parse at once (`Failure`).
#[derive(Clone, Copy, Debug, PartialEq, Eq, Structural)]
pub enum Severity {
    Error,
    Failure,
}

/// The kind of step that failed.
#[derive(Clone, Copy, Debug, PartialEq, Eq, Structural)]
pub enum SmdErrorKind {
    /// A fixed keyword (`version`, `nodes`, `end`, ...) was not there.
    Tag,
    /// A line ending (`\n` or `\r\n`) was not there.
    CrLf,
    /// At least one decimal digit was expected.
    Digit,
    /// At least one space or tab was expected.
    Space,
    /// At least one ASCII letter or digit was expected.
    AlphaNumeric,
    /// No `end` follows in the rest of the input.
    TakeUntil,
    /// No number could be read.
    Float,
    /// A vertex integer does not fit in 32 bits.
    Fail,
    /// A repeated item consumed nothing.
    ManyTill,
}

/// A failed parse: the byte offset in the input where the failing step
/// started, what it was, and how hard it failed.
#[derive(Clone, Copy, Debug, PartialEq, Eq, Structural)]
pub struct SmdError {
    pub offset: usize,
    pub kind: SmdErrorKind,
    pub severity: Severity,
}

/// A recoverable failure of kind `kind` at byte `i`.
pub open spec fn error_at(i: int, kind: SmdErrorKind) -> SmdError {
    SmdError { offset: i as usize, kind, severity: Severity::Error }
}

pub fn make_error(i: usize, kind: SmdErrorKind) -> (r: SmdError)
    ensures
        r == error_at(i as int, kind),
{
    SmdError { offset: i, kind, severity: Severity::Error }
}

/// What nom's `Display` of a parse error shows: `Parsing Error: ` or
/// `Parsing Failure: `, then the debug form of the error, which holds the
/// rest of the input from the error on and the error kind.
pub uninterp spec fn nom_error_text(rest: Seq<char>, kind: SmdErrorKind, severity: Severity) -> Seq<char>;

/// Formats, with `Display`, the `nom::Err` that holds
/// `nom::error::Error { input: rest, code }` for `kind` as an `Error` or a
/// `Failure`. The contract only names the text (`nom_error_text`): it
/// depends on `rest`, `kind` and `severity` alone.
#[verifier::external_body]
pub(crate) fn nom_error_message(rest: &str, kind: SmdErrorKind, severity: Severity) -> (r: String)
    ensures
        r@ == nom_error_text(rest@, kind, severity),
{
    let code = match kind {
        SmdErrorKind::Tag => ErrorKind::Tag, SmdErrorKind::CrLf => ErrorKind::CrLf,
        SmdErrorKind::Digit => ErrorKind::Digit, SmdErrorKind::Space => ErrorKind::Space,
        SmdErrorKind::AlphaNumeric => ErrorKind::AlphaNumeric,
        SmdErrorKind::TakeUntil => ErrorKind::TakeUntil, SmdErrorKind::Float => ErrorKind::Float,
        SmdErrorKind::Fail => ErrorKind::Fail, SmdErrorKind::ManyTill => ErrorKind::ManyTill,
    };
    let e = nom::error::Error::new(rest, code);
    match severity {
        Severity::Error => format!("{}", nom::Err::Error(e)),
        Severity::Failure => format!("{}", nom::Err::Failure(e)),
    }
}

} // verus!
