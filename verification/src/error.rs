//! Errors of the endpoint and of its message parsers.

use vstd::prelude::*;

verus! {

/// What a parser found wrong.
#[derive(Debug, Clone, Copy, PartialEq, Eq, Structural)]
pub enum ErrorKind {
    /// The input ended before the field did.
    Eof,
    /// The bytes are not an instance of the structure.
    Fail,
    /// A rule on the parsed value is broken.
    Verify,
    /// A bounded list has no room left.
    TooLarge,
    /// A length field does not match what it measures.
    LengthValue,
}

/// How a parser failed.
#[derive(Debug, Clone, Copy, PartialEq, Eq, Structural)]
pub enum Severity {
    /// Another alternative may still match.
    Error,
    /// No alternative can match.
    Failure,
}

/// A parser's failure, with the input at which it was noticed.
#[derive(Debug, Clone, Copy, PartialEq, Eq)]
pub struct ParseFailure<'a> {
    pub severity: Severity,
    pub input: &'a [u8],
    pub code: ErrorKind,
}

/// What is left of the input and the parsed value, or the failure.
pub type ParseResult<'a, T> = Result<(&'a [u8], T), ParseFailure<'a>>;

/// A parser's failure as a position in its input.
pub struct FailAt {
    pub severity: Severity,
    pub at: nat,
    pub code: ErrorKind,
}

/// `e` is the failure `f` of a parser that was given `input`.
pub open spec fn fails_at(e: ParseFailure<'_>, input: Seq<u8>, f: FailAt) -> bool {
    &&& f.at <= input.len()
    &&& e.severity == f.severity
    &&& e.code == f.code
    &&& e.input@ == input.skip(f.at as int)
}

/// `r` is the failure `f` of a parser that was given `input`.
pub open spec fn fails_as<T>(r: ParseResult<'_, T>, input: Seq<u8>, f: FailAt) -> bool {
    r matches Err(e) && fails_at(e, input, f)
}

/// The failure of a field whose bytes run past the end of the input.
pub open spec fn eof_at(at: nat) -> FailAt {
    FailAt { severity: Severity::Error, at, code: ErrorKind::Eof }
}

/// `r` is the failure of a field that does not fit into `input`.
pub open spec fn eof_in<T>(r: ParseResult<'_, T>, input: Seq<u8>) -> bool {
    &&& r matches Err(e)
    &&& e.severity == Severity::Error
    &&& e.code == ErrorKind::Eof
    &&& e.input@ == input
}

/// Errors that the endpoint reports to its caller.
#[derive(Debug, PartialEq, Eq)]
pub enum Error {
    /// A datagram ends inside a record.
    ParseIncomplete,
    /// A message is malformed.
    ParseError(ErrorKind),
    /// More records in one datagram than are accepted.
    TooManyRecords,
    /// A cryptographic operation failed.
    CryptoError(String),
    /// The peer broke a rule of the protocol.
    SecurityError(String),
    /// The configuration is not usable.
    ConfigError(String),
    /// A plaintext is larger than one record can carry.
    Oversized(usize),
    /// The configured MTU cannot fit one record.
    MtuTooSmall { overhead: usize, mtu: usize },
    /// The record sequence numbers of an epoch are used up.
    SequenceNumberExhausted { epoch: u16, sequence: u64 },
}

impl<'a> ParseFailure<'a> {
    /// The error that reports this failure to the caller.
    pub fn into_error(self) -> (e: Error)
        ensures
            e == Error::ParseError(self.code),
    {
        Error::ParseError(self.code)
    }
}

/// A failure is known by its severity, by what was found wrong, and by the input that was
/// left where it was noticed.
pub proof fn law_failure_is_known(e: ParseFailure<'_>, input: Seq<u8>, f: FailAt)
    ensures
        fails_at(e, input, f) <==> {
            &&& f.at <= input.len()
            &&& e.severity == f.severity
            &&& e.code == f.code
            &&& e.input@ == input.subrange(f.at as int, input.len() as int)
        },
{
    if f.at <= input.len() {
        assert(input.skip(f.at as int) =~= input.subrange(f.at as int, input.len() as int));
    }
}

/// A parser that fails returns that failure, and nothing else.
pub proof fn law_failure_is_returned<T>(r: ParseResult<'_, T>, input: Seq<u8>, f: FailAt)
    ensures
        fails_as(r, input, f) <==> (r matches Err(e) && fails_at(e, input, f)),
        eof_in(r, input) <==> (r matches Err(e) && fails_at(
            e,
            input,
            FailAt { severity: Severity::Error, at: 0, code: ErrorKind::Eof },
        )),
{
    assert(input.skip(0) =~= input);
}

} // verus!
