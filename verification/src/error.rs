//! Error types of the envelope suite.

use vstd::prelude::*;

use crate::text::{decimal, push_decimal};

verus! {

/// Why a byte string was refused as a sealed note.
#[allow(inconsistent_fields)]
#[derive(Debug, Clone, Copy, PartialEq, Eq, Structural)]
pub enum ParseErrorKind {
    TooShort { expected: usize, actual: usize },
    WrongVersion { expected: u8, actual: u8 },
    WrongKemId { expected: u8, actual: u8 },
    CtTooLong { max: usize, actual: usize },
}

/// Message text for a parse failure.
pub open spec fn parse_error_text(kind: ParseErrorKind) -> Seq<char> {
    match kind {
        ParseErrorKind::TooShort { expected, actual } => "envelope too short: "@ + decimal(
            actual as nat,
        ) + " bytes, need at least "@ + decimal(expected as nat),
        ParseErrorKind::WrongVersion { expected, actual } => "unexpected envelope version "@
            + decimal(actual as nat) + ", expected "@ + decimal(expected as nat),
        ParseErrorKind::WrongKemId { expected, actual } => "unexpected kem id "@ + decimal(
            actual as nat,
        ) + ", expected "@ + decimal(expected as nat),
        ParseErrorKind::CtTooLong { max, actual } => "ciphertext too long: "@ + decimal(
            actual as nat,
        ) + " bytes exceeds max "@ + decimal(max as nat),
    }
}

/// Error returned when parsing bytes into a `SealedNote` fails.
///
/// Carries the rejected input so it is never silently dropped.
#[derive(Debug)]
pub struct ParseError<B> {
    input: B,
    kind: ParseErrorKind,
}

impl<B> ParseError<B> {
    /// The input that was refused.
    pub closed spec fn rejected(&self) -> B {
        self.input
    }

    /// The reason it was refused.
    pub closed spec fn reason(&self) -> ParseErrorKind {
        self.kind
    }

    pub fn too_short(input: B, expected: usize, actual: usize) -> (e: Self)
        ensures
            e.rejected() == input,
            e.reason() == (ParseErrorKind::TooShort { expected, actual }),
    {
        Self { input, kind: ParseErrorKind::TooShort { expected, actual } }
    }

    pub fn wrong_version(input: B, expected: u8, actual: u8) -> (e: Self)
        ensures
            e.rejected() == input,
            e.reason() == (ParseErrorKind::WrongVersion { expected, actual }),
    {
        Self { input, kind: ParseErrorKind::WrongVersion { expected, actual } }
    }

    pub fn wrong_kem_id(input: B, expected: u8, actual: u8) -> (e: Self)
        ensures
            e.rejected() == input,
            e.reason() == (ParseErrorKind::WrongKemId { expected, actual }),
    {
        Self { input, kind: ParseErrorKind::WrongKemId { expected, actual } }
    }

    pub fn ct_too_long(input: B, max: usize, actual: usize) -> (e: Self)
        ensures
            e.rejected() == input,
            e.reason() == (ParseErrorKind::CtTooLong { max, actual }),
    {
        Self { input, kind: ParseErrorKind::CtTooLong { max, actual } }
    }

    /// Returns the input that failed to parse.
    pub fn into_inner(self) -> (input: B)
        ensures
            input == self.rejected(),
    {
        self.input
    }

    /// Human-readable description of the failure.
    pub fn to_string(&self) -> (s: String)
        ensures
            s@ == parse_error_text(self.reason()),
    {
        let mut out;
        match self.kind {
            ParseErrorKind::TooShort { expected, actual } => {
                out = String::from_str("envelope too short: ");
                push_decimal(&mut out, actual as u64);
                out.append(" bytes, need at least ");
                push_decimal(&mut out, expected as u64);
            },
            ParseErrorKind::WrongVersion { expected, actual } => {
                out = String::from_str("unexpected envelope version ");
                push_decimal(&mut out, actual as u64);
                out.append(", expected ");
                push_decimal(&mut out, expected as u64);
            },
            ParseErrorKind::WrongKemId { expected, actual } => {
                out = String::from_str("unexpected kem id ");
                push_decimal(&mut out, actual as u64);
                out.append(", expected ");
                push_decimal(&mut out, expected as u64);
            },
            ParseErrorKind::CtTooLong { max, actual } => {
                out = String::from_str("ciphertext too long: ");
                push_decimal(&mut out, actual as u64);
                out.append(" bytes exceeds max ");
                push_decimal(&mut out, max as u64);
            },
        }
        out
    }
}

/// Error returned when sealing a note fails.
///
/// Opaque by design: failure reasons are not distinguished.
#[derive(Debug, Clone, Copy, PartialEq, Eq, Structural)]
pub struct SealError;

impl SealError {
    /// Human-readable description of the failure.
    pub fn to_string(&self) -> (s: String)
        ensures
            s@ == "failed to seal note"@,
    {
        String::from_str("failed to seal note")
    }
}

/// Error returned when a sealed note's commit matches the opening key but
/// the note still fails to open.
#[derive(Debug, Clone, Copy, PartialEq, Eq, Structural)]
pub enum OpenError {
    /// AEAD decryption or authentication failed.
    Aead,
    /// The domain's note decoder rejected the plaintext.
    NoteDecode,
    /// `Domain::verify` rejected the note against the AAD.
    Verify,
}

/// Message text for an open failure.
pub open spec fn open_error_text(e: OpenError) -> Seq<char> {
    match e {
        OpenError::Aead => "AEAD decryption failed after commit matched"@,
        OpenError::NoteDecode => "note decoding failed after commit matched"@,
        OpenError::Verify => "domain verification failed after commit matched"@,
    }
}

impl OpenError {
    /// Human-readable description of the failure.
    pub fn to_string(&self) -> (s: String)
        ensures
            s@ == open_error_text(*self),
    {
        match self {
            OpenError::Aead => String::from_str("AEAD decryption failed after commit matched"),
            OpenError::NoteDecode => String::from_str("note decoding failed after commit matched"),
            OpenError::Verify => String::from_str(
                "domain verification failed after commit matched",
            ),
        }
    }
}

/// Error yielded by a scan for an envelope whose commit matched the
/// scanning key but which failed to open.
#[derive(Debug, Clone, Copy, PartialEq, Eq, Structural)]
pub struct Malformed(pub OpenError);

impl Malformed {
    /// The open failure this wraps.
    pub fn source(&self) -> (e: OpenError)
        ensures
            e == self.0,
    {
        self.0
    }

    /// Human-readable description of the failure.
    pub fn to_string(&self) -> (s: String)
        ensures
            s@ == "malformed envelope: "@ + open_error_text(self.0),
    {
        let mut out = String::from_str("malformed envelope: ");
        let inner = self.0.to_string();
        out.append(inner.as_str());
        out
    }
}

} // verus!
