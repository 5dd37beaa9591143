//! Errors of the cryptographic operations.

use vstd::prelude::*;

verus! {

/// What went wrong in an RSA operation.
#[derive(Clone, Copy, Debug, PartialEq, Eq, Structural)]
pub enum CryptoErrorKind {
    /// A private-key operation on a key without a private exponent.
    KeyUnavailable,
    /// Ciphertext whose length is not a multiple of the block size.
    LengthMismatch,
    /// A block whose padding marker or separator is wrong.
    MalformedPadding,
    /// Any other failure, described by the message alone.
    Other,
}

/// Error of an RSA operation: a kind, a message, and optionally the
/// description of the error that caused it.
#[derive(Debug)]
pub struct HabboCryptoException {
    kind: CryptoErrorKind,
    message: String,
    source: Option<String>,
}

impl HabboCryptoException {
    pub closed spec fn spec_kind(&self) -> CryptoErrorKind {
        self.kind
    }

    pub closed spec fn spec_message(&self) -> Seq<char> {
        self.message@
    }

    pub closed spec fn spec_source(&self) -> Option<Seq<char>> {
        match self.source {
            Some(s) => Some(s@),
            None => None,
        }
    }

    /// An error with a message and no cause.
    pub fn new(message: &str) -> (r: Self)
        ensures
            r.spec_kind() == CryptoErrorKind::Other,
            r.spec_message() == message@,
            r.spec_source() is None,
    {
        HabboCryptoException { kind: CryptoErrorKind::Other, message: message.to_owned(), source: None }
    }

    /// An error of the given kind.
    pub fn of_kind(kind: CryptoErrorKind, message: &str) -> (r: Self)
        ensures
            r.spec_kind() == kind,
            r.spec_message() == message@,
            r.spec_source() is None,
    {
        HabboCryptoException { kind, message: message.to_owned(), source: None }
    }

    /// An error with a message and the description of its cause.
    pub fn with_cause(message: &str, cause: &str) -> (r: Self)
        ensures
            r.spec_kind() == CryptoErrorKind::Other,
            r.spec_message() == message@,
            r.spec_source() == Some(cause@),
    {
        HabboCryptoException {
            kind: CryptoErrorKind::Other,
            message: message.to_owned(),
            source: Some(cause.to_owned()),
        }
    }

    /// An error whose message is the description of its cause.
    pub fn from_cause(cause: &str) -> (r: Self)
        ensures
            r.spec_kind() == CryptoErrorKind::Other,
            r.spec_message() == cause@,
            r.spec_source() == Some(cause@),
    {
        HabboCryptoException {
            kind: CryptoErrorKind::Other,
            message: cause.to_owned(),
            source: Some(cause.to_owned()),
        }
    }

    pub fn kind(&self) -> (r: CryptoErrorKind)
        ensures
            r == self.spec_kind(),
    {
        self.kind
    }

    pub fn message(&self) -> (r: &str)
        ensures
            r@ == self.spec_message(),
    {
        self.message.as_str()
    }

    pub fn source(&self) -> (r: Option<&str>)
        ensures
            match self.spec_source() {
                Some(s) => r is Some && r->0@ == s,
                None => r is None,
            },
    {
        match &self.source {
            Some(s) => Some(s.as_str()),
            None => None,
        }
    }
}

/// Error of the Diffie-Hellman operations.
#[derive(Clone, Copy, Debug, PartialEq, Eq, Structural)]
pub enum HabboCryptoError {
    /// An RSA operation failed; its kind is kept.
    CryptoOperationFailed(CryptoErrorKind),
    /// Hex, text or number input that could not be read, or handshake
    /// parameters that break the rules.
    InvalidInput(InputProblem),
}

/// Why input to a Diffie-Hellman operation was refused.
#[derive(Clone, Copy, Debug, PartialEq, Eq, Structural)]
pub enum InputProblem {
    InvalidHex,
    InvalidNumber,
    PrimeTooSmall,
    GeneratorNotBelowPrime,
    NoParameters,
}

} // verus!
