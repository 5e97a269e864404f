use ed25519_dalek::SignatureError;
use std::time::SystemTimeError;
use vstd::prelude::*;

verus! {

#[verifier::external_type_specification]
#[verifier::external_body]
pub struct ExSignatureError(SignatureError);

#[verifier::external_type_specification]
#[verifier::external_body]
pub struct ExSystemTimeError(SystemTimeError);

/// Why a certificate or a chain of certificates was not accepted.
#[derive(Clone, Copy, PartialEq, Eq, Structural, Hash, Debug)]
pub enum ValidationErrorCode {
    /// The certificate carries no signature. A signature that is present
    /// and rejected is reported as the signature primitive's own error.
    SignatureError,
    /// The reference time lies outside `[not_before, not_after)`.
    ValidityError { not_before: u64, not_after: u64 },
    /// The clock could not be read.
    TimeError,
    /// The chain does not end at a trust anchor.
    Untrusted,
}

/// Why bytes could not be read as a certificate.
#[derive(Clone, Copy, PartialEq, Eq, Structural, Hash, Debug)]
pub enum DecodeError {
    /// The input ends before a field is complete.
    Truncated,
    /// Bytes follow the last field.
    TrailingBytes,
    /// The subject public key does not have the scheme's length.
    KeyLength,
    /// The subject identity is empty.
    EmptySubject,
    /// `not_before` is not strictly below `not_after`.
    EmptyWindow,
}

/// The kind of a fault, with its detail.
#[derive(Debug)]
pub enum ErrorCode {
    Serialization(DecodeError),
    Signature(SignatureError),
    ValidationError(ValidationErrorCode),
}

/// A fault reported by the library.
#[derive(Debug)]
pub struct Error {
    pub code: ErrorCode,
}

impl Error {
    /// The validation kind of this fault, if it is one.
    pub open spec fn validation_code(self) -> Option<ValidationErrorCode> {
        match self.code {
            ErrorCode::ValidationError(v) => Some(v),
            _ => None,
        }
    }

    /// The decoding kind of this fault, if it is one.
    pub open spec fn decode_error(self) -> Option<DecodeError> {
        match self.code {
            ErrorCode::Serialization(d) => Some(d),
            _ => None,
        }
    }

    pub fn code(&self) -> (r: &ErrorCode)
        ensures
            r == &self.code,
    {
        &self.code
    }

    pub fn from_validation(v: ValidationErrorCode) -> (r: Error)
        ensures
            r.validation_code() == Some(v),
    {
        Error { code: ErrorCode::ValidationError(v) }
    }

    pub fn from_decode(d: DecodeError) -> (r: Error)
        ensures
            r.decode_error() == Some(d),
    {
        Error { code: ErrorCode::Serialization(d) }
    }
}

impl From<SystemTimeError> for Error {
    /// A clock that cannot be read is a validation fault of the time kind.
    fn from(_err: SystemTimeError) -> (r: Error)
        ensures
            r.validation_code() == Some(ValidationErrorCode::TimeError),
    {
        Error { code: ErrorCode::ValidationError(ValidationErrorCode::TimeError) }
    }
}

impl vstd::std_specs::convert::FromSpecImpl<SystemTimeError> for Error {
    open spec fn obeys_from_spec() -> bool {
        true
    }

    open spec fn from_spec(v: SystemTimeError) -> Error {
        Error { code: ErrorCode::ValidationError(ValidationErrorCode::TimeError) }
    }
}

impl From<SignatureError> for Error {
    /// A failure of the signature primitive keeps its own kind.
    fn from(err: SignatureError) -> (r: Error)
        ensures
            r.code == ErrorCode::Signature(err),
    {
        Error { code: ErrorCode::Signature(err) }
    }
}

impl vstd::std_specs::convert::FromSpecImpl<SignatureError> for Error {
    open spec fn obeys_from_spec() -> bool {
        true
    }

    open spec fn from_spec(v: SignatureError) -> Error {
        Error { code: ErrorCode::Signature(v) }
    }
}

} // verus!
