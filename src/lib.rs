//! A minimal digital-certificate format and chain validator.
//!
//! A certificate binds a subject identity to an Ed25519 public key for a
//! half-open window of time. The library encodes and decodes certificates,
//! signs them as an issuer, and decides whether a chain of certificates ends
//! at a trusted anchor at a given time, reporting the first fault it meets.
mod binary;
pub mod certificate;
pub mod clock;
pub mod crypto;
pub mod errors;
pub mod laws;
pub mod trust;
pub mod validation;

pub use certificate::{decode_certificate, Certificate, Extension};
pub use errors::{DecodeError, Error, ErrorCode, ValidationErrorCode};
pub use trust::{TrustAnchor, TrustStore};
pub use validation::{public_key_of, sign_certificate, validate_chain, validate_chain_at, validate_encoded_chain_at};
