//! The validation engine: signs certificates as an issuer and walks a chain
//! from its leaf to a trust anchor, stopping at the first fault.
//!
//! At each position the issuer's key is resolved first (the next
//! certificate's key, or the anchor's at the end of the chain), then the
//! signature is checked, then the clock, then the validity window. A
//! certificate whose issuer is an anchor is still held to its own signature
//! and window: being anchored exempts nothing.
use crate::certificate::{decode_certificate, parse_certificate, Certificate, CertificateView};
use crate::clock;
use crate::crypto::{
    ed25519_accepts, ed25519_public_key, ed25519_public_key_of, ed25519_sign, ed25519_signature, ed25519_verify,
    PUBLIC_KEY_LENGTH, SECRET_KEY_LENGTH,
};
use crate::errors::{DecodeError, Error, ValidationErrorCode};
use crate::trust::TrustStore;
use vstd::prelude::*;

verus! {

/// The first fault of a chain, as the verdict states it.
pub enum ChainFault {
    /// A signature is present and the signature primitive rejects it.
    SignatureRejected,
    /// A fault of the validation kinds, a missing signature among them.
    Validation(ValidationErrorCode),
}

/// The chain as mathematical values.
pub open spec fn chain_view(chain: Seq<Certificate>) -> Seq<CertificateView> {
    chain.map_values(|c: Certificate| c@)
}

/// Whether `c` carries a signature that verifies, under `issuer_key`, over
/// its canonical encoding.
pub open spec fn signature_verifies(c: CertificateView, issuer_key: Seq<u8>) -> bool {
    match c.signature {
        Some(s) => ed25519_accepts(issuer_key, c.unsigned_encoding(), s),
        None => false,
    }
}

/// The fault of a certificate whose signature does not verify: the
/// primitive's rejection where a signature is present, else a missing
/// signature.
pub open spec fn signature_fault(c: CertificateView) -> ChainFault {
    match c.signature {
        Some(_) => ChainFault::SignatureRejected,
        None => ChainFault::Validation(ValidationErrorCode::SignatureError),
    }
}

/// The key that signs `chain[i]`: the next certificate's subject key, or,
/// at the end of the chain, the key that the anchors trust for its issuer.
pub open spec fn issuer_key(chain: Seq<CertificateView>, anchors: Map<Seq<u8>, Seq<u8>>, i: int) -> Option<
    Seq<u8>,
> {
    if i + 1 < chain.len() {
        Some(chain[i + 1].subject_public_key)
    } else if anchors.contains_key(chain[i].issuer) {
        Some(anchors[chain[i].issuer])
    } else {
        None
    }
}

/// The verdict on `chain[i]` alone: its issuer's key, then its signature,
/// then the clock, then its validity window.
pub open spec fn position_verdict(
    chain: Seq<CertificateView>,
    anchors: Map<Seq<u8>, Seq<u8>>,
    now: Option<u64>,
    i: int,
) -> Result<(), ChainFault> {
    let c = chain[i];
    match issuer_key(chain, anchors, i) {
        None => Err(ChainFault::Validation(ValidationErrorCode::Untrusted)),
        Some(k) => if !signature_verifies(c, k) {
            Err(signature_fault(c))
        } else {
            match now {
                None => Err(ChainFault::Validation(ValidationErrorCode::TimeError)),
                Some(t) => if c.is_current_at(t) {
                    Ok(())
                } else {
                    Err(
                        ChainFault::Validation(
                            ValidationErrorCode::ValidityError { not_before: c.not_before, not_after: c.not_after },
                        ),
                    )
                },
            }
        },
    }
}

/// The verdict on the chain from position `i` on: the first fault, or
/// acceptance when every position passes.
pub open spec fn verdict_from(
    chain: Seq<CertificateView>,
    anchors: Map<Seq<u8>, Seq<u8>>,
    now: Option<u64>,
    i: int,
) -> Result<(), ChainFault>
    decreases chain.len() - i,
{
    if i < 0 || i >= chain.len() {
        Ok(())
    } else {
        match position_verdict(chain, anchors, now, i) {
            Err(e) => Err(e),
            Ok(()) => verdict_from(chain, anchors, now, i + 1),
        }
    }
}

/// The verdict on a whole chain at the reference time `now` (`None` where the
/// clock could not be read). An empty chain vouches for nothing.
pub open spec fn chain_verdict(chain: Seq<CertificateView>, anchors: Map<Seq<u8>, Seq<u8>>, now: Option<u64>) -> Result<
    (),
    ChainFault,
> {
    if chain.len() == 0 {
        Err(ChainFault::Validation(ValidationErrorCode::Untrusted))
    } else {
        verdict_from(chain, anchors, now, 0)
    }
}

/// Whether a returned result reports the verdict `v`: a rejected signature
/// as the signature primitive's own error, every other fault as its
/// validation kind.
pub open spec fn reports(r: Result<(), Error>, v: Result<(), ChainFault>) -> bool {
    match r {
        Ok(()) => v is Ok,
        Err(e) => match v {
            Ok(()) => false,
            Err(ChainFault::SignatureRejected) => e.code is Signature,
            Err(ChainFault::Validation(k)) => e.validation_code() == Some(k),
        },
    }
}

/// Validates `chain` (leaf first, each certificate issued by the next) against
/// the anchors of `store` at the reference time `now`, where `None` stands for
/// a clock that could not be read.
pub fn validate_chain_at(chain: &Vec<Certificate>, store: &TrustStore, now: Option<u64>) -> (r: Result<(), Error>)
    ensures
        reports(r, chain_verdict(chain_view(chain@), store@, now)),
{
    let ghost cv = chain_view(chain@);
    if chain.len() == 0 {
        return Err(Error::from_validation(ValidationErrorCode::Untrusted));
    }
    let mut i: usize = 0;
    while i < chain.len()
        invariant
            0 <= i <= chain@.len(),
            chain@.len() > 0,
            cv == chain_view(chain@),
            chain_verdict(cv, store@, now) == verdict_from(cv, store@, now, i as int),
        decreases chain@.len() - i,
    {
        let cert = &chain[i];
        let key = if i + 1 < chain.len() {
            &chain[i + 1].subject_public_key
        } else {
            match store.lookup(&cert.issuer) {
                Some(k) => k,
                None => return Err(Error::from_validation(ValidationErrorCode::Untrusted)),
            }
        };
        assert(issuer_key(cv, store@, i as int) == Some(key@));
        match &cert.signature {
            Some(s) => {
                let message = cert.encode_unsigned();
                match ed25519_verify(key, &message, s) {
                    Ok(()) => {},
                    Err(e) => return Err(Error::from(e)),
                }
            },
            None => return Err(Error::from_validation(ValidationErrorCode::SignatureError)),
        }
        match now {
            None => return Err(Error::from_validation(ValidationErrorCode::TimeError)),
            Some(t) => {
                if t < cert.not_before || t >= cert.not_after {
                    return Err(
                        Error::from_validation(
                            ValidationErrorCode::ValidityError { not_before: cert.not_before, not_after: cert.not_after },
                        ),
                    );
                }
            },
        }
        i = i + 1;
    }
    Ok(())
}

/// The certificates that the first `n` encodings hold, or the decoding fault
/// of the first one that holds none.
pub open spec fn decode_prefix(encoded: Seq<Seq<u8>>, n: int) -> Result<Seq<CertificateView>, DecodeError>
    decreases n,
{
    if n <= 0 {
        Ok(Seq::empty())
    } else {
        match decode_prefix(encoded, n - 1) {
            Err(e) => Err(e),
            Ok(s) => match parse_certificate(encoded[n - 1]) {
                Err(e) => Err(e),
                Ok(c) => Ok(s.push(c)),
            },
        }
    }
}

/// Once a decoding fault is met, it stays the fault of every longer prefix.
proof fn lemma_decode_fault_persists(encoded: Seq<Seq<u8>>, k: int, n: int)
    requires
        0 < k <= n,
        decode_prefix(encoded, k) is Err,
    ensures
        decode_prefix(encoded, n) == decode_prefix(encoded, k),
    decreases n - k,
{
    if k < n {
        lemma_decode_fault_persists(encoded, k, n - 1);
    }
}

/// Decodes each encoded certificate of a chain (leaf first), then validates
/// the chain against `store` at the reference time `now`. A decoding fault
/// is reported before anything is validated.
pub fn validate_encoded_chain_at(encoded: &Vec<Vec<u8>>, store: &TrustStore, now: Option<u64>) -> (r: Result<
    (),
    Error,
>)
    ensures
        match decode_prefix(encoded@.map_values(|b: Vec<u8>| b@), encoded@.len() as int) {
            Err(d) => r matches Err(e) && e.decode_error() == Some(d),
            Ok(chain) => reports(r, chain_verdict(chain, store@, now)),
        },
{
    let ghost bytes = encoded@.map_values(|b: Vec<u8>| b@);
    let mut chain: Vec<Certificate> = Vec::new();
    let mut i: usize = 0;
    assert(chain_view(chain@) =~= Seq::<CertificateView>::empty());
    while i < encoded.len()
        invariant
            i <= encoded@.len(),
            bytes == encoded@.map_values(|b: Vec<u8>| b@),
            decode_prefix(bytes, i as int) == Ok::<Seq<CertificateView>, DecodeError>(chain_view(chain@)),
        decreases encoded@.len() - i,
    {
        let ghost before = chain_view(chain@);
        match decode_certificate(encoded[i].as_slice()) {
            Ok(c) => {
                chain.push(c);
                assert(chain_view(chain@) =~= before.push(c@));
            },
            Err(e) => {
                proof {
                    lemma_decode_fault_persists(bytes, i + 1, encoded@.len() as int);
                }
                return Err(e);
            },
        }
        i = i + 1;
    }
    validate_chain_at(&chain, store, now)
}

/// Validates `chain` against the anchors of `store` at the time that the
/// clock gives. Whatever the clock returned, the result is the verdict at
/// some reference time, or the time fault where the clock failed.
pub fn validate_chain(chain: &Vec<Certificate>, store: &TrustStore) -> (r: Result<(), Error>)
    ensures
        exists|now: Option<u64>| reports(r, chain_verdict(chain_view(chain@), store@, now)),
{
    let now = match clock::now() {
        Ok(t) => Some(t),
        Err(_) => None,
    };
    validate_chain_at(chain, store, now)
}

/// The Ed25519 public key of an issuer's secret key, as a certificate's
/// subject key or a trust anchor's key holds it. A secret key of the wrong
/// length is a fault of the signature kind.
pub fn public_key_of(secret_key: &Vec<u8>) -> (r: Result<Vec<u8>, Error>)
    ensures
        r is Ok <==> secret_key@.len() == SECRET_KEY_LENGTH,
        r matches Ok(k) ==> k@ == ed25519_public_key(secret_key@) && k@.len() == PUBLIC_KEY_LENGTH,
        r matches Err(e) ==> e.code is Signature,
{
    match ed25519_public_key_of(secret_key) {
        Ok(k) => Ok(k),
        Err(e) => Err(Error::from(e)),
    }
}

/// Signs `unsigned` with the issuer's Ed25519 secret key: the result carries
/// the same fields, and a signature over their canonical encoding. A secret
/// key of the wrong length is a fault of the signature kind.
pub fn sign_certificate(unsigned: Certificate, issuer_secret_key: &Vec<u8>) -> (r: Result<Certificate, Error>)
    ensures
        r is Ok <==> issuer_secret_key@.len() == SECRET_KEY_LENGTH,
        r matches Ok(c) ==> c@ == (CertificateView {
            signature: Some(ed25519_signature(issuer_secret_key@, unsigned@.unsigned_encoding())),
            ..unsigned@
        }),
        r matches Ok(c) ==> signature_verifies(c@, ed25519_public_key(issuer_secret_key@)),
        r matches Err(e) ==> e.code is Signature,
{
    let message = unsigned.encode_unsigned();
    match ed25519_sign(issuer_secret_key, &message) {
        Ok(signature) => {
            let mut c = unsigned;
            c.signature = Some(signature);
            Ok(c)
        },
        Err(e) => Err(Error::from(e)),
    }
}

} // verus!
