use ed25519_dalek::SignatureError;
use vstd::prelude::*;

verus! {

/// Length in bytes of an Ed25519 public key.
pub const PUBLIC_KEY_LENGTH: usize = 32;

/// Length in bytes of an Ed25519 secret key.
pub const SECRET_KEY_LENGTH: usize = 32;

/// Length in bytes of an Ed25519 signature.
pub const SIGNATURE_LENGTH: usize = 64;

/// Whether Ed25519 verification accepts `signature` on `message` under
/// `public_key`.
pub uninterp spec fn ed25519_accepts(public_key: Seq<u8>, message: Seq<u8>, signature: Seq<u8>) -> bool;

/// The Ed25519 signature that `secret_key` makes on `message`.
pub uninterp spec fn ed25519_signature(secret_key: Seq<u8>, message: Seq<u8>) -> Seq<u8>;

/// The Ed25519 public key that belongs to `secret_key`.
pub uninterp spec fn ed25519_public_key(secret_key: Seq<u8>) -> Seq<u8>;

/// Relies on ed25519_dalek's `SecretKey::from_bytes` and
/// `PublicKey::from(&SecretKey)`: a secret key is accepted exactly when it is
/// 32 bytes long, and the public key, 32 bytes, depends on it alone.
#[verifier::external_body]
pub(crate) fn ed25519_public_key_of(secret_key: &Vec<u8>) -> (r: Result<Vec<u8>, SignatureError>)
    ensures
        r is Ok <==> secret_key@.len() == SECRET_KEY_LENGTH,
        r matches Ok(k) ==> k@ == ed25519_public_key(secret_key@),
        r matches Ok(k) ==> k@.len() == PUBLIC_KEY_LENGTH,
{
    let secret = ed25519_dalek::SecretKey::from_bytes(secret_key.as_slice())?;
    Ok(ed25519_dalek::PublicKey::from(&secret).to_bytes().to_vec())
}

/// Relies on ed25519_dalek's `PublicKey::from_bytes`, `Signature::from_bytes`
/// and `Verifier::verify`: the verdict is a function of the three byte
/// strings, and a key of another length than 32 bytes or a signature of
/// another length than 64 bytes is refused.
#[verifier::external_body]
pub(crate) fn ed25519_verify(public_key: &Vec<u8>, message: &Vec<u8>, signature: &Vec<u8>) -> (r: Result<(), SignatureError>)
    ensures
        r is Ok <==> ed25519_accepts(public_key@, message@, signature@),
        public_key@.len() != PUBLIC_KEY_LENGTH ==> r is Err,
        signature@.len() != SIGNATURE_LENGTH ==> r is Err,
{
    let key = ed25519_dalek::PublicKey::from_bytes(public_key.as_slice())?;
    let sig = ed25519_dalek::Signature::from_bytes(signature.as_slice())?;
    ed25519_dalek::Verifier::verify(&key, message.as_slice(), &sig)
}

/// Relies on ed25519_dalek's `SecretKey::from_bytes` and
/// `ExpandedSecretKey::sign`: a secret key is accepted exactly when it is 32
/// bytes long, signing is deterministic, giving 64 bytes, and the signature
/// is one that `Verifier::verify` accepts under the secret key's public key.
#[verifier::external_body]
pub(crate) fn ed25519_sign(secret_key: &Vec<u8>, message: &Vec<u8>) -> (r: Result<Vec<u8>, SignatureError>)
    ensures
        r is Ok <==> secret_key@.len() == SECRET_KEY_LENGTH,
        r matches Ok(s) ==> s@ == ed25519_signature(secret_key@, message@),
        r matches Ok(s) ==> s@.len() == SIGNATURE_LENGTH,
        r matches Ok(s) ==> ed25519_accepts(ed25519_public_key(secret_key@), message@, s@),
{
    let secret = ed25519_dalek::SecretKey::from_bytes(secret_key.as_slice())?;
    let public = ed25519_dalek::PublicKey::from(&secret);
    let expanded = ed25519_dalek::ExpandedSecretKey::from(&secret);
    Ok(expanded.sign(message.as_slice(), &public).to_bytes().to_vec())
}

} // verus!
