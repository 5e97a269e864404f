use smolcert::{
    decode_certificate, public_key_of, sign_certificate, validate_chain, validate_chain_at, validate_encoded_chain_at, Certificate, DecodeError, Error,
    ErrorCode, Extension, TrustStore, ValidationErrorCode,
};

fn secret(seed: u8) -> Vec<u8> {
    vec![seed; 32]
}

fn public(seed: u8) -> Vec<u8> {
    let sk = ed25519_dalek::SecretKey::from_bytes(&secret(seed)).unwrap();
    ed25519_dalek::PublicKey::from(&sk).to_bytes().to_vec()
}

fn unsigned(subject: &str, issuer: &str, key_seed: u8, not_before: u64, not_after: u64) -> Certificate {
    Certificate {
        subject: subject.as_bytes().to_vec(),
        issuer: issuer.as_bytes().to_vec(),
        subject_public_key: public(key_seed),
        not_before,
        not_after,
        extensions: vec![Extension { key: b"usage".to_vec(), value: b"tls".to_vec() }],
        signature: None,
    }
}

fn signed(subject: &str, issuer: &str, key_seed: u8, issuer_seed: u8, not_before: u64, not_after: u64) -> Certificate {
    sign_certificate(unsigned(subject, issuer, key_seed, not_before, not_after), &secret(issuer_seed)).unwrap()
}

fn store_with(identity: &str, key_seed: u8) -> TrustStore {
    let mut store = TrustStore::new();
    store.add_anchor(identity.as_bytes().to_vec(), public(key_seed));
    store
}

fn validation_code(r: Result<(), Error>) -> Option<ValidationErrorCode> {
    match r {
        Ok(()) => None,
        Err(e) => match e.code() {
            ErrorCode::ValidationError(v) => Some(*v),
            _ => panic!("not a validation fault"),
        },
    }
}

fn rejected_signature(r: Result<(), Error>) -> bool {
    match r {
        Err(e) => matches!(e.code(), ErrorCode::Signature(_)),
        Ok(()) => false,
    }
}

fn corrupt(mut c: Certificate) -> Certificate {
    let mut s = c.signature.take().unwrap();
    s[10] ^= 0x01;
    c.signature = Some(s);
    c
}

#[test]
fn scenario_leaf_signed_by_anchor() {
    let store = store_with("root-A", 1);
    let leaf = signed("leaf", "root-A", 2, 1, 1000, 2000);
    let chain = vec![leaf];
    assert!(validate_chain_at(&chain, &store, Some(1500)).is_ok());
    assert_eq!(
        validation_code(validate_chain_at(&chain, &store, Some(2000))),
        Some(ValidationErrorCode::ValidityError { not_before: 1000, not_after: 2000 })
    );
    let bad = vec![corrupt(chain[0].clone())];
    assert!(rejected_signature(validate_chain_at(&bad, &store, Some(1500))));
}

#[test]
fn signature_fault_outranks_window_fault() {
    let store = store_with("root-A", 1);
    let expired = vec![signed("leaf", "root-A", 2, 1, 1000, 2000)];
    assert_eq!(
        validation_code(validate_chain_at(&expired, &store, Some(5000))),
        Some(ValidationErrorCode::ValidityError { not_before: 1000, not_after: 2000 })
    );
    let wrong_signer = vec![signed("leaf", "root-A", 2, 9, 1000, 2000)];
    assert!(rejected_signature(validate_chain_at(&wrong_signer, &store, Some(1500))));
    assert!(rejected_signature(validate_chain_at(&wrong_signer, &store, Some(5000))));
    assert!(rejected_signature(validate_chain_at(&wrong_signer, &store, None)));
}

#[test]
fn clock_fault_after_signature_check() {
    let store = store_with("root-A", 1);
    let chain = vec![signed("leaf", "root-A", 2, 1, 1000, 2000)];
    assert_eq!(validation_code(validate_chain_at(&chain, &store, None)), Some(ValidationErrorCode::TimeError));
}

#[test]
fn validity_window_is_half_open() {
    let store = store_with("root-A", 1);
    let chain = vec![signed("leaf", "root-A", 2, 1, 1000, 2000)];
    assert!(validate_chain_at(&chain, &store, Some(1000)).is_ok());
    assert!(validate_chain_at(&chain, &store, Some(1999)).is_ok());
    assert_eq!(
        validation_code(validate_chain_at(&chain, &store, Some(2000))),
        Some(ValidationErrorCode::ValidityError { not_before: 1000, not_after: 2000 })
    );
    assert_eq!(
        validation_code(validate_chain_at(&chain, &store, Some(999))),
        Some(ValidationErrorCode::ValidityError { not_before: 1000, not_after: 2000 })
    );
}

#[test]
fn untrusted_end_of_chain() {
    let store = store_with("root-A", 1);
    let chain = vec![signed("leaf", "root-B", 2, 1, 1000, 2000)];
    assert_eq!(validation_code(validate_chain_at(&chain, &store, Some(1500))), Some(ValidationErrorCode::Untrusted));
    let empty: Vec<Certificate> = Vec::new();
    assert_eq!(validation_code(validate_chain_at(&empty, &store, Some(1500))), Some(ValidationErrorCode::Untrusted));
}

#[test]
fn three_link_chain() {
    let store = store_with("root-A", 1);
    let leaf = signed("leaf", "mid", 3, 2, 1000, 2000);
    let mid = signed("mid", "root", 2, 4, 1000, 2000);
    let root = signed("root", "root-A", 4, 1, 1000, 2000);
    let good = vec![leaf.clone(), mid.clone(), root.clone()];
    assert!(validate_chain_at(&good, &store, Some(1500)).is_ok());
    // The middle link is signed by another key, and the root has expired:
    // the middle link's fault is reported.
    let bad_mid = signed("mid", "root", 2, 8, 1000, 2000);
    let old_root = signed("root", "root-A", 4, 1, 100, 200);
    let chain = vec![leaf, bad_mid, old_root];
    assert!(rejected_signature(validate_chain_at(&chain, &store, Some(1500))));
}

#[test]
fn validate_with_clock() {
    let store = store_with("root-A", 1);
    let chain = vec![signed("leaf", "root-A", 2, 1, 1000, u64::MAX)];
    assert!(validate_chain(&chain, &store).is_ok());
    let expired = vec![signed("leaf", "root-A", 2, 1, 1000, 2000)];
    assert_eq!(
        validation_code(validate_chain(&expired, &store)),
        Some(ValidationErrorCode::ValidityError { not_before: 1000, not_after: 2000 })
    );
}

#[test]
fn trust_store_replaces_and_compares_exactly() {
    let mut store = TrustStore::new();
    assert!(store.lookup(&b"root-A".to_vec()).is_none());
    store.add_anchor(b"root-A".to_vec(), public(9));
    store.add_anchor(b"root-B".to_vec(), public(5));
    store.add_anchor(b"root-A".to_vec(), public(1));
    assert_eq!(store.lookup(&b"root-A".to_vec()), Some(&public(1)));
    assert_eq!(store.lookup(&b"root-B".to_vec()), Some(&public(5)));
    assert!(store.lookup(&b"root-".to_vec()).is_none());
    assert!(store.lookup(&b"root-AA".to_vec()).is_none());
    let chain = vec![signed("leaf", "root-A", 2, 1, 1000, 2000)];
    assert!(validate_chain_at(&chain, &store, Some(1500)).is_ok());
}

#[test]
fn signing_fills_signature_only() {
    let u = unsigned("leaf", "root-A", 2, 1000, 2000);
    let c = sign_certificate(u.clone(), &secret(1)).unwrap();
    let s = c.signature.clone().unwrap();
    assert_eq!(s.len(), 64);
    assert_ne!(s, vec![0u8; 64]);
    assert_eq!(c.encode_unsigned(), u.encode_unsigned());
    let again = sign_certificate(u.clone(), &secret(1)).unwrap();
    assert_eq!(again.signature, c.signature);
    let other = sign_certificate(u.clone(), &secret(2)).unwrap();
    assert_ne!(other.signature, c.signature);
}

#[test]
fn signing_refuses_short_key() {
    let u = unsigned("leaf", "root-A", 2, 1000, 2000);
    let r = sign_certificate(u, &vec![1u8; 31]);
    match r {
        Err(e) => assert!(matches!(e.code(), ErrorCode::Signature(_))),
        Ok(_) => panic!("a short key was accepted"),
    }
}

#[test]
fn missing_signature_is_a_signature_fault() {
    let store = store_with("root-A", 1);
    let chain = vec![unsigned("leaf", "root-A", 2, 1000, 2000)];
    assert_eq!(validation_code(validate_chain_at(&chain, &store, Some(1500))), Some(ValidationErrorCode::SignatureError));
}

fn decode_fault(b: &[u8]) -> DecodeError {
    match decode_certificate(b) {
        Ok(_) => panic!("decoded"),
        Err(e) => match e.code() {
            ErrorCode::Serialization(d) => *d,
            _ => panic!("not a decoding fault"),
        },
    }
}

#[test]
fn round_trip_unsigned() {
    let u = unsigned("leaf", "root-A", 2, 1000, 2000);
    let bytes = u.encode();
    assert_eq!(bytes, u.encode_unsigned());
    let d = decode_certificate(&bytes).unwrap();
    assert_eq!(d.subject, u.subject);
    assert_eq!(d.issuer, u.issuer);
    assert_eq!(d.subject_public_key, u.subject_public_key);
    assert_eq!(d.not_before, 1000);
    assert_eq!(d.not_after, 2000);
    assert_eq!(d.extensions.len(), 1);
    assert_eq!(d.extensions[0].key, b"usage".to_vec());
    assert_eq!(d.extensions[0].value, b"tls".to_vec());
    assert!(d.signature.is_none());
    assert_eq!(d.encode(), bytes);
}

#[test]
fn round_trip_signed() {
    let c = signed("leaf", "root-A", 2, 1, 1000, 2000);
    let bytes = c.encode();
    let d = decode_certificate(&bytes).unwrap();
    assert_eq!(d.signature, c.signature);
    assert_eq!(d.encode(), bytes);
    let store = store_with("root-A", 1);
    assert!(validate_chain_at(&vec![d], &store, Some(1500)).is_ok());
}

#[test]
fn encoding_layout() {
    let c = Certificate {
        subject: b"s".to_vec(),
        issuer: b"".to_vec(),
        subject_public_key: vec![7u8; 32],
        not_before: 1,
        not_after: 0x0102,
        extensions: Vec::new(),
        signature: None,
    };
    let b = c.encode();
    assert_eq!(b.len(), 9 + 8 + 40 + 24);
    assert_eq!(&b[0..9], &[0, 0, 0, 0, 0, 0, 0, 1, b's']);
    assert_eq!(&b[9..17], &[0u8; 8]);
    assert_eq!(&b[57..65], &[0, 0, 0, 0, 0, 0, 0, 1]);
    assert_eq!(&b[65..73], &[0, 0, 0, 0, 0, 0, 1, 2]);
    assert_eq!(&b[73..81], &[0u8; 8]);
}

#[test]
fn decode_faults() {
    let u = unsigned("leaf", "root-A", 2, 1000, 2000);
    let bytes = u.encode();
    assert_eq!(decode_fault(&bytes[..bytes.len() - 1]), DecodeError::Truncated);
    assert_eq!(decode_fault(&[]), DecodeError::Truncated);
    let mut trailing = bytes.clone();
    trailing.extend_from_slice(&[0, 0, 0, 0, 0, 0, 0, 1, 5, 6]);
    assert_eq!(decode_fault(&trailing), DecodeError::TrailingBytes);
    let mut short_key = u.clone();
    short_key.subject_public_key = vec![1u8; 31];
    assert_eq!(decode_fault(&short_key.encode()), DecodeError::KeyLength);
    let mut no_subject = u.clone();
    no_subject.subject = Vec::new();
    assert_eq!(decode_fault(&no_subject.encode()), DecodeError::EmptySubject);
    let mut empty_window = u.clone();
    empty_window.not_after = 1000;
    assert_eq!(decode_fault(&empty_window.encode()), DecodeError::EmptyWindow);
}

#[test]
fn encoded_chain_decodes_then_validates() {
    let store = store_with("root-A", 1);
    let leaf = signed("leaf", "mid", 3, 2, 1000, 2000);
    let mid = signed("mid", "root-A", 2, 1, 1000, 2000);
    let encoded = vec![leaf.encode(), mid.encode()];
    assert!(validate_encoded_chain_at(&encoded, &store, Some(1500)).is_ok());
    assert_eq!(
        validation_code(validate_encoded_chain_at(&encoded, &store, Some(2500))),
        Some(ValidationErrorCode::ValidityError { not_before: 1000, not_after: 2000 })
    );
    let mut cut = mid.encode();
    cut.pop();
    let broken = vec![leaf.encode(), cut];
    match validate_encoded_chain_at(&broken, &store, Some(1500)) {
        Err(e) => assert!(matches!(e.code(), ErrorCode::Serialization(DecodeError::Truncated))),
        Ok(()) => panic!("a truncated certificate was accepted"),
    }
}

#[test]
fn public_key_matches_signer() {
    let k = public_key_of(&secret(1)).unwrap();
    assert_eq!(k, public(1));
    assert_ne!(k, secret(1));
    match public_key_of(&vec![1u8; 33]) {
        Err(e) => assert!(matches!(e.code(), ErrorCode::Signature(_))),
        Ok(_) => panic!("a long key was accepted"),
    }
    let mut store = TrustStore::new();
    store.add_anchor(b"root-A".to_vec(), k);
    let chain = vec![signed("leaf", "root-A", 2, 1, 1000, 2000)];
    assert!(validate_chain_at(&chain, &store, Some(1500)).is_ok());
}
