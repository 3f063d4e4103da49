use blockchain_maker::crypto::{digest, sign, verify};
use sha2::{Digest, Sha256};

fn chars(s: &str) -> Vec<char> {
    s.chars().collect()
}

fn to_string(v: &[char]) -> String {
    v.iter().collect()
}

#[test]
fn digest_is_deterministic() {
    let a = digest(&chars("the same input"));
    let b = digest(&chars("the same input"));
    assert_eq!(a, b);
}

#[test]
fn digest_differs_on_different_inputs() {
    let a = digest(&chars("a"));
    let b = digest(&chars("b"));
    assert_ne!(a, b);
    let c = digest(&chars(""));
    assert_ne!(a, c);
}

#[test]
fn digest_matches_independent_sha256() {
    let mut hasher = Sha256::new();
    hasher.update("abc".as_bytes());
    let expected = format!("{:x}", hasher.finalize());
    let got = to_string(&digest(&chars("abc")));
    assert_eq!(got, expected);
    assert_eq!(got.len(), 64);
}

#[test]
fn sign_then_verify_succeeds() {
    let message = chars("message to sign");
    let (signature, public_key, private_key) = sign(&message).expect("signing failed");
    assert!(verify(&public_key, &message, &signature));
    assert!(!private_key.is_empty());
    assert!(!public_key.is_empty());
    assert!(!signature.is_empty());
}

#[test]
fn verify_rejects_mismatched_keypair() {
    let message = chars("message to sign");
    let (signature_one, _public_one, _sk1) = sign(&message).expect("signing failed");
    let (_signature_two, public_two, _sk2) = sign(&message).expect("signing failed");
    assert!(!verify(&public_two, &message, &signature_one));
}

#[test]
fn verify_rejects_wrong_message() {
    let message = chars("original message");
    let (signature, public_key, _sk) = sign(&message).expect("signing failed");
    assert!(!verify(&public_key, &chars("another message"), &signature));
}

#[test]
fn verify_rejects_malformed_inputs() {
    let message = chars("anything");
    assert!(!verify(&b"not a pem".to_vec(), &message, &b"not a signature".to_vec()));
    let (signature, public_key, _sk) = sign(&message).expect("signing failed");
    let mut tampered = signature.clone();
    tampered[0] ^= 0xff;
    assert!(!verify(&public_key, &message, &tampered));
    let mut empty_sig: Vec<u8> = Vec::new();
    assert!(!verify(&public_key, &message, &empty_sig));
    empty_sig.push(0);
    assert!(!verify(&empty_sig, &message, &signature));
}
