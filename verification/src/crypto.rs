//! The digest and signature engine.
//!
//! Hashing and signing are done by outside libraries. Their results are named
//! by uninterpreted spec functions — `sha256_hex_of` for the digest,
//! `verify_ok` for signature verification — and everything the rest of the
//! library proves about hashes and signatures is stated over those names.

use vstd::prelude::*;
use crate::codec::is_hex_char;
use sha2::Digest;
use openssl::ec::{EcGroup, EcKey};
use openssl::hash::MessageDigest;
use openssl::nid::Nid;
use openssl::pkey::PKey;
use openssl::sign::{Signer, Verifier};

verus! {

/// The lowercase-hex SHA-256 digest of a character sequence (hashed as UTF-8).
pub uninterp spec fn sha256_hex_of(s: Seq<char>) -> Seq<char>;

/// Whether a signature verifies, with SHA-256, against a PEM-encoded public
/// key for a message. Verification is a deterministic function of the three.
pub uninterp spec fn verify_ok(public_key_pem: Seq<u8>, message: Seq<char>, signature: Seq<u8>) -> bool;

/// Relies on sha2's `Sha256` for the digest and on the lowercase-hex
/// rendering of its 32-byte output: two hex digits per byte, 64 in all,
/// depending on the input characters alone.
#[verifier::external_body]
pub fn digest(s: &Vec<char>) -> (r: Vec<char>)
    ensures
        r@ == sha256_hex_of(s@),
        r@.len() == 64,
        forall|i: int| 0 <= i < r@.len() ==> is_hex_char(#[trigger] r@[i]),
{
    let text: String = s.iter().collect();
    let mut hasher = sha2::Sha256::new();
    hasher.update(text.as_bytes());
    let hex = format!("{:x}", hasher.finalize());
    hex.chars().collect()
}

/// Relies on openssl: a fresh SECP256K1 keypair from `EcKey::generate`, a
/// SHA-256 ECDSA signature from `Signer`, and the PEM encodings of the two
/// keys. The keypair is drawn anew on every call, so nothing is promised of
/// the returned bytes themselves; the body checks the signature with
/// `Verifier` before returning, verification uses only the key's public
/// component, and it is a deterministic function of key, message and
/// signature. The result is `(signature, public key PEM, private key PEM)`,
/// or `None` if the engine failed or its own check did not pass.
#[verifier::external_body]
pub fn sign(message: &Vec<char>) -> (r: Option<(Vec<u8>, Vec<u8>, Vec<u8>)>)
    ensures
        r matches Some(t) ==> verify_ok(t.1@, message@, t.0@),
{
    let msg: String = message.iter().collect();
    let group = EcGroup::from_curve_name(Nid::SECP256K1).ok()?;
    let ec_key = EcKey::generate(&group).ok()?;
    let private_pem = ec_key.private_key_to_pem().ok()?;
    let pkey = PKey::from_ec_key(ec_key).ok()?;
    let mut signer = Signer::new(MessageDigest::sha256(), &pkey).ok()?;
    let signature = signer.sign_oneshot_to_vec(msg.as_bytes()).ok()?;
    let public_pem = pkey.public_key_to_pem().ok()?;
    let mut verifier = Verifier::new(MessageDigest::sha256(), &pkey).ok()?;
    if !verifier.verify_oneshot(&signature, msg.as_bytes()).ok()? {
        return None;
    }
    Some((signature, public_pem, private_pem))
}

/// Relies on openssl's `PKey::public_key_from_pem` and `Verifier` with
/// SHA-256: a deterministic check of the signature against the key and
/// message, false — never a failure — on malformed key or signature bytes.
#[verifier::external_body]
pub fn verify(public_key_pem: &Vec<u8>, message: &Vec<char>, signature: &Vec<u8>) -> (r: bool)
    ensures
        r == verify_ok(public_key_pem@, message@, signature@),
{
    let msg: String = message.iter().collect();
    let pkey = match PKey::public_key_from_pem(public_key_pem) {
        Ok(k) => k,
        Err(_) => return false,
    };
    let mut verifier = match Verifier::new(MessageDigest::sha256(), &pkey) {
        Ok(v) => v,
        Err(_) => return false,
    };
    if verifier.update(msg.as_bytes()).is_err() {
        return false;
    }
    verifier.verify(signature).unwrap_or(false)
}

/// Relies on chrono's conversion from `std::time::SystemTime`, which handles
/// a clock set before the Unix epoch by returning a negative timestamp
/// instead of failing; nothing is promised of the value.
#[verifier::external_body]
pub fn now_timestamp() -> i64 {
    chrono::DateTime::<chrono::Utc>::from(std::time::SystemTime::now()).timestamp()
}

/// The digest names the same value for the same input, in every call.
pub proof fn lemma_digest_deterministic(x: Seq<char>, y: Seq<char>)
    requires
        x == y,
    ensures
        sha256_hex_of(x) == sha256_hex_of(y),
{
}

} // verus!
