//! Digests and signatures.
use vstd::prelude::*;

verus! {

/// The SHA-256 digest of a message.
pub uninterp spec fn sha256(message: Seq<u8>) -> Seq<u8>;

/// `sha2::Sha256::digest`: the 32 bytes of a message's digest, a function of the
/// message.
#[verifier::external_body]
pub(crate) fn digest(message: &[u8]) -> (bytes: Vec<u8>)
    ensures
        bytes@ == sha256(message@),
        bytes@.len() == 32,
{
    <sha2::Sha256 as sha2::Digest>::digest(message).to_vec()
}

/// Whether an Ed25519 signature over a message holds under a public key, by the
/// strict rules.
pub uninterp spec fn strictly_signed(key: Seq<u8>, message: Seq<u8>, signature: Seq<u8>) -> bool;

/// `ed25519_dalek::VerifyingKey::verify_strict` on the key that `from_bytes`
/// reads and the signature that `Signature::from_slice` reads: whether both are
/// read and the signature holds is a function of the three. A signature has 64
/// bytes.
#[verifier::external_body]
pub(crate) fn verify_strict(key: &[u8; 32], message: &[u8], signature: &[u8]) -> (r: bool)
    ensures
        r == strictly_signed(key@, message@, signature@),
        signature@.len() != 64 ==> !r,
{
    let key = ed25519_dalek::VerifyingKey::from_bytes(key).ok();
    let signature = ed25519_dalek::Signature::from_slice(signature).ok();
    match (key, signature) {
        (Some(key), Some(signature)) => key.verify_strict(message, &signature).is_ok(),
        _ => false,
    }
}

/// The Ed25519 signature that a seed gives for a message.
pub uninterp spec fn signature_of(seed: Seq<u8>, message: Seq<u8>) -> Seq<u8>;

/// `ed25519_dalek::SigningKey::from_bytes` and its `sign`: the 64 bytes of a
/// signature are a function of the seed and the message.
#[verifier::external_body]
pub(crate) fn sign(seed: &[u8; 32], message: &[u8]) -> (signature: Vec<u8>)
    ensures
        signature@ == signature_of(seed@, message@),
        signature@.len() == 64,
{
    let key = ed25519_dalek::SigningKey::from_bytes(seed);
    ed25519_dalek::Signer::sign(&key, message).to_bytes().to_vec()
}

} // verus!
