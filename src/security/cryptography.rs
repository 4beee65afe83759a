//! Hashing and Ed25519 key material.
use vstd::prelude::*;
use sha2::Digest;
use rand_core::RngCore;

verus! {

/// The SHA-256 digest of `data`.
pub uninterp spec fn sha256_of(data: Seq<u8>) -> Seq<u8>;

/// SHA-256 digest of `data`, for integrity checks and for seeding embeddings.
///
/// Relies on `sha2::Sha256` (`update`, then `finalize`): the digest depends on the
/// bytes alone and is 32 bytes long.
#[verifier::external_body]
pub fn hash_data(data: &[u8]) -> (r: Vec<u8>)
    ensures
        r@ == sha256_of(data@),
        r@.len() == 32,
{
    let mut hasher = sha2::Sha256::new();
    hasher.update(data);
    hasher.finalize().to_vec()
}


/// The Ed25519 public key that belongs to the 32-byte secret key `secret`.
pub uninterp spec fn ed25519_public_key(secret: Seq<u8>) -> Seq<u8>;

/// 32 bytes from the operating system's secure random source.
///
/// Relies on `rand_core::OsRng::fill_bytes`; nothing is assumed of the bytes.
#[verifier::external_body]
pub(crate) fn random_secret_key() -> (r: Vec<u8>)
    ensures
        r@.len() == 32,
{
    let mut sk_bytes = [0u8; 32];
    rand_core::OsRng.fill_bytes(&mut sk_bytes);
    sk_bytes.to_vec()
}

/// The public key of the Ed25519 secret key `secret`.
///
/// Relies on `ed25519_dalek::SigningKey::from_bytes`, `verifying_key` and
/// `VerifyingKey::to_bytes`: the key depends on the secret alone and is 32 bytes long.
#[verifier::external_body]
pub(crate) fn public_key_for(secret: &Vec<u8>) -> (r: Vec<u8>)
    requires
        secret@.len() == 32,
    ensures
        r@ == ed25519_public_key(secret@),
        r@.len() == 32,
{
    let mut b = [0u8; 32];
    b.copy_from_slice(secret);
    ed25519_dalek::SigningKey::from_bytes(&b).verifying_key().to_bytes().to_vec()
}

} // verus!
