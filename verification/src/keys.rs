//! Per-request key derivation: a static-ephemeral x25519 agreement between
//! the environment's exchange keypair and the caller's public key, then
//! HKDF-SHA256 salted by the caller's nonce.

use vstd::prelude::*;

use crate::bridge::{dh, dh_of, kdf, kdf_of};

verus! {

/// A caller-chosen once-per-transaction value; it ties every ciphertext of
/// the transaction to one derived key.
pub type IoNonce = [u8; 32];

/// The caller's ephemeral public key for one-time key agreement.
pub type Ed25519PublicKey = [u8; 32];

/// A 256-bit key for the deterministic cipher.
pub type AESKey = [u8; 32];

/// The environment's long-lived agreement keypair, held as its secret half.
pub struct KeyPair {
    pub secret: [u8; 32],
}

/// The symmetric key that a (nonce, caller public key) pair derives under an
/// agreement keypair.
pub open spec fn derived_key(secret: Seq<u8>, peer: Seq<u8>, nonce: Seq<u8>) -> Seq<u8> {
    kdf_of(dh_of(secret, peer), nonce)
}

/// Derives the one-time symmetric key of a request, so that distinct nonces
/// from the same caller yield unlinkable keys.
pub fn calc_encryption_key(
    nonce: &IoNonce,
    user_public_key: &Ed25519PublicKey,
    io_keypair: &KeyPair,
) -> (r: AESKey)
    ensures
        r@ == derived_key(io_keypair.secret@, user_public_key@, nonce@),
{
    let tx_encryption_ikm = dh(&io_keypair.secret, user_public_key);
    kdf(&tx_encryption_ikm, nonce)
}

} // verus!
