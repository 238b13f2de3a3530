use crate::hashing::{hash_pub_key, pub_key_hash};
use crate::signature::{
    ed25519_keypair, ed25519_secret_key, public_half, signs_for_itself, PUBLIC_KEY_LEN, SEED_LEN,
};
use vstd::prelude::*;

verus! {

/// A key pair: the secret key that signs, and the public key that others
/// check the signatures with.
#[derive(Debug, PartialEq, Eq)]
pub struct Wallet {
    pub secret_key: Vec<u8>,
    pub public_key: Vec<u8>,
}

impl Wallet {
    /// The key pair that a seed of 32 bytes gives; none for a seed of
    /// another length.
    pub fn from_seed(seed: &[u8]) -> (made: Option<Wallet>)
        ensures
            match made {
                Some(wallet) => {
                    &&& seed@.len() == SEED_LEN
                    &&& wallet.secret_key@ == ed25519_secret_key(seed@)
                    &&& wallet.public_key@ == public_half(wallet.secret_key@)
                    &&& wallet.public_key@.len() == PUBLIC_KEY_LEN
                    &&& signs_for_itself(wallet.secret_key@)
                },
                None => seed@.len() != SEED_LEN,
            },
    {
        if seed.len() != SEED_LEN {
            return None;
        }
        let (secret_key, public_key) = ed25519_keypair(seed);
        Some(Wallet { secret_key, public_key })
    }

    /// The hash that outputs for this wallet are locked to.
    pub fn locking_hash(&self) -> (hash: Vec<u8>)
        ensures
            hash@ == pub_key_hash(self.public_key@),
    {
        hash_pub_key(self.public_key.as_slice())
    }
}

} // verus!
