use vstd::prelude::*;

verus! {

/// Length in bytes of a secret key: the 32-byte seed followed by the public key.
pub const SECRET_KEY_LEN: usize = 64;

/// Length in bytes of a public key.
pub const PUBLIC_KEY_LEN: usize = 32;

/// Length in bytes of a signature.
pub const SIGNATURE_LEN: usize = 64;

/// Length in bytes of the seed a key pair is derived from.
pub const SEED_LEN: usize = 32;

/// The secret key that Ed25519 derives from `seed`.
pub uninterp spec fn ed25519_secret_key(seed: Seq<u8>) -> Seq<u8>;

/// The Ed25519 signature of `message` under `secret_key`.
pub uninterp spec fn ed25519_signature(message: Seq<u8>, secret_key: Seq<u8>) -> Seq<u8>;

/// Whether `signature` is accepted for `message` under `public_key`.
pub uninterp spec fn ed25519_verifies(
    message: Seq<u8>,
    public_key: Seq<u8>,
    signature: Seq<u8>,
) -> bool;

/// The public half of a secret key: its last 32 bytes.
pub open spec fn public_half(secret_key: Seq<u8>) -> Seq<u8> {
    secret_key.subrange(PUBLIC_KEY_LEN as int, SECRET_KEY_LEN as int)
}

/// A secret key whose signatures are 64 bytes long and accepted under its own
/// public half, whatever the message.
pub open spec fn signs_for_itself(secret_key: Seq<u8>) -> bool {
    &&& secret_key.len() == SECRET_KEY_LEN
    &&& forall|message: Seq<u8>|
        (#[trigger] ed25519_signature(message, secret_key)).len() == SIGNATURE_LEN
            && ed25519_verifies(
            message,
            public_half(secret_key),
            ed25519_signature(message, secret_key),
        )
}

/// Trusted: `crypto::ed25519::keypair`. For a 32-byte seed it returns the
/// 64-byte secret key (seed, then public key) and the 32-byte public key. The
/// contract also claims the correctness of Ed25519 for such a pair: every
/// signature made with the secret key is accepted under the public key.
#[verifier::external_body]
pub(crate) fn ed25519_keypair(seed: &[u8]) -> (keys: (Vec<u8>, Vec<u8>))
    requires
        seed@.len() == SEED_LEN,
    ensures
        keys.0@ == ed25519_secret_key(seed@),
        keys.0@.len() == SECRET_KEY_LEN,
        keys.1@ == public_half(keys.0@),
        signs_for_itself(keys.0@),
{
    let (secret, public) = crypto::ed25519::keypair(seed);
    (secret.to_vec(), public.to_vec())
}

/// Trusted: `crypto::ed25519::signature`. It reads the first 64 bytes of the
/// secret key and returns a 64-byte signature that depends on the message and
/// the key alone.
#[verifier::external_body]
pub(crate) fn ed25519_sign(message: &[u8], secret_key: &[u8]) -> (signature: Vec<u8>)
    requires
        secret_key@.len() == SECRET_KEY_LEN,
    ensures
        signature@ == ed25519_signature(message@, secret_key@),
        signature@.len() == SIGNATURE_LEN,
{
    crypto::ed25519::signature(message, secret_key).to_vec()
}

/// Trusted: `crypto::ed25519::verify`. It reads 32 bytes of public key and 64
/// bytes of signature; its answer depends on its three arguments alone.
#[verifier::external_body]
pub(crate) fn ed25519_verify(message: &[u8], public_key: &[u8], signature: &[u8]) -> (accepted:
    bool)
    requires
        public_key@.len() == PUBLIC_KEY_LEN,
        signature@.len() == SIGNATURE_LEN,
    ensures
        accepted == ed25519_verifies(message@, public_key@, signature@),
{
    crypto::ed25519::verify(message, public_key, signature)
}

} // verus!
