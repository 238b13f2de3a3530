use crypto::digest::Digest;
use vstd::prelude::*;

verus! {

/// The SHA-256 digest of `data`, as 32 raw bytes.
pub uninterp spec fn sha256_digest(data: Seq<u8>) -> Seq<u8>;

/// The SHA-256 digest of `data`, written as 64 lower-case hexadecimal digits.
pub uninterp spec fn sha256_hex_digest(data: Seq<u8>) -> Seq<char>;

/// The RIPEMD-160 digest of `data`, as 20 raw bytes.
pub uninterp spec fn ripemd160_digest(data: Seq<u8>) -> Seq<u8>;

/// The locking hash of a public key: RIPEMD-160 over SHA-256.
pub open spec fn pub_key_hash(pub_key: Seq<u8>) -> Seq<u8> {
    ripemd160_digest(sha256_digest(pub_key))
}

/// Trusted: runs `crypto::sha2::Sha256` over `data` and reads the digest with
/// `Digest::result`. The digest is a function of the input alone and is
/// 32 bytes long.
#[verifier::external_body]
fn sha256_bytes(data: &[u8]) -> (digest: Vec<u8>)
    ensures
        digest@ == sha256_digest(data@),
        digest@.len() == 32,
{
    let mut hasher = crypto::sha2::Sha256::new();
    hasher.input(data);
    let mut out = vec![0u8; 32];
    hasher.result(&mut out);
    out
}

/// Trusted: runs `crypto::sha2::Sha256` over `data` and reads the digest with
/// `Digest::result_str`, which writes the 32 digest bytes as 64 hexadecimal
/// digits. The text is a function of the input alone.
#[verifier::external_body]
pub(crate) fn sha256_hex(data: &[u8]) -> (digest: String)
    ensures
        digest@ == sha256_hex_digest(data@),
        digest@.len() == 64,
{
    let mut hasher = crypto::sha2::Sha256::new();
    hasher.input(data);
    hasher.result_str()
}

/// Trusted: runs `crypto::ripemd160::Ripemd160` over `data` and reads the
/// digest with `Digest::result`. The digest is a function of the input alone
/// and is 20 bytes long.
#[verifier::external_body]
fn ripemd160_bytes(data: &[u8]) -> (digest: Vec<u8>)
    ensures
        digest@ == ripemd160_digest(data@),
        digest@.len() == 20,
{
    let mut hasher = crypto::ripemd160::Ripemd160::new();
    hasher.input(data);
    let mut out = vec![0u8; 20];
    hasher.result(&mut out);
    out
}

/// Hashes a public key into the 20-byte form that outputs are locked to.
pub fn hash_pub_key(pub_key: &[u8]) -> (hash: Vec<u8>)
    ensures
        hash@ == pub_key_hash(pub_key@),
        hash@.len() == 20,
{
    let inner = sha256_bytes(pub_key);
    ripemd160_bytes(inner.as_slice())
}

/// Whether two byte strings hold the same bytes.
pub fn bytes_equal(a: &[u8], b: &[u8]) -> (same: bool)
    ensures
        same == (a@ == b@),
{
    if a.len() != b.len() {
        return false;
    }
    let mut i: usize = 0;
    while i < a.len()
        invariant
            a@.len() == b@.len(),
            i <= a@.len(),
            forall|j: int| 0 <= j < i ==> a@[j] == b@[j],
        decreases a@.len() - i,
    {
        if a[i] != b[i] {
            return false;
        }
        i += 1;
    }
    assert(a@ =~= b@);
    true
}

} // verus!
