use vstd::prelude::*;
use vstd::string::*;

verus! {

/// No address, legacy or prefixed, is shorter than this many bytes.
pub const MIN_ADDRESS_LEN: usize = 22;

/// The hash bytes that an address text carries, where the text is a valid
/// address.
pub uninterp spec fn address_body(address: Seq<char>) -> Option<Seq<u8>>;

/// The locking hash that `address` stands for: none for a text that is too
/// short to be an address or that does not decode.
pub open spec fn locking_hash_of(address: Seq<char>) -> Option<Seq<u8>> {
    if vstd::utf8::encode_utf8(address).len() < MIN_ADDRESS_LEN {
        None
    } else {
        address_body(address)
    }
}

/// Trusted: `bitcoincash_addr::Address::decode`, of which the `body` is kept.
/// The answer depends on the text alone. Texts shorter than 22 bytes are left
/// out: on some of them the decoder could slice past the end of its payload.
#[verifier::external_body]
fn decode_address(address: &str) -> (body: Option<Vec<u8>>)
    requires
        address.spec_bytes().len() >= MIN_ADDRESS_LEN,
    ensures
        match body {
            Some(bytes) => address_body(address@) == Some(bytes@),
            None => address_body(address@) is None,
        },
{
    match bitcoincash_addr::Address::decode(address) {
        Ok(decoded) => Some(decoded.body),
        Err(_) => None,
    }
}

/// Reads the locking hash out of an address.
pub fn address_to_hash(address: &str) -> (hash: Option<Vec<u8>>)
    ensures
        match hash {
            Some(bytes) => locking_hash_of(address@) == Some(bytes@),
            None => locking_hash_of(address@) is None,
        },
{
    if address.as_bytes().len() < MIN_ADDRESS_LEN {
        None
    } else {
        decode_address(address)
    }
}

} // verus!
