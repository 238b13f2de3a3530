use crate::address::{address_to_hash, locking_hash_of};
use crate::errors::LedgerError;
use crate::hashing::{bytes_equal, hash_pub_key, pub_key_hash};
use vstd::prelude::*;

verus! {

/// A transaction input: the output it spends, and the proof of the right to
/// spend it.
#[derive(Debug, PartialEq, Eq)]
pub struct TXInput {
    pub txid: String,
    pub vout: i32,
    pub signature: Vec<u8>,
    pub pub_key: Vec<u8>,
}

/// A transaction output: a value locked to the hash of a public key.
#[derive(Debug, PartialEq, Eq)]
pub struct TXOutput {
    pub value: i32,
    pub pub_key_hash: Vec<u8>,
}

/// What an input is, as mathematics.
pub struct TxInputView {
    pub txid: Seq<char>,
    pub vout: i32,
    pub signature: Seq<u8>,
    pub pub_key: Seq<u8>,
}

/// What an output is, as mathematics.
pub struct TxOutputView {
    pub value: i32,
    pub pub_key_hash: Seq<u8>,
}

impl View for TXInput {
    type V = TxInputView;

    open spec fn view(&self) -> TxInputView {
        TxInputView {
            txid: self.txid@,
            vout: self.vout,
            signature: self.signature@,
            pub_key: self.pub_key@,
        }
    }
}

impl View for TXOutput {
    type V = TxOutputView;

    open spec fn view(&self) -> TxOutputView {
        TxOutputView { value: self.value, pub_key_hash: self.pub_key_hash@ }
    }
}

/// A copy of a byte string.
pub fn copy_bytes(bytes: &Vec<u8>) -> (copy: Vec<u8>)
    ensures
        copy@ == bytes@,
{
    vstd::slice::slice_to_vec(bytes.as_slice())
}

impl Clone for TXInput {
    fn clone(&self) -> (copy: Self)
        ensures
            copy@ == self@,
    {
        TXInput {
            txid: self.txid.clone(),
            vout: self.vout,
            signature: copy_bytes(&self.signature),
            pub_key: copy_bytes(&self.pub_key),
        }
    }
}

impl Clone for TXOutput {
    fn clone(&self) -> (copy: Self)
        ensures
            copy@ == self@,
    {
        TXOutput { value: self.value, pub_key_hash: copy_bytes(&self.pub_key_hash) }
    }
}

impl TXInput {
    /// Whether the public key of this input hashes to `unlocking_data`.
    pub fn can_unlock_output_with(&self, unlocking_data: &[u8]) -> (can: bool)
        ensures
            can == (pub_key_hash(self.pub_key@) == unlocking_data@),
    {
        let hash = hash_pub_key(self.pub_key.as_slice());
        bytes_equal(hash.as_slice(), unlocking_data)
    }
}

impl TXOutput {
    /// An output of `value` locked to the hash that `address` carries.
    pub fn new(value: i32, address: String) -> (made: Result<Self, LedgerError>)
        ensures
            match locking_hash_of(address@) {
                Some(hash) => made is Ok && made->Ok_0@ == (TxOutputView {
                    value,
                    pub_key_hash: hash,
                }),
                None => made == Err::<Self, LedgerError>(LedgerError::EncodingError),
            },
    {
        let mut txo = TXOutput { value, pub_key_hash: Vec::new() };
        match txo.lock(address.as_str()) {
            Ok(()) => Ok(txo),
            Err(e) => Err(e),
        }
    }

    /// Locks the output to the hash that `address` carries; leaves it as it
    /// is where the text is no address.
    fn lock(&mut self, address: &str) -> (done: Result<(), LedgerError>)
        ensures
            final(self).value == old(self).value,
            match locking_hash_of(address@) {
                Some(hash) => done is Ok && final(self).pub_key_hash@ == hash,
                None => done == Err::<(), LedgerError>(LedgerError::EncodingError) && *final(self)
                    == *old(self),
            },
    {
        match address_to_hash(address) {
            Some(hash) => {
                self.pub_key_hash = hash;
                Ok(())
            },
            None => Err(LedgerError::EncodingError),
        }
    }

    /// Whether this output is locked to `unlocking_data`.
    pub fn can_be_unlock_with(&self, unlocking_data: &[u8]) -> (can: bool)
        ensures
            can == (self.pub_key_hash@ == unlocking_data@),
    {
        bytes_equal(self.pub_key_hash.as_slice(), unlocking_data)
    }
}

} // verus!
