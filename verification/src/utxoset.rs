use crate::block::Block;
use crate::blockchain::Blockchain;
use crate::encoding::{decode_outputs, encode_outputs, outputs_decoding, outputs_encoding};
use crate::errors::LedgerError;
use crate::store::{
    db_clear, db_entries, db_insert, db_items, item_key, key_before, lists_entries,
};
use crate::text::{lemma_encoding_tells_texts_apart, text_from_utf8};
use crate::spendable::{
    capped, owned, selection, spendables_view, total_value, SpendableOutput,
};
use crate::utxo_index::{
    apply_txs, chain_utxos, distinct_ids, has_entry, index_map, lemma_index_map,
    lemma_push_entry, sound_entries, sound_outputs, EntryView, Unspent, UtxoEntry, UtxoIndex,
    UtxoMap,
};
use crate::utxo_laws::owner_total;
use vstd::prelude::*;
use vstd::string::*;
use vstd::utf8::{encode_utf8, valid_utf8};

verus! {

/// The unspent outputs of a chain, kept in a store of their own: under the
/// identifier of each transaction that has some, its unspent outputs.
#[derive(Debug)]
pub struct UTXOSet {
    pub blockchain: Blockchain,
    pub store: sled::Db,
}

/// Bytes that stand for at least one output, each of a value of 0 or more.
pub open spec fn sound_record(bytes: Seq<u8>) -> bool {
    outputs_decoding(bytes) matches Some(outputs) && outputs.len() > 0 && sound_outputs(outputs)
}

/// Every key of the store is a text, and every record is sound.
pub open spec fn readable(records: Map<Seq<u8>, Seq<u8>>) -> bool {
    forall|key: Seq<u8>| #[trigger]
        records.contains_key(key) ==> valid_utf8(key) && sound_record(records[key])
}

/// The unspent outputs that the store holds, by transaction identifier.
pub open spec fn stored_utxos(records: Map<Seq<u8>, Seq<u8>>) -> UtxoMap {
    Map::new(
        |txid: Seq<char>| records.contains_key(encode_utf8(txid)),
        |txid: Seq<char>| outputs_decoding(records[encode_utf8(txid)])->Some_0,
    )
}

/// Whether the outputs of every transaction of the index can be encoded,
/// so that the index can be written to the store.
pub open spec fn storable(utxos: UtxoMap) -> bool {
    forall|txid: Seq<char>| #[trigger]
        utxos.contains_key(txid) ==> outputs_encoding(utxos[txid]) is Some
}

/// What the store holds for an index that was written to it: under the
/// identifier of each transaction the encoding of its outputs, and nothing
/// else.
pub open spec fn holds_index(records: Map<Seq<u8>, Seq<u8>>, utxos: UtxoMap) -> bool {
    &&& stored_utxos(records) == utxos
    &&& readable(records)
    &&& forall|txid: Seq<char>| #[trigger]
        utxos.contains_key(txid) ==> outputs_encoding(utxos[txid]) == Some(
            records[encode_utf8(txid)],
        )
}

/// The entries come in the order in which the store keeps their keys.
pub open spec fn in_store_order(entries: Seq<EntryView>) -> bool {
    forall|i: int, j: int|
        0 <= i < j < entries.len() ==> key_before(
            encode_utf8((#[trigger] entries[i]).txid),
            encode_utf8((#[trigger] entries[j]).txid),
        )
}

/// `entries` lists what the store holds, in the order of the store: one
/// entry for each record, none without an output, no output of a value
/// below 0.
pub open spec fn lists_utxos(entries: Seq<EntryView>, records: Map<Seq<u8>, Seq<u8>>) -> bool {
    &&& distinct_ids(entries)
    &&& sound_entries(entries)
    &&& in_store_order(entries)
    &&& index_map(entries) == stored_utxos(records)
}

/// Whether the outputs are some, each of a value of 0 or more.
fn outputs_are_sound(outputs: &Vec<Unspent>) -> (sound: bool)
    ensures
        sound == (outputs@.len() > 0 && sound_outputs(crate::utxo_index::unspents_view(outputs@))),
{
    if outputs.len() == 0 {
        return false;
    }
    let ghost all = crate::utxo_index::unspents_view(outputs@);
    let mut k: usize = 0;
    while k < outputs.len()
        invariant
            k <= outputs@.len(),
            all == crate::utxo_index::unspents_view(outputs@),
            forall|j: int| 0 <= j < k ==> (#[trigger] all[j]).output.value >= 0,
        decreases outputs@.len() - k,
    {
        assert(all[k as int] == outputs@[k as int]@);
        if outputs[k].output.value < 0 {
            return false;
        }
        k += 1;
    }
    true
}

impl UTXOSet {
    /// What the store of the index holds.
    pub open spec fn records(&self) -> Map<Seq<u8>, Seq<u8>> {
        db_entries(self.store)
    }

    /// The unspent outputs that the store holds, by transaction identifier.
    pub open spec fn utxos(&self) -> UtxoMap {
        stored_utxos(self.records())
    }

    /// The index of `blockchain`, kept in `store`: a store of its own, not
    /// that of the chain, and written by nothing else while the index is in
    /// use.
    pub fn new(blockchain: Blockchain, store: sled::Db) -> (set: UTXOSet)
        ensures
            set.blockchain == blockchain,
            set.records() == db_entries(store),
    {
        UTXOSet { blockchain, store }
    }

    /// Reads the whole index out of the store.
    fn load(&self) -> (loaded: Result<UtxoIndex, LedgerError>)
        ensures
            match loaded {
                Ok(index) => index.wf() && lists_utxos(index@, self.records()) && readable(
                    self.records(),
                ),
                Err(e) => e == LedgerError::StorageFailure || (e == LedgerError::EncodingError
                    && !readable(self.records())),
            },
    {
        let items = match db_items(&self.store) {
            Ok(items) => items,
            Err(_) => {
                return Err(LedgerError::StorageFailure);
            },
        };
        let ghost records = self.records();
        let mut index = UtxoIndex::new();
        let mut i: usize = 0;
        while i < items.len()
            invariant
                i <= items@.len(),
                records == self.records(),
                lists_entries(items@, records),
                index@.len() == i,
                forall|j: int|
                    0 <= j < i ==> encode_utf8((#[trigger] index@[j]).txid) == item_key(items@, j),
                forall|j: int|
                    0 <= j < i ==> outputs_decoding(items@[j].1@) == Some(
                        (#[trigger] index@[j]).outputs,
                    ) && index@[j].outputs.len() > 0 && sound_outputs(index@[j].outputs),
            decreases items@.len() - i,
        {
            let ghost before = index@;
            assert(records.contains_key(item_key(items@, i as int)));
            let key = vstd::slice::slice_to_vec(items[i].0.as_slice());
            let txid = match text_from_utf8(key) {
                Some(text) => text,
                None => {
                    return Err(LedgerError::EncodingError);
                },
            };
            let outputs = match decode_outputs(items[i].1.as_slice()) {
                Some(outputs) => outputs,
                None => {
                    return Err(LedgerError::EncodingError);
                },
            };
            if !outputs_are_sound(&outputs) {
                return Err(LedgerError::EncodingError);
            }
            let entry = UtxoEntry { txid, outputs };
            index.entries.push(entry);
            assert(index@ =~= before.push(entry@));
            assert forall|j: int| 0 <= j < i + 1 implies encode_utf8((#[trigger] index@[j]).txid)
                == item_key(items@, j) by {
                if j < i {
                    assert(index@[j] == before[j]);
                }
            }
            assert forall|j: int| 0 <= j < i + 1 implies outputs_decoding(items@[j].1@) == Some(
                (#[trigger] index@[j]).outputs,
            ) && index@[j].outputs.len() > 0 && sound_outputs(index@[j].outputs) by {
                if j < i {
                    assert(index@[j] == before[j]);
                }
            }
            i += 1;
        }
        proof {
            let entries = index@;
            assert(distinct_ids(entries)) by {
                assert forall|a: int, b: int|
                    0 <= a < entries.len() && 0 <= b < entries.len() && a != b implies (
                #[trigger] entries[a]).txid != (#[trigger] entries[b]).txid by {
                    assert(item_key(items@, a) != item_key(items@, b));
                }
            }
            assert(sound_entries(entries));
            assert(in_store_order(entries)) by {
                assert forall|a: int, b: int| 0 <= a < b < entries.len() implies key_before(
                    encode_utf8((#[trigger] entries[a]).txid),
                    encode_utf8((#[trigger] entries[b]).txid),
                ) by {
                    assert(key_before(item_key(items@, a), item_key(items@, b)));
                }
            }
            lemma_index_map(entries);
            assert forall|txid: Seq<char>|
                index_map(entries).contains_key(txid) <==> stored_utxos(records).contains_key(
                    txid,
                ) by {
                if index_map(entries).contains_key(txid) {
                    let p = crate::utxo_index::entry_position(entries, txid);
                    assert(records.contains_key(item_key(items@, p)));
                }
                if records.contains_key(encode_utf8(txid)) {
                    let p = choose|p: int|
                        0 <= p < items@.len() && #[trigger] item_key(items@, p) == encode_utf8(txid);
                    lemma_encoding_tells_texts_apart(entries[p].txid, txid);
                    assert(has_entry(entries, txid));
                }
            }
            assert forall|txid: Seq<char>| index_map(entries).contains_key(txid) implies index_map(
                entries,
            )[txid] == stored_utxos(records)[txid] by {
                let p = crate::utxo_index::entry_position(entries, txid);
                assert(records[item_key(items@, p)] == items@[p].1@);
            }
            assert(index_map(entries) =~= stored_utxos(records));
            assert forall|key: Seq<u8>| #[trigger] records.contains_key(key) implies valid_utf8(key)
                && sound_record(records[key]) by {
                let p = choose|p: int|
                    0 <= p < items@.len() && #[trigger] item_key(items@, p) == key;
                vstd::utf8::encode_utf8_valid_utf8(entries[p].txid);
                assert(records[item_key(items@, p)] == items@[p].1@);
            }
        }
        Ok(index)
    }

    /// Writes `index` into the store in the place of what the store held.
    /// `EncodingError` says that the outputs of some transaction cannot be
    /// encoded, and leaves the store as it was.
    fn save(&mut self, index: &UtxoIndex) -> (done: Result<(), LedgerError>)
        requires
            index.wf(),
        ensures
            final(self).blockchain == old(self).blockchain,
            match done {
                Ok(()) => storable(index.utxos()) && holds_index(
                    final(self).records(),
                    index.utxos(),
                ),
                Err(e) => e == LedgerError::StorageFailure || (e == LedgerError::EncodingError
                    && final(self).records() == old(self).records() && !storable(index.utxos())),
            },
    {
        proof {
            lemma_index_map(index@);
        }
        let ghost entries = index@;
        let mut encoded: Vec<Vec<u8>> = Vec::new();
        let mut i: usize = 0;
        while i < index.entries.len()
            invariant
                i <= index.entries@.len(),
                index.wf(),
                entries == index@,
                self.records() == old(self).records(),
                self.blockchain == old(self).blockchain,
                encoded@.len() == i,
                forall|j: int|
                    0 <= j < i ==> outputs_decoding((#[trigger] encoded@[j])@) == Some(
                        entries[j].outputs,
                    ) && outputs_encoding(entries[j].outputs) == Some(encoded@[j]@),
            decreases index.entries@.len() - i,
        {
            assert(entries[i as int] == index.entries@[i as int]@);
            match encode_outputs(&index.entries[i].outputs) {
                Some(bytes) => {
                    encoded.push(bytes);
                },
                None => {
                    proof {
                        lemma_index_map(entries);
                        assert(index.utxos().contains_key(entries[i as int].txid));
                    }
                    return Err(LedgerError::EncodingError);
                },
            }
            i += 1;
        }
        assert(storable(index.utxos())) by {
            assert forall|txid: Seq<char>| #[trigger]
                index.utxos().contains_key(txid) implies outputs_encoding(index.utxos()[txid])
                is Some by {
                let p = crate::utxo_index::entry_position(entries, txid);
                assert(outputs_decoding(encoded@[p]@) == Some(entries[p].outputs));
            }
        }
        match db_clear(&mut self.store) {
            Ok(()) => {},
            Err(_) => {
                return Err(LedgerError::StorageFailure);
            },
        }
        let mut i: usize = 0;
        assert(entries.subrange(0, 0) =~= Seq::<EntryView>::empty());
        assert(stored_utxos(self.records()) =~= index_map(entries.subrange(0, 0)));
        while i < index.entries.len()
            invariant
                i <= index.entries@.len(),
                index.wf(),
                entries == index@,
                self.blockchain == old(self).blockchain,
                encoded@.len() == index.entries@.len(),
                forall|j: int|
                    0 <= j < encoded@.len() ==> outputs_decoding((#[trigger] encoded@[j])@) == Some(
                        entries[j].outputs,
                    ) && outputs_encoding(entries[j].outputs) == Some(encoded@[j]@),
                stored_utxos(self.records()) == index_map(entries.subrange(0, i as int)),
                readable(self.records()),
                forall|j: int|
                    0 <= j < i ==> self.records().contains_key(
                        encode_utf8((#[trigger] entries[j]).txid),
                    ) && self.records()[encode_utf8(entries[j].txid)] == encoded@[j]@,
            decreases index.entries@.len() - i,
        {
            let ghost before = self.records();
            let ghost prefix = entries.subrange(0, i as int);
            let ghost entry = entries[i as int];
            assert(entry == index.entries@[i as int]@);
            match db_insert(
                &mut self.store,
                index.entries[i].txid.as_str().as_bytes(),
                encoded[i].as_slice(),
            ) {
                Ok(()) => {},
                Err(_) => {
                    return Err(LedgerError::StorageFailure);
                },
            }
            proof {
                let key = encode_utf8(entry.txid);
                let after = self.records();
                assert(after == before.insert(key, encoded@[i as int]@));
                assert(distinct_ids(prefix)) by {
                    assert forall|a: int, b: int|
                        0 <= a < prefix.len() && 0 <= b < prefix.len() && a != b implies (
                    #[trigger] prefix[a]).txid != (#[trigger] prefix[b]).txid by {
                        assert(prefix[a] == entries[a] && prefix[b] == entries[b]);
                    }
                }
                assert(sound_entries(prefix)) by {
                    assert forall|a: int| 0 <= a < prefix.len() implies (
                    #[trigger] prefix[a]).outputs.len() > 0 && sound_outputs(prefix[a].outputs) by {
                        assert(prefix[a] == entries[a]);
                    }
                }
                assert(!has_entry(prefix, entry.txid)) by {
                    if has_entry(prefix, entry.txid) {
                        let a = choose|a: int|
                            0 <= a < prefix.len() && (#[trigger] prefix[a]).txid == entry.txid;
                        assert(prefix[a] == entries[a]);
                        assert(entries[a].txid != entries[i as int].txid);
                    }
                }
                lemma_push_entry(prefix, entry);
                assert(entries.subrange(0, i + 1) =~= prefix.push(entry));
                let wanted = stored_utxos(before).insert(entry.txid, entry.outputs);
                assert forall|txid: Seq<char>|
                    stored_utxos(after).contains_key(txid) <==> wanted.contains_key(txid) by {
                    if encode_utf8(txid) == key {
                        lemma_encoding_tells_texts_apart(txid, entry.txid);
                    }
                }
                assert forall|txid: Seq<char>| stored_utxos(after).contains_key(txid) implies stored_utxos(
                    after,
                )[txid] == wanted[txid] by {
                    if encode_utf8(txid) == key {
                        lemma_encoding_tells_texts_apart(txid, entry.txid);
                    }
                }
                assert(stored_utxos(after) =~= wanted);
                assert forall|k: Seq<u8>| #[trigger] after.contains_key(k) implies valid_utf8(k)
                    && sound_record(after[k]) by {
                    if k == key {
                        vstd::utf8::encode_utf8_valid_utf8(entry.txid);
                    } else {
                        assert(before.contains_key(k));
                    }
                }
                assert forall|j: int| 0 <= j < i + 1 implies after.contains_key(
                    encode_utf8((#[trigger] entries[j]).txid),
                ) && after[encode_utf8(entries[j].txid)] == encoded@[j]@ by {
                    if j < i {
                        assert(before.contains_key(encode_utf8(entries[j].txid)));
                        if encode_utf8(entries[j].txid) == key {
                            lemma_encoding_tells_texts_apart(entries[j].txid, entry.txid);
                            assert(entries[j].txid != entries[i as int].txid);
                        }
                    }
                }
            }
            i += 1;
        }
        assert(entries.subrange(0, i as int) =~= entries);
        assert forall|txid: Seq<char>| #[trigger]
            index.utxos().contains_key(txid) implies outputs_encoding(index.utxos()[txid]) == Some(
            self.records()[encode_utf8(txid)],
        ) by {
            let p = crate::utxo_index::entry_position(entries, txid);
            assert(self.records()[encode_utf8(entries[p].txid)] == encoded@[p]@);
        }
        Ok(())
    }

    /// Rebuilds the index from the whole chain and puts it in the place of
    /// what the store held. An error other than `StorageFailure` leaves the
    /// store as it was: the error of the chain where the chain cannot be
    /// read, `EncodingError` where the outputs of some transaction cannot
    /// be encoded.
    pub fn reindex(&mut self) -> (done: Result<(), LedgerError>)
        ensures
            final(self).blockchain == old(self).blockchain,
            match done {
                Ok(()) => {
                    &&& old(self).blockchain.chain() matches Ok(blocks)
                    &&& storable(chain_utxos(blocks))
                    &&& final(self).utxos() == chain_utxos(blocks)
                    &&& holds_index(final(self).records(), chain_utxos(blocks))
                },
                Err(e) => e == LedgerError::StorageFailure || {
                    &&& final(self).records() == old(self).records()
                    &&& match old(self).blockchain.chain() {
                        Err(broken) => e == broken,
                        Ok(blocks) => e == LedgerError::EncodingError && !storable(
                            chain_utxos(blocks),
                        ),
                    }
                },
            },
    {
        let index = match self.blockchain.find_utxo() {
            Ok(index) => index,
            Err(e) => {
                return Err(e);
            },
        };
        self.save(&index)
    }

    /// Brings the index past `block`: for every transaction in turn, what
    /// its inputs name is spent, unless it is a coinbase, and its outputs
    /// are added. To be called once for each block that joins the chain, in
    /// the order of the chain. `EncodingError` says that the store is not
    /// readable, or that the outputs of some transaction cannot be encoded,
    /// and leaves the store as it was.
    pub fn update(&mut self, block: &Block) -> (done: Result<(), LedgerError>)
        ensures
            final(self).blockchain == old(self).blockchain,
            match done {
                Ok(()) => {
                    &&& readable(old(self).records())
                    &&& storable(apply_txs(old(self).utxos(), block@.transactions))
                    &&& final(self).utxos() == apply_txs(old(self).utxos(), block@.transactions)
                    &&& holds_index(
                        final(self).records(),
                        apply_txs(old(self).utxos(), block@.transactions),
                    )
                },
                Err(e) => e == LedgerError::StorageFailure || {
                    &&& e == LedgerError::EncodingError
                    &&& final(self).records() == old(self).records()
                    &&& !readable(old(self).records()) || !storable(
                        apply_txs(old(self).utxos(), block@.transactions),
                    )
                },
            },
    {
        let mut index = match self.load() {
            Ok(index) => index,
            Err(e) => {
                return Err(e);
            },
        };
        index.apply_all(block.get_transaction());
        self.save(&index)
    }

    /// Gathers outputs locked to `pub_key_hash` for as long as their values
    /// together stay below `amount`, going through the records in the order
    /// of the store. Returns the values together and the
    /// outputs gathered. `EncodingError` says that the store is not
    /// readable.
    pub fn find_spendable_outputs(&self, pub_key_hash: &[u8], amount: i32) -> (found: Result<
        (i64, Vec<SpendableOutput>),
        LedgerError,
    >)
        ensures
            match found {
                Ok(gathered) => {
                    &&& exists|entries: Seq<EntryView>|
                        {
                            &&& #[trigger] lists_utxos(entries, self.records())
                            &&& spendables_view(gathered.1@) == selection(
                                owned(entries, pub_key_hash@),
                                amount as int,
                            )
                            &&& gathered.0 == total_value(spendables_view(gathered.1@))
                        }
                    &&& amount <= owner_total(self.utxos(), pub_key_hash@) ==> gathered.0
                        >= amount
                    &&& amount > owner_total(self.utxos(), pub_key_hash@) ==> gathered.0
                        == owner_total(self.utxos(), pub_key_hash@)
                },
                Err(e) => e == LedgerError::StorageFailure || (e == LedgerError::EncodingError
                    && !readable(self.records())),
            },
    {
        let index = match self.load() {
            Ok(index) => index,
            Err(e) => {
                return Err(e);
            },
        };
        let gathered = index.find_spendable_outputs(pub_key_hash, amount);
        assert(lists_utxos(index@, self.records()));
        Ok(gathered)
    }

    /// The outputs locked to `pub_key_hash`, in the order of the store.
    pub fn find_utxo(&self, pub_key_hash: &[u8]) -> (found: Result<
        Vec<SpendableOutput>,
        LedgerError,
    >)
        ensures
            match found {
                Ok(outputs) => exists|entries: Seq<EntryView>|
                    #[trigger] lists_utxos(entries, self.records()) && spendables_view(outputs@)
                        == owned(entries, pub_key_hash@),
                Err(e) => e == LedgerError::StorageFailure || (e == LedgerError::EncodingError
                    && !readable(self.records())),
            },
    {
        let index = match self.load() {
            Ok(index) => index,
            Err(e) => {
                return Err(e);
            },
        };
        let outputs = index.find_utxo(pub_key_hash);
        assert(lists_utxos(index@, self.records()));
        Ok(outputs)
    }

    /// The values of the outputs locked to `pub_key_hash` together; the
    /// greatest `i64` where they come to more.
    pub fn balance(&self, pub_key_hash: &[u8]) -> (found: Result<i64, LedgerError>)
        ensures
            match found {
                Ok(balance) => readable(self.records()) && balance == capped(
                    owner_total(self.utxos(), pub_key_hash@),
                ),
                Err(e) => e == LedgerError::StorageFailure || (e == LedgerError::EncodingError
                    && !readable(self.records())),
            },
    {
        let index = match self.load() {
            Ok(index) => index,
            Err(e) => {
                return Err(e);
            },
        };
        Ok(index.balance(pub_key_hash))
    }

    /// The number of transactions that have an unspent output.
    pub fn count_transactions(&self) -> (found: Result<usize, LedgerError>)
        ensures
            match found {
                Ok(count) => readable(self.records()) && count == self.utxos().dom().len(),
                Err(e) => e == LedgerError::StorageFailure || (e == LedgerError::EncodingError
                    && !readable(self.records())),
            },
    {
        let index = match self.load() {
            Ok(index) => index,
            Err(e) => {
                return Err(e);
            },
        };
        Ok(index.count_transactions())
    }
}

} // verus!
