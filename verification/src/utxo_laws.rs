use crate::block::{BlockView, HASH_LEN};
use crate::blockchain::{key_of, tip_key, walk, Entries, MAX_STEPS};
use crate::encoding::block_decoding;
use crate::soundness::{lemma_chain_grows, walk_avoids};
use crate::transaction::{is_coinbase_view, TransactionView};
use crate::tx::{TxInputView, TxOutputView};
use crate::spendable::{owned, owned_upto, total_value, SpendableView};
use crate::utxo_index::{
    apply_tx, apply_txs, chain_utxos, created, created_upto, distinct_ids, entry_position,
    has_entry, index_map, lemma_index_map, lemma_remove_entry, sound_entries, spend, spend_all,
    update_matches_rebuild, without, EntryView, UnspentView, UtxoMap, MAX_OUTPUT_POSITION,
};
use vstd::prelude::*;

verus! {

/// Whether the index holds `unspent` for the transaction `txid`.
pub open spec fn holds(utxos: UtxoMap, txid: Seq<char>, unspent: UnspentView) -> bool {
    utxos.contains_key(txid) && utxos[txid].contains(unspent)
}

/// Whether one of `inputs` names output `vout` of the transaction `txid`.
pub open spec fn names(inputs: Seq<TxInputView>, txid: Seq<char>, vout: i32) -> bool {
    exists|k: int|
        0 <= k < inputs.len() && (#[trigger] inputs[k]).txid == txid && inputs[k].vout == vout
}

/// Whether `tx` spends output `vout` of the transaction `txid`: a coinbase
/// spends nothing.
pub open spec fn spends(tx: TransactionView, txid: Seq<char>, vout: i32) -> bool {
    !is_coinbase_view(tx) && names(tx.vin, txid, vout)
}

/// The position of the last transaction of `txs` with the identifier
/// `txid`; -1 where there is none.
pub open spec fn last_with_id(txs: Seq<TransactionView>, txid: Seq<char>) -> int
    decreases txs.len(),
{
    if txs.len() == 0 {
        -1
    } else if txs.last().id == txid {
        txs.len() - 1
    } else {
        last_with_id(txs.drop_last(), txid)
    }
}

/// Whether a transaction behind position `from` spends output `vout` of
/// the transaction `txid`.
pub open spec fn spent_after(txs: Seq<TransactionView>, from: int, txid: Seq<char>, vout: i32)
    -> bool {
    exists|j: int| from < j < txs.len() && spends(#[trigger] txs[j], txid, vout)
}

/// Whether `unspent` is an output of the transaction `txid` that the
/// history `txs` leaves unspent: the last transaction with that identifier
/// made it, and no transaction behind that one spends it.
pub open spec fn unspent_in(txs: Seq<TransactionView>, txid: Seq<char>, unspent: UnspentView)
    -> bool {
    let made_at = last_with_id(txs, txid);
    &&& made_at >= 0
    &&& created(txs[made_at]).contains(unspent)
    &&& !spent_after(txs, made_at, txid, unspent.vout)
}

/// The transactions of a chain from its first block to its tip, where the
/// chain is given from its tip to its first block.
pub open spec fn history(chain: Seq<BlockView>) -> Seq<TransactionView>
    decreases chain.len(),
{
    if chain.len() == 0 {
        Seq::empty()
    } else {
        history(chain.drop_first()) + chain.first().transactions
    }
}

/// A sequence with one more element holds what it held, and that element.
pub proof fn lemma_push_contains<A>(s: Seq<A>, last: A, x: A)
    ensures
        s.push(last).contains(x) <==> s.contains(x) || last == x,
{
    if s.push(last).contains(x) {
        let i = choose|i: int| 0 <= i < s.push(last).len() && s.push(last)[i] == x;
        if i < s.len() {
            assert(s[i] == x);
        }
    }
    if s.contains(x) {
        let i = choose|i: int| 0 <= i < s.len() && s[i] == x;
        assert(s.push(last)[i] == x);
    }
    if last == x {
        assert(s.push(last)[s.len() as int] == x);
    }
}

/// `without` keeps the outputs at other positions, and only those.
pub proof fn lemma_without_contains(outputs: Seq<UnspentView>, vout: i32, x: UnspentView)
    ensures
        without(outputs, vout).contains(x) <==> outputs.contains(x) && x.vout != vout,
    decreases outputs.len(),
{
    if outputs.len() > 0 {
        let front = outputs.drop_last();
        lemma_without_contains(front, vout, x);
        assert(front.push(outputs.last()) =~= outputs);
        lemma_push_contains(front, outputs.last(), x);
        if outputs.last().vout != vout {
            lemma_push_contains(without(front, vout), outputs.last(), x);
        }
    }
}

/// What a transaction makes: its outputs of a value of 0 or more, each at
/// its position.
pub proof fn lemma_created_contains(outputs: Seq<TxOutputView>, n: int, x: UnspentView)
    requires
        0 <= n <= outputs.len(),
    ensures
        created_upto(outputs, n).contains(x) <==> 0 <= x.vout < n && outputs[x.vout as int].value
            >= 0 && x.output == outputs[x.vout as int],
    decreases n,
{
    if n > 0 {
        lemma_created_contains(outputs, n - 1, x);
        if outputs[n - 1].value >= 0 && n - 1 <= MAX_OUTPUT_POSITION {
            lemma_push_contains(
                created_upto(outputs, n - 1),
                UnspentView { vout: (n - 1) as i32, output: outputs[n - 1] },
                x,
            );
        }
    }
}

/// Spending one output takes that output out of the index, and no other.
pub proof fn lemma_spend_holds(
    utxos: UtxoMap,
    spent_txid: Seq<char>,
    spent_vout: i32,
    txid: Seq<char>,
    x: UnspentView,
)
    ensures
        holds(spend(utxos, spent_txid, spent_vout), txid, x) <==> holds(utxos, txid, x) && !(
        spent_txid == txid && spent_vout == x.vout),
{
    if utxos.contains_key(spent_txid) {
        lemma_without_contains(utxos[spent_txid], spent_vout, x);
    }
}

/// Spending the outputs that the inputs name takes those out of the index,
/// and no others.
pub proof fn lemma_spend_all_holds(
    utxos: UtxoMap,
    inputs: Seq<TxInputView>,
    txid: Seq<char>,
    x: UnspentView,
)
    ensures
        holds(spend_all(utxos, inputs), txid, x) <==> holds(utxos, txid, x) && !names(
            inputs,
            txid,
            x.vout,
        ),
    decreases inputs.len(),
{
    if inputs.len() > 0 {
        let front = inputs.drop_last();
        let last = inputs.last();
        lemma_spend_all_holds(utxos, front, txid, x);
        lemma_spend_holds(spend_all(utxos, front), last.txid, last.vout, txid, x);
        if names(front, txid, x.vout) {
            let k = choose|k: int|
                0 <= k < front.len() && (#[trigger] front[k]).txid == txid && front[k].vout
                    == x.vout;
            assert(inputs[k] == front[k]);
        }
        if names(inputs, txid, x.vout) {
            let k = choose|k: int|
                0 <= k < inputs.len() && (#[trigger] inputs[k]).txid == txid && inputs[k].vout
                    == x.vout;
            if k < front.len() {
                assert(front[k] == inputs[k]);
            }
        }
    }
}

/// Past a transaction the index holds, for the identifier of that
/// transaction, what the transaction makes; for another identifier, what
/// it held and the transaction does not spend.
pub proof fn lemma_apply_tx_holds(
    utxos: UtxoMap,
    tx: TransactionView,
    txid: Seq<char>,
    x: UnspentView,
)
    ensures
        holds(apply_tx(utxos, tx), txid, x) <==> if txid == tx.id {
            created(tx).contains(x)
        } else {
            holds(utxos, txid, x) && !spends(tx, txid, x.vout)
        },
{
    if !is_coinbase_view(tx) {
        lemma_spend_all_holds(utxos, tx.vin, txid, x);
    }
    if created(tx).len() == 0 && created(tx).contains(x) {
        let i = choose|i: int| 0 <= i < created(tx).len() && created(tx)[i] == x;
    }
}

/// The last transaction with an identifier, in a history with one more
/// transaction.
pub proof fn lemma_last_with_id(txs: Seq<TransactionView>, txid: Seq<char>)
    ensures
        -1 <= last_with_id(txs, txid) < txs.len(),
        last_with_id(txs, txid) >= 0 ==> txs[last_with_id(txs, txid)].id == txid,
    decreases txs.len(),
{
    if txs.len() > 0 && txs.last().id != txid {
        lemma_last_with_id(txs.drop_last(), txid);
    }
}

/// The index that a history leaves holds exactly the outputs that the
/// history leaves unspent: for each identifier those that the last
/// transaction with that identifier made, a value of 0 or more each, less
/// those that a later transaction other than a coinbase names in an input.
pub proof fn index_holds_the_unspent_outputs(
    txs: Seq<TransactionView>,
    txid: Seq<char>,
    x: UnspentView,
)
    ensures
        holds(apply_txs(Map::empty(), txs), txid, x) <==> unspent_in(txs, txid, x),
    decreases txs.len(),
{
    if txs.len() > 0 {
        let front = txs.drop_last();
        let tx = txs.last();
        index_holds_the_unspent_outputs(front, txid, x);
        lemma_apply_tx_holds(apply_txs(Map::empty(), front), tx, txid, x);
        lemma_last_with_id(front, txid);
        if txid != tx.id {
            let made_at = last_with_id(front, txid);
            if made_at >= 0 {
                assert(txs[made_at] == front[made_at]);
                if spent_after(front, made_at, txid, x.vout) {
                    let j = choose|j: int|
                        made_at < j < front.len() && spends(#[trigger] front[j], txid, x.vout);
                    assert(txs[j] == front[j]);
                }
                if spent_after(txs, made_at, txid, x.vout) {
                    let j = choose|j: int|
                        made_at < j < txs.len() && spends(#[trigger] txs[j], txid, x.vout);
                    if j < front.len() {
                        assert(front[j] == txs[j]);
                    }
                }
                if spends(tx, txid, x.vout) {
                    assert(spends(txs[txs.len() - 1], txid, x.vout));
                }
            }
        }
    }
}

/// Bringing an index past one list of transactions and then another is
/// bringing it past both in a row.
pub proof fn lemma_apply_in_a_row(
    utxos: UtxoMap,
    first: Seq<TransactionView>,
    second: Seq<TransactionView>,
)
    ensures
        apply_txs(utxos, first + second) == apply_txs(apply_txs(utxos, first), second),
    decreases second.len(),
{
    if second.len() == 0 {
        assert(first + second =~= first);
    } else {
        lemma_apply_in_a_row(utxos, first, second.drop_last());
        assert((first + second).drop_last() =~= first + second.drop_last());
        assert((first + second).last() == second.last());
    }
}

/// The index of a chain is the index that the history of the chain leaves.
pub proof fn lemma_chain_utxos_follow_history(chain: Seq<BlockView>)
    ensures
        chain_utxos(chain) == apply_txs(Map::empty(), history(chain)),
    decreases chain.len(),
{
    if chain.len() > 0 {
        lemma_chain_utxos_follow_history(chain.drop_first());
        lemma_apply_in_a_row(
            Map::empty(),
            history(chain.drop_first()),
            chain.first().transactions,
        );
    }
}

/// The index of a chain holds exactly the outputs that the chain leaves
/// unspent: whether it is rebuilt from the whole chain or brought forward
/// block by block.
pub proof fn chain_index_holds_the_unspent_outputs(
    chain: Seq<BlockView>,
    txid: Seq<char>,
    x: UnspentView,
)
    ensures
        holds(chain_utxos(chain), txid, x) <==> unspent_in(history(chain), txid, x),
{
    lemma_chain_utxos_follow_history(chain);
    index_holds_the_unspent_outputs(history(chain), txid, x);
}

/// Rebuilding the index after a block was mined gives what bringing the
/// index from before past that block gives: where the new block, which
/// names `prev` as the block before it, is put into the store under a hash
/// that the walk from `prev` does not look under, and the tip pointer is
/// set to it.
pub proof fn rebuild_after_mining_matches_update(
    entries: Entries,
    prev: Seq<char>,
    block: BlockView,
    value: Seq<u8>,
)
    requires
        walk_avoids(entries, prev, (MAX_STEPS - 1) as nat, key_of(block.hash)),
        block.prev_block_hash == prev,
        block.hash.len() == HASH_LEN,
        block_decoding(value) == Some(block),
    ensures
        walk(entries, prev, MAX_STEPS as nat) matches Ok(before) && walk(
            entries.insert(key_of(block.hash), value).insert(tip_key(), key_of(block.hash)),
            block.hash,
            MAX_STEPS as nat,
        ) matches Ok(after) && chain_utxos(after) == apply_txs(
            chain_utxos(before),
            block.transactions,
        ),
{
    lemma_chain_grows(entries, prev, block, value);
    update_matches_rebuild(walk(entries, prev, MAX_STEPS as nat)->Ok_0, block);
}

/// `entries` lists the index `utxos`: one entry for each transaction, none
/// without an output, no output of a value below 0.
pub open spec fn lists(entries: Seq<EntryView>, utxos: UtxoMap) -> bool {
    distinct_ids(entries) && sound_entries(entries) && index_map(entries) == utxos
}

/// A listing of the index `utxos`, where it has one.
pub open spec fn listing_of(utxos: UtxoMap) -> Seq<EntryView> {
    choose|entries: Seq<EntryView>| lists(entries, utxos)
}

/// What the outputs locked to `pub_key_hash` are worth together in the
/// index `utxos`.
pub open spec fn owner_total(utxos: UtxoMap, pub_key_hash: Seq<u8>) -> int {
    total_value(owned(listing_of(utxos), pub_key_hash))
}

/// What the outputs of one entry that are locked to `pub_key_hash` are
/// worth together.
pub open spec fn entry_total(entry: EntryView, pub_key_hash: Seq<u8>) -> int {
    total_value(owned_upto(entry, pub_key_hash, entry.outputs.len() as int))
}

/// Two lists of outputs in a row are worth what the two are worth.
pub proof fn lemma_total_of_two(first: Seq<SpendableView>, second: Seq<SpendableView>)
    ensures
        total_value(first + second) == total_value(first) + total_value(second),
    decreases second.len(),
{
    if second.len() == 0 {
        assert(first + second =~= first);
    } else {
        lemma_total_of_two(first, second.drop_last());
        assert((first + second).drop_last() =~= first + second.drop_last());
        assert((first + second).last() == second.last());
    }
}

/// The entries are worth what they are worth without one entry, and that
/// entry.
pub proof fn lemma_total_without_entry(entries: Seq<EntryView>, p: int, pub_key_hash: Seq<u8>)
    requires
        0 <= p < entries.len(),
    ensures
        total_value(owned(entries, pub_key_hash)) == total_value(
            owned(entries.remove(p), pub_key_hash),
        ) + entry_total(entries[p], pub_key_hash),
    decreases entries.len(),
{
    let front = entries.drop_last();
    let last = entries.last();
    lemma_total_of_two(
        owned(front, pub_key_hash),
        owned_upto(last, pub_key_hash, last.outputs.len() as int),
    );
    if p == entries.len() - 1 {
        assert(entries.remove(p) =~= front);
    } else {
        lemma_total_without_entry(front, p, pub_key_hash);
        let rest = entries.remove(p);
        assert(rest.drop_last() =~= front.remove(p));
        assert(rest.last() == last);
        lemma_total_of_two(
            owned(rest.drop_last(), pub_key_hash),
            owned_upto(last, pub_key_hash, last.outputs.len() as int),
        );
    }
}

/// Two listings of one index give an owner the same total, whatever the
/// order of their entries.
pub proof fn lemma_listings_agree(
    first: Seq<EntryView>,
    second: Seq<EntryView>,
    pub_key_hash: Seq<u8>,
)
    requires
        distinct_ids(first),
        sound_entries(first),
        distinct_ids(second),
        sound_entries(second),
        index_map(first) == index_map(second),
    ensures
        total_value(owned(first, pub_key_hash)) == total_value(owned(second, pub_key_hash)),
        first.len() == second.len(),
    decreases first.len(),
{
    lemma_index_map(first);
    lemma_index_map(second);
    if first.len() == 0 {
        if second.len() > 0 {
            assert(index_map(second).contains_key(second[0].txid));
            assert(has_entry(first, second[0].txid));
        }
    } else {
        let last = first.last();
        let at = first.len() - 1;
        assert(index_map(first).contains_key(first[at].txid));
        let p = entry_position(second, last.txid);
        assert(second[p].outputs == last.outputs);
        assert(second[p] == last);
        lemma_remove_entry(first, at);
        lemma_remove_entry(second, p);
        assert(first.remove(at) =~= first.drop_last());
        lemma_listings_agree(first.drop_last(), second.remove(p), pub_key_hash);
        lemma_total_without_entry(first, at, pub_key_hash);
        lemma_total_without_entry(second, p, pub_key_hash);
    }
}

/// A listing has one entry for each transaction that the index knows.
pub proof fn lemma_index_size(entries: Seq<EntryView>)
    requires
        distinct_ids(entries),
        sound_entries(entries),
    ensures
        index_map(entries).dom().finite(),
        index_map(entries).dom().len() == entries.len(),
    decreases entries.len(),
{
    lemma_index_map(entries);
    if entries.len() == 0 {
        assert(index_map(entries).dom() =~= Set::<Seq<char>>::empty());
    } else {
        let at = entries.len() - 1;
        let last = entries.last();
        lemma_remove_entry(entries, at);
        assert(entries.remove(at) =~= entries.drop_last());
        lemma_index_size(entries.drop_last());
        assert(index_map(entries).contains_key(entries[at].txid));
        assert(index_map(entries).dom() =~= index_map(entries.drop_last()).dom().insert(last.txid));
    }
}

/// The total of an owner is the same in every listing of the index.
pub proof fn lemma_owner_total(entries: Seq<EntryView>, pub_key_hash: Seq<u8>)
    requires
        distinct_ids(entries),
        sound_entries(entries),
    ensures
        owner_total(index_map(entries), pub_key_hash) == total_value(owned(entries, pub_key_hash)),
{
    assert(lists(entries, index_map(entries)));
    lemma_listings_agree(listing_of(index_map(entries)), entries, pub_key_hash);
}

} // verus!
