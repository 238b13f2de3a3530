use crate::block::{blocks_view, Block, BlockView};
use crate::transaction::{
    inputs_view, is_coinbase_view, transactions_view, Transaction, TransactionView,
};
use crate::tx::{TXInput, TXOutput, TxInputView, TxOutputView};
use crate::utxo_laws::lemma_index_size;
use vstd::prelude::*;

verus! {

/// The highest position at which an input can name an output.
pub const MAX_OUTPUT_POSITION: usize = 0x7fff_ffff;

/// An output that no input has spent yet, with its position in the
/// transaction that made it.
#[derive(Debug, PartialEq, Eq)]
pub struct Unspent {
    pub vout: i32,
    pub output: TXOutput,
}

/// The unspent outputs of one transaction.
#[derive(Debug, PartialEq, Eq)]
pub struct UtxoEntry {
    pub txid: String,
    pub outputs: Vec<Unspent>,
}

/// What an unspent output is, as mathematics.
pub struct UnspentView {
    pub vout: i32,
    pub output: TxOutputView,
}

/// What an entry is, as mathematics.
pub struct EntryView {
    pub txid: Seq<char>,
    pub outputs: Seq<UnspentView>,
}

/// The unspent outputs of every transaction that has some, by transaction
/// identifier.
pub type UtxoMap = Map<Seq<char>, Seq<UnspentView>>;

impl View for Unspent {
    type V = UnspentView;

    open spec fn view(&self) -> UnspentView {
        UnspentView { vout: self.vout, output: self.output@ }
    }
}

/// The unspent outputs of a vector, each by its view.
pub open spec fn unspents_view(outputs: Seq<Unspent>) -> Seq<UnspentView> {
    outputs.map_values(|unspent: Unspent| unspent@)
}

impl View for UtxoEntry {
    type V = EntryView;

    open spec fn view(&self) -> EntryView {
        EntryView { txid: self.txid@, outputs: unspents_view(self.outputs@) }
    }
}

/// The entries of a vector, each by its view.
pub open spec fn entries_view(entries: Seq<UtxoEntry>) -> Seq<EntryView> {
    entries.map_values(|entry: UtxoEntry| entry@)
}

/// Whether some entry is kept for `txid`.
pub open spec fn has_entry(entries: Seq<EntryView>, txid: Seq<char>) -> bool {
    exists|i: int| 0 <= i < entries.len() && (#[trigger] entries[i]).txid == txid
}

/// The position of an entry that is kept for `txid`.
pub open spec fn entry_position(entries: Seq<EntryView>, txid: Seq<char>) -> int {
    choose|i: int| 0 <= i < entries.len() && (#[trigger] entries[i]).txid == txid
}

/// The entries as a map from transaction identifier to unspent outputs.
pub open spec fn index_map(entries: Seq<EntryView>) -> UtxoMap {
    Map::new(
        |txid: Seq<char>| has_entry(entries, txid),
        |txid: Seq<char>| entries[entry_position(entries, txid)].outputs,
    )
}

/// No two entries are kept for the same transaction.
pub open spec fn distinct_ids(entries: Seq<EntryView>) -> bool {
    forall|i: int, j: int|
        0 <= i < entries.len() && 0 <= j < entries.len() && i != j ==> (#[trigger] entries[i]).txid
            != (#[trigger] entries[j]).txid
}

/// Every entry holds an output, and every output has a value of 0 or more.
pub open spec fn sound_entries(entries: Seq<EntryView>) -> bool {
    forall|i: int|
        0 <= i < entries.len() ==> (#[trigger] entries[i]).outputs.len() > 0 && sound_outputs(
            entries[i].outputs,
        )
}

/// Every output has a value of 0 or more.
pub open spec fn sound_outputs(outputs: Seq<UnspentView>) -> bool {
    forall|k: int| 0 <= k < outputs.len() ==> (#[trigger] outputs[k]).output.value >= 0
}

/// The outputs but those at position `vout`.
pub open spec fn without(outputs: Seq<UnspentView>, vout: i32) -> Seq<UnspentView>
    decreases outputs.len(),
{
    if outputs.len() == 0 {
        outputs
    } else if outputs.last().vout == vout {
        without(outputs.drop_last(), vout)
    } else {
        without(outputs.drop_last(), vout).push(outputs.last())
    }
}

/// The unspent outputs after output `vout` of transaction `txid` is spent:
/// it leaves the entry of that transaction, and an entry left empty goes.
pub open spec fn spend(utxos: UtxoMap, txid: Seq<char>, vout: i32) -> UtxoMap {
    if utxos.contains_key(txid) {
        let rest = without(utxos[txid], vout);
        if rest.len() == 0 {
            utxos.remove(txid)
        } else {
            utxos.insert(txid, rest)
        }
    } else {
        utxos
    }
}

/// The unspent outputs after every output that `inputs` name is spent, in
/// the order of the inputs.
pub open spec fn spend_all(utxos: UtxoMap, inputs: Seq<TxInputView>) -> UtxoMap
    decreases inputs.len(),
{
    if inputs.len() == 0 {
        utxos
    } else {
        spend(spend_all(utxos, inputs.drop_last()), inputs.last().txid, inputs.last().vout)
    }
}

/// The first `n` outputs that can be spent at all: those of value 0 or more,
/// at a position that an input can name.
pub open spec fn created_upto(outputs: Seq<TxOutputView>, n: int) -> Seq<UnspentView>
    decreases n,
{
    if n <= 0 {
        Seq::empty()
    } else if outputs[n - 1].value >= 0 && n - 1 <= MAX_OUTPUT_POSITION {
        created_upto(outputs, n - 1).push(
            UnspentView { vout: (n - 1) as i32, output: outputs[n - 1] },
        )
    } else {
        created_upto(outputs, n - 1)
    }
}

/// The outputs of a transaction that can be spent at all.
pub open spec fn created(tx: TransactionView) -> Seq<UnspentView> {
    created_upto(tx.vout, tx.vout.len() as int)
}

/// The unspent outputs after the outputs of `tx` are added: they take the
/// place of whatever was kept under the identifier of `tx`.
pub open spec fn add_created(utxos: UtxoMap, tx: TransactionView) -> UtxoMap {
    if created(tx).len() == 0 {
        utxos.remove(tx.id)
    } else {
        utxos.insert(tx.id, created(tx))
    }
}

/// The unspent outputs after `tx`: what its inputs name is spent, unless it
/// is a coinbase, and then its outputs are added.
pub open spec fn apply_tx(utxos: UtxoMap, tx: TransactionView) -> UtxoMap {
    add_created(
        if is_coinbase_view(tx) {
            utxos
        } else {
            spend_all(utxos, tx.vin)
        },
        tx,
    )
}

/// The unspent outputs after every transaction of `txs`, in order.
pub open spec fn apply_txs(utxos: UtxoMap, txs: Seq<TransactionView>) -> UtxoMap
    decreases txs.len(),
{
    if txs.len() == 0 {
        utxos
    } else {
        apply_tx(apply_txs(utxos, txs.drop_last()), txs.last())
    }
}

/// The unspent outputs of a chain that is given from its tip to its first
/// block: those of the blocks before the tip, brought past the transactions
/// of the tip.
pub open spec fn chain_utxos(chain: Seq<BlockView>) -> UtxoMap
    decreases chain.len(),
{
    if chain.len() == 0 {
        Map::empty()
    } else {
        apply_txs(chain_utxos(chain.drop_first()), chain.first().transactions)
    }
}

/// Bringing the index of a chain past a new block gives the index that a
/// rebuild gives for the chain with that block as its new tip.
pub proof fn update_matches_rebuild(chain: Seq<BlockView>, block: BlockView)
    ensures
        chain_utxos(seq![block] + chain) == apply_txs(chain_utxos(chain), block.transactions),
{
    assert((seq![block] + chain).drop_first() =~= chain);
}

/// With distinct identifiers, the map holds each entry under its own
/// identifier, and nothing else.
pub proof fn lemma_index_map(entries: Seq<EntryView>)
    requires
        distinct_ids(entries),
    ensures
        forall|i: int|
            0 <= i < entries.len() ==> index_map(entries).contains_key(
                (#[trigger] entries[i]).txid,
            ) && index_map(entries)[entries[i].txid] == entries[i].outputs,
        forall|txid: Seq<char>| #[trigger]
            index_map(entries).contains_key(txid) ==> 0 <= entry_position(entries, txid)
                < entries.len() && entries[entry_position(entries, txid)].txid == txid,
{
    assert forall|i: int| 0 <= i < entries.len() implies index_map(entries).contains_key(
        (#[trigger] entries[i]).txid,
    ) && index_map(entries)[entries[i].txid] == entries[i].outputs by {
        let txid = entries[i].txid;
        assert(has_entry(entries, txid));
        let p = entry_position(entries, txid);
        assert(0 <= p < entries.len() && entries[p].txid == txid);
        assert(p == i);
    }
}

/// What `without` keeps was there before.
pub proof fn lemma_without_sound(outputs: Seq<UnspentView>, vout: i32)
    requires
        sound_outputs(outputs),
    ensures
        sound_outputs(without(outputs, vout)),
    decreases outputs.len(),
{
    if outputs.len() > 0 {
        lemma_without_sound(outputs.drop_last(), vout);
        assert(outputs.last().output.value >= 0);
        assert forall|k: int| 0 <= k < outputs.drop_last().len() implies (
        #[trigger] outputs.drop_last()[k]).output.value >= 0 by {
            assert(outputs.drop_last()[k] == outputs[k]);
        }
    }
}

/// What `created_upto` gives has values of 0 or more.
pub proof fn lemma_created_sound(outputs: Seq<TxOutputView>, n: int)
    requires
        n <= outputs.len(),
    ensures
        sound_outputs(created_upto(outputs, n)),
    decreases n,
{
    if n > 0 {
        lemma_created_sound(outputs, n - 1);
    }
}

/// Taking an entry out takes its identifier out of the map.
pub proof fn lemma_remove_entry(entries: Seq<EntryView>, e: int)
    requires
        distinct_ids(entries),
        sound_entries(entries),
        0 <= e < entries.len(),
    ensures
        distinct_ids(entries.remove(e)),
        sound_entries(entries.remove(e)),
        index_map(entries.remove(e)) == index_map(entries).remove(entries[e].txid),
{
    let after = entries.remove(e);
    assert forall|i: int| 0 <= i < after.len() implies #[trigger] after[i] == entries[if i < e {
        i
    } else {
        i + 1
    }] by {}
    assert(distinct_ids(after)) by {
        assert forall|i: int, j: int|
            0 <= i < after.len() && 0 <= j < after.len() && i != j implies (#[trigger] after[i]).txid
            != (#[trigger] after[j]).txid by {
            let oi = if i < e { i } else { i + 1 };
            let oj = if j < e { j } else { j + 1 };
            assert(after[i] == entries[oi] && after[j] == entries[oj]);
        }
    }
    assert(sound_entries(after)) by {
        assert forall|i: int| 0 <= i < after.len() implies (#[trigger] after[i]).outputs.len() > 0
            && sound_outputs(after[i].outputs) by {
            let oi = if i < e { i } else { i + 1 };
            assert(after[i] == entries[oi]);
        }
    }
    lemma_index_map(entries);
    lemma_index_map(after);
    let wanted = index_map(entries).remove(entries[e].txid);
    assert forall|txid: Seq<char>| index_map(after).contains_key(txid) <==> wanted.contains_key(
        txid,
    ) by {
        if index_map(after).contains_key(txid) {
            let p = entry_position(after, txid);
            let op = if p < e { p } else { p + 1 };
            assert(after[p] == entries[op]);
            assert(entries[op].txid == txid);
        }
        if wanted.contains_key(txid) {
            let p = entry_position(entries, txid);
            assert(p != e);
            let np = if p < e { p } else { p - 1 };
            assert(after[np] == entries[p]);
            assert(after[np].txid == txid);
        }
    }
    assert forall|txid: Seq<char>| index_map(after).contains_key(txid) implies index_map(after)[txid]
        == wanted[txid] by {
        let p = entry_position(after, txid);
        let op = if p < e { p } else { p + 1 };
        assert(after[p] == entries[op]);
        assert(entries[op].txid == txid);
    }
    assert(index_map(after) =~= wanted);
}

/// Giving an entry other outputs puts them under its identifier in the map.
pub proof fn lemma_update_entry(entries: Seq<EntryView>, e: int, outputs: Seq<UnspentView>)
    requires
        distinct_ids(entries),
        sound_entries(entries),
        0 <= e < entries.len(),
        outputs.len() > 0,
        sound_outputs(outputs),
    ensures
        distinct_ids(entries.update(e, EntryView { txid: entries[e].txid, outputs })),
        sound_entries(entries.update(e, EntryView { txid: entries[e].txid, outputs })),
        index_map(entries.update(e, EntryView { txid: entries[e].txid, outputs })) == index_map(
            entries,
        ).insert(entries[e].txid, outputs),
{
    let after = entries.update(e, EntryView { txid: entries[e].txid, outputs });
    assert forall|i: int| 0 <= i < after.len() implies (#[trigger] after[i]).txid
        == entries[i].txid by {}
    assert(distinct_ids(after)) by {
        assert forall|i: int, j: int|
            0 <= i < after.len() && 0 <= j < after.len() && i != j implies (#[trigger] after[i]).txid
            != (#[trigger] after[j]).txid by {
            assert(entries[i].txid != entries[j].txid);
        }
    }
    assert(sound_entries(after)) by {
        assert forall|i: int| 0 <= i < after.len() implies (#[trigger] after[i]).outputs.len() > 0
            && sound_outputs(after[i].outputs) by {
            if i != e {
                assert(after[i] == entries[i]);
            }
        }
    }
    lemma_index_map(entries);
    lemma_index_map(after);
    let wanted = index_map(entries).insert(entries[e].txid, outputs);
    assert forall|txid: Seq<char>| index_map(after).contains_key(txid) <==> wanted.contains_key(
        txid,
    ) by {
        if index_map(after).contains_key(txid) {
            let p = entry_position(after, txid);
            assert(entries[p].txid == txid);
        }
        if wanted.contains_key(txid) && txid != entries[e].txid {
            let p = entry_position(entries, txid);
            assert(after[p].txid == txid);
        }
        if txid == entries[e].txid {
            assert(after[e].txid == txid);
        }
    }
    assert forall|txid: Seq<char>| index_map(after).contains_key(txid) implies index_map(after)[txid]
        == wanted[txid] by {
        let p = entry_position(after, txid);
        assert(entries[p].txid == txid);
        if p != e {
            assert(after[p] == entries[p]);
        }
    }
    assert(index_map(after) =~= wanted);
}

/// Adding an entry for a transaction that has none puts it into the map.
pub proof fn lemma_push_entry(entries: Seq<EntryView>, entry: EntryView)
    requires
        distinct_ids(entries),
        sound_entries(entries),
        !has_entry(entries, entry.txid),
        entry.outputs.len() > 0,
        sound_outputs(entry.outputs),
    ensures
        distinct_ids(entries.push(entry)),
        sound_entries(entries.push(entry)),
        index_map(entries.push(entry)) == index_map(entries).insert(entry.txid, entry.outputs),
{
    let after = entries.push(entry);
    assert forall|i: int| 0 <= i < entries.len() implies #[trigger] after[i] == entries[i] by {}
    assert(distinct_ids(after)) by {
        assert forall|i: int, j: int|
            0 <= i < after.len() && 0 <= j < after.len() && i != j implies (#[trigger] after[i]).txid
            != (#[trigger] after[j]).txid by {
            if i < entries.len() && j < entries.len() {
                assert(after[i] == entries[i] && after[j] == entries[j]);
            } else if i < entries.len() {
                assert(after[i] == entries[i]);
            } else {
                assert(after[j] == entries[j]);
            }
        }
    }
    assert(sound_entries(after)) by {
        assert forall|i: int| 0 <= i < after.len() implies (#[trigger] after[i]).outputs.len() > 0
            && sound_outputs(after[i].outputs) by {
            if i < entries.len() {
                assert(after[i] == entries[i]);
            }
        }
    }
    lemma_index_map(entries);
    lemma_index_map(after);
    let wanted = index_map(entries).insert(entry.txid, entry.outputs);
    let last = entries.len() as int;
    assert(after[last] == entry);
    assert forall|txid: Seq<char>| index_map(after).contains_key(txid) <==> wanted.contains_key(
        txid,
    ) by {
        if index_map(after).contains_key(txid) {
            let p = entry_position(after, txid);
            if p < entries.len() {
                assert(entries[p].txid == txid);
            }
        }
        if wanted.contains_key(txid) && txid != entry.txid {
            let p = entry_position(entries, txid);
            assert(after[p].txid == txid);
        }
    }
    assert forall|txid: Seq<char>| index_map(after).contains_key(txid) implies index_map(after)[txid]
        == wanted[txid] by {
        let p = entry_position(after, txid);
        if p < entries.len() {
            assert(after[p] == entries[p]);
            assert(entries[p].txid == txid);
        }
    }
    assert(index_map(after) =~= wanted);
}

impl Clone for Unspent {
    fn clone(&self) -> (copy: Self)
        ensures
            copy@ == self@,
    {
        Unspent { vout: self.vout, output: self.output.clone() }
    }
}

/// The outputs of `outputs` but those at position `vout`.
pub fn outputs_without(outputs: &Vec<Unspent>, vout: i32) -> (kept: Vec<Unspent>)
    ensures
        unspents_view(kept@) == without(unspents_view(outputs@), vout),
{
    let ghost all = unspents_view(outputs@);
    let mut kept: Vec<Unspent> = Vec::new();
    let mut i: usize = 0;
    assert(unspents_view(kept@) =~= without(all.subrange(0, 0), vout));
    while i < outputs.len()
        invariant
            i <= outputs@.len(),
            all == unspents_view(outputs@),
            unspents_view(kept@) == without(all.subrange(0, i as int), vout),
        decreases outputs@.len() - i,
    {
        let ghost before = unspents_view(kept@);
        assert(all.subrange(0, i + 1).drop_last() =~= all.subrange(0, i as int));
        assert(all.subrange(0, i + 1).last() == outputs@[i as int]@);
        if outputs[i].vout != vout {
            kept.push(outputs[i].clone());
            assert(unspents_view(kept@) =~= before.push(outputs@[i as int]@));
        }
        i += 1;
    }
    assert(all.subrange(0, i as int) =~= all);
    kept
}

/// The outputs of `tx` that can be spent at all, each with its position.
pub fn created_outputs(tx: &Transaction) -> (made: Vec<Unspent>)
    ensures
        unspents_view(made@) == created(tx@),
{
    let mut made: Vec<Unspent> = Vec::new();
    let mut i: usize = 0;
    assert(unspents_view(made@) =~= created_upto(tx@.vout, 0));
    while i < tx.vout.len()
        invariant
            i <= tx.vout@.len(),
            unspents_view(made@) == created_upto(tx@.vout, i as int),
        decreases tx.vout@.len() - i,
    {
        let ghost before = unspents_view(made@);
        assert(tx@.vout[i as int] == tx.vout@[i as int]@);
        if tx.vout[i].value >= 0 && i <= MAX_OUTPUT_POSITION {
            let unspent = Unspent { vout: i as i32, output: tx.vout[i].clone() };
            made.push(unspent);
            assert(unspents_view(made@) =~= before.push(
                UnspentView { vout: i as i32, output: tx@.vout[i as int] },
            ));
        }
        i += 1;
    }
    made
}

/// The unspent outputs of a chain, one entry for each transaction that has
/// some.
#[derive(Debug, PartialEq, Eq)]
pub struct UtxoIndex {
    pub entries: Vec<UtxoEntry>,
}

impl View for UtxoIndex {
    type V = Seq<EntryView>;

    open spec fn view(&self) -> Seq<EntryView> {
        entries_view(self.entries@)
    }
}

impl UtxoIndex {
    /// The index is well formed: one entry for a transaction at most, no
    /// entry without an output, no output of a value below 0.
    pub open spec fn wf(&self) -> bool {
        distinct_ids(self@) && sound_entries(self@)
    }

    /// The unspent outputs by transaction identifier.
    pub open spec fn utxos(&self) -> UtxoMap {
        index_map(self@)
    }

    /// An index without entries.
    pub fn new() -> (index: UtxoIndex)
        ensures
            index.wf(),
            index@.len() == 0,
            index.utxos() == Map::<Seq<char>, Seq<UnspentView>>::empty(),
    {
        let index = UtxoIndex { entries: Vec::new() };
        assert(index.utxos() =~= Map::<Seq<char>, Seq<UnspentView>>::empty());
        index
    }

    /// The position of the entry that is kept for `txid`.
    pub fn position(&self, txid: &String) -> (found: Option<usize>)
        ensures
            match found {
                Some(e) => e < self@.len() && self@[e as int].txid == txid@,
                None => !has_entry(self@, txid@),
            },
    {
        let mut e: usize = 0;
        while e < self.entries.len()
            invariant
                e <= self.entries@.len(),
                forall|i: int| 0 <= i < e ==> (#[trigger] self@[i]).txid != txid@,
            decreases self.entries@.len() - e,
        {
            assert(self@[e as int] == self.entries@[e as int]@);
            if self.entries[e].txid == *txid {
                return Some(e);
            }
            e += 1;
        }
        None
    }

    /// Takes output `vout` of transaction `txid` out of the index.
    pub fn spend(&mut self, txid: &String, vout: i32)
        requires
            old(self).wf(),
        ensures
            final(self).wf(),
            final(self).utxos() == spend(old(self).utxos(), txid@, vout),
    {
        let ghost before = self@;
        proof {
            lemma_index_map(before);
        }
        match self.position(txid) {
            None => {},
            Some(e) => {
                assert(self@[e as int] == self.entries@[e as int]@);
                let rest = outputs_without(&self.entries[e].outputs, vout);
                proof {
                    lemma_without_sound(before[e as int].outputs, vout);
                }
                if rest.len() == 0 {
                    self.entries.remove(e);
                    proof {
                        assert(self@ =~= before.remove(e as int));
                        lemma_remove_entry(before, e as int);
                    }
                } else {
                    let id = self.entries[e].txid.clone();
                    self.entries.set(e, UtxoEntry { txid: id, outputs: rest });
                    proof {
                        assert(self@ =~= before.update(
                            e as int,
                            EntryView { txid: before[e as int].txid, outputs: unspents_view(rest@) },
                        ));
                        lemma_update_entry(before, e as int, unspents_view(rest@));
                    }
                }
            },
        }
    }

    /// Takes every output that `inputs` name out of the index.
    pub fn spend_inputs(&mut self, inputs: &Vec<TXInput>)
        requires
            old(self).wf(),
        ensures
            final(self).wf(),
            final(self).utxos() == spend_all(old(self).utxos(), inputs_view(inputs@)),
    {
        let ghost all = inputs_view(inputs@);
        let ghost start = self.utxos();
        let mut i: usize = 0;
        while i < inputs.len()
            invariant
                i <= inputs@.len(),
                all == inputs_view(inputs@),
                self.wf(),
                self.utxos() == spend_all(start, all.subrange(0, i as int)),
            decreases inputs@.len() - i,
        {
            assert(all.subrange(0, i + 1).drop_last() =~= all.subrange(0, i as int));
            assert(all.subrange(0, i + 1).last() == inputs@[i as int]@);
            self.spend(&inputs[i].txid, inputs[i].vout);
            i += 1;
        }
        assert(all.subrange(0, i as int) =~= all);
    }

    /// Puts the outputs of `tx` that can be spent in the place of whatever
    /// the index kept for the identifier of `tx`.
    pub fn add_outputs(&mut self, tx: &Transaction)
        requires
            old(self).wf(),
        ensures
            final(self).wf(),
            final(self).utxos() == add_created(old(self).utxos(), tx@),
    {
        let ghost before = self@;
        proof {
            lemma_index_map(before);
            lemma_created_sound(tx@.vout, tx@.vout.len() as int);
        }
        let made = created_outputs(tx);
        match self.position(&tx.id) {
            None => {
                if made.len() > 0 {
                    let entry = UtxoEntry { txid: tx.id.clone(), outputs: made };
                    self.entries.push(entry);
                    proof {
                        assert(self@ =~= before.push(
                            EntryView { txid: tx@.id, outputs: created(tx@) },
                        ));
                        lemma_push_entry(before, EntryView { txid: tx@.id, outputs: created(tx@) });
                    }
                } else {
                    assert(self.utxos() =~= index_map(before).remove(tx@.id));
                }
            },
            Some(e) => {
                assert(self@[e as int] == self.entries@[e as int]@);
                if made.len() > 0 {
                    self.entries.set(e, UtxoEntry { txid: tx.id.clone(), outputs: made });
                    proof {
                        assert(self@ =~= before.update(
                            e as int,
                            EntryView { txid: before[e as int].txid, outputs: created(tx@) },
                        ));
                        lemma_update_entry(before, e as int, created(tx@));
                    }
                } else {
                    self.entries.remove(e);
                    proof {
                        assert(self@ =~= before.remove(e as int));
                        lemma_remove_entry(before, e as int);
                    }
                }
            },
        }
    }

    /// Brings the index past one transaction: what its inputs name is
    /// spent, unless it is a coinbase, and its outputs are added.
    pub fn apply(&mut self, tx: &Transaction)
        requires
            old(self).wf(),
        ensures
            final(self).wf(),
            final(self).utxos() == apply_tx(old(self).utxos(), tx@),
    {
        if !tx.is_coinbase() {
            self.spend_inputs(&tx.vin);
        }
        self.add_outputs(tx);
    }

    /// Brings the index past the transactions of one block, in their order.
    pub fn apply_all(&mut self, txs: &Vec<Transaction>)
        requires
            old(self).wf(),
        ensures
            final(self).wf(),
            final(self).utxos() == apply_txs(old(self).utxos(), transactions_view(txs@)),
    {
        let ghost all = transactions_view(txs@);
        let ghost start = self.utxos();
        let mut i: usize = 0;
        while i < txs.len()
            invariant
                i <= txs@.len(),
                all == transactions_view(txs@),
                self.wf(),
                self.utxos() == apply_txs(start, all.subrange(0, i as int)),
            decreases txs@.len() - i,
        {
            assert(all.subrange(0, i + 1).drop_last() =~= all.subrange(0, i as int));
            assert(all.subrange(0, i + 1).last() == txs@[i as int]@);
            self.apply(&txs[i]);
            i += 1;
        }
        assert(all.subrange(0, i as int) =~= all);
    }

    /// The index of a chain that is given from its tip to its first block.
    pub fn rebuild(blocks: &Vec<Block>) -> (index: UtxoIndex)
        ensures
            index.wf(),
            index.utxos() == chain_utxos(blocks_view(blocks@)),
    {
        let ghost all = blocks_view(blocks@);
        let mut index = UtxoIndex::new();
        let mut i: usize = blocks.len();
        assert(all.skip(i as int) =~= Seq::<BlockView>::empty());
        while i > 0
            invariant
                i <= blocks@.len(),
                all == blocks_view(blocks@),
                index.wf(),
                index.utxos() == chain_utxos(all.skip(i as int)),
            decreases i,
        {
            i -= 1;
            assert(all.skip(i as int).first() == blocks@[i as int]@);
            assert(all.skip(i as int).drop_first() =~= all.skip(i + 1));
            index.apply_all(blocks[i].get_transaction());
        }
        assert(all.skip(0) =~= all);
        index
    }

    /// The number of entries: with a well-formed index, the number of
    /// transactions that have an unspent output.
    pub fn count_transactions(&self) -> (count: usize)
        ensures
            count == self@.len(),
            self.wf() ==> count == self.utxos().dom().len(),
    {
        proof {
            if self.wf() {
                lemma_index_size(self@);
            }
        }
        self.entries.len()
    }
}

} // verus!
