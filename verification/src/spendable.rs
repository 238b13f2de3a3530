use crate::utxo_index::{sound_entries, sound_outputs, EntryView, UtxoIndex};
use crate::utxo_laws::{lemma_owner_total, owner_total};
use vstd::prelude::*;

verus! {

/// An unspent output as a spender needs it: where it is, and what it is worth.
#[derive(Debug, PartialEq, Eq)]
pub struct SpendableOutput {
    pub txid: String,
    pub vout: i32,
    pub value: i32,
}

/// What a spendable output is, as mathematics.
pub struct SpendableView {
    pub txid: Seq<char>,
    pub vout: i32,
    pub value: i32,
}

impl View for SpendableOutput {
    type V = SpendableView;

    open spec fn view(&self) -> SpendableView {
        SpendableView { txid: self.txid@, vout: self.vout, value: self.value }
    }
}

/// The spendable outputs of a vector, each by its view.
pub open spec fn spendables_view(outputs: Seq<SpendableOutput>) -> Seq<SpendableView> {
    outputs.map_values(|output: SpendableOutput| output@)
}

/// Those of the first `n` outputs of `entry` that are locked to
/// `pub_key_hash`.
pub open spec fn owned_upto(entry: EntryView, pub_key_hash: Seq<u8>, n: int) -> Seq<SpendableView>
    decreases n,
{
    if n <= 0 {
        Seq::empty()
    } else if entry.outputs[n - 1].output.pub_key_hash == pub_key_hash {
        owned_upto(entry, pub_key_hash, n - 1).push(
            SpendableView {
                txid: entry.txid,
                vout: entry.outputs[n - 1].vout,
                value: entry.outputs[n - 1].output.value,
            },
        )
    } else {
        owned_upto(entry, pub_key_hash, n - 1)
    }
}

/// The outputs of the index that are locked to `pub_key_hash`, entry by
/// entry.
pub open spec fn owned(entries: Seq<EntryView>, pub_key_hash: Seq<u8>) -> Seq<SpendableView>
    decreases entries.len(),
{
    if entries.len() == 0 {
        Seq::empty()
    } else {
        owned(entries.drop_last(), pub_key_hash) + owned_upto(
            entries.last(),
            pub_key_hash,
            entries.last().outputs.len() as int,
        )
    }
}

/// The values of `outputs` together.
pub open spec fn total_value(outputs: Seq<SpendableView>) -> int
    decreases outputs.len(),
{
    if outputs.len() == 0 {
        0
    } else {
        total_value(outputs.drop_last()) + outputs.last().value
    }
}

/// The outputs that are gathered for `amount`: each candidate in turn, as
/// long as what was gathered before it is worth less than `amount`.
pub open spec fn selection(candidates: Seq<SpendableView>, amount: int) -> Seq<SpendableView>
    decreases candidates.len(),
{
    if candidates.len() == 0 {
        candidates
    } else {
        let before = selection(candidates.drop_last(), amount);
        if total_value(before) < amount {
            before.push(candidates.last())
        } else {
            before
        }
    }
}

/// `total`, or the greatest `i64` where `total` is above it.
pub open spec fn capped(total: int) -> int {
    if total > i64::MAX {
        i64::MAX as int
    } else {
        total
    }
}

/// In a sound index every output of an owner has a value of 0 or more.
pub proof fn lemma_owned_values(entries: Seq<EntryView>, pub_key_hash: Seq<u8>)
    requires
        sound_entries(entries),
    ensures
        forall|k: int|
            0 <= k < owned(entries, pub_key_hash).len() ==> (#[trigger] owned(
                entries,
                pub_key_hash,
            )[k]).value >= 0,
    decreases entries.len(),
{
    if entries.len() > 0 {
        assert forall|i: int| 0 <= i < entries.drop_last().len() implies (
        #[trigger] entries.drop_last()[i]).outputs.len() > 0 && sound_outputs(
            entries.drop_last()[i].outputs,
        ) by {
            assert(entries.drop_last()[i] == entries[i]);
        }
        lemma_owned_values(entries.drop_last(), pub_key_hash);
        let last = entries.last();
        assert(sound_outputs(last.outputs));
        lemma_owned_upto_values(last, pub_key_hash, last.outputs.len() as int);
        let front = owned(entries.drop_last(), pub_key_hash);
        let back = owned_upto(last, pub_key_hash, last.outputs.len() as int);
        assert forall|k: int| 0 <= k < owned(entries, pub_key_hash).len() implies (#[trigger] owned(
            entries,
            pub_key_hash,
        )[k]).value >= 0 by {
            if k < front.len() {
                assert((front + back)[k] == front[k]);
            } else {
                assert((front + back)[k] == back[k - front.len()]);
            }
        }
    }
}

/// Where every output of an entry has a value of 0 or more, so has every
/// output of an owner in it.
pub proof fn lemma_owned_upto_values(entry: EntryView, pub_key_hash: Seq<u8>, n: int)
    requires
        sound_outputs(entry.outputs),
        n <= entry.outputs.len(),
    ensures
        forall|k: int|
            0 <= k < owned_upto(entry, pub_key_hash, n).len() ==> (#[trigger] owned_upto(
                entry,
                pub_key_hash,
                n,
            )[k]).value >= 0,
    decreases n,
{
    if n > 0 {
        lemma_owned_upto_values(entry, pub_key_hash, n - 1);
        assert(entry.outputs[n - 1].output.value >= 0);
        let front = owned_upto(entry, pub_key_hash, n - 1);
        assert forall|k: int| 0 <= k < owned_upto(entry, pub_key_hash, n).len() implies (
        #[trigger] owned_upto(entry, pub_key_hash, n)[k]).value >= 0 by {
            if k < front.len() {
                assert(owned_upto(entry, pub_key_hash, n)[k] == front[k]);
            }
        }
    }
}

/// What is gathered for an amount covers it where the owner's outputs do,
/// and is all the owner has where they do not: with outputs worth `V` in
/// all, asking for `amount <= V` gives outputs worth `amount` or more, and
/// asking for more than `V` gives all of them, worth `V`, which is less than
/// `amount`.
pub proof fn selection_covers_amount(entries: Seq<EntryView>, pub_key_hash: Seq<u8>, amount: int)
    requires
        sound_entries(entries),
    ensures
        amount <= total_value(owned(entries, pub_key_hash)) ==> total_value(
            selection(owned(entries, pub_key_hash), amount),
        ) >= amount,
        amount > total_value(owned(entries, pub_key_hash)) ==> selection(
            owned(entries, pub_key_hash),
            amount,
        ) == owned(entries, pub_key_hash),
{
    lemma_owned_values(entries, pub_key_hash);
    lemma_selection(owned(entries, pub_key_hash), amount);
}

/// The same, of any candidates of value 0 or more.
pub proof fn lemma_selection(candidates: Seq<SpendableView>, amount: int)
    requires
        forall|k: int| 0 <= k < candidates.len() ==> (#[trigger] candidates[k]).value >= 0,
    ensures
        0 <= total_value(candidates),
        total_value(selection(candidates, amount)) <= total_value(candidates),
        amount <= total_value(candidates) ==> total_value(selection(candidates, amount))
            >= amount,
        amount > total_value(candidates) ==> selection(candidates, amount) == candidates,
    decreases candidates.len(),
{
    if candidates.len() > 0 {
        let front = candidates.drop_last();
        assert forall|k: int| 0 <= k < front.len() implies (#[trigger] front[k]).value >= 0 by {
            assert(front[k] == candidates[k]);
        }
        lemma_selection(front, amount);
        let before = selection(front, amount);
        assert(candidates.last().value >= 0);
        if total_value(before) < amount {
            assert(before.push(candidates.last()).drop_last() =~= before);
            if amount > total_value(candidates) {
                assert(before == front);
                assert(front.push(candidates.last()) =~= candidates);
            }
        }
    }
}

impl UtxoIndex {
    /// Gathers outputs locked to `pub_key_hash`, in the order of the index,
    /// for as long as their values together stay below `amount`. Returns
    /// the values together and the outputs gathered; the total is below
    /// `amount` where the outputs of that owner do not cover it.
    pub fn find_spendable_outputs(&self, pub_key_hash: &[u8], amount: i32) -> (found: (
        i64,
        Vec<SpendableOutput>,
    ))
        requires
            self.wf(),
        ensures
            spendables_view(found.1@) == selection(owned(self@, pub_key_hash@), amount as int),
            found.0 == total_value(spendables_view(found.1@)),
            amount <= owner_total(self.utxos(), pub_key_hash@) ==> found.0 >= amount,
            amount > owner_total(self.utxos(), pub_key_hash@) ==> found.0 == owner_total(
                self.utxos(),
                pub_key_hash@,
            ),
    {
        let ghost pkh = pub_key_hash@;
        proof {
            lemma_owner_total(self@, pkh);
            selection_covers_amount(self@, pkh, amount as int);
        }
        let mut total: i64 = 0;
        let mut taken: Vec<SpendableOutput> = Vec::new();
        let mut e: usize = 0;
        assert(self@.subrange(0, 0) =~= Seq::<EntryView>::empty());
        assert(spendables_view(taken@) =~= Seq::<SpendableView>::empty());
        while e < self.entries.len()
            invariant
                e <= self.entries@.len(),
                self.wf(),
                pkh == pub_key_hash@,
                spendables_view(taken@) == selection(
                    owned(self@.subrange(0, e as int), pkh),
                    amount as int,
                ),
                total == total_value(spendables_view(taken@)),
                0 <= total,
                total < 0x1_0000_0000,
            decreases self.entries@.len() - e,
        {
            let entry = &self.entries[e];
            let ghost done = owned(self@.subrange(0, e as int), pkh);
            let ghost entry_view = self@[e as int];
            assert(entry_view == entry@);
            assert(sound_outputs(entry_view.outputs));
            let mut k: usize = 0;
            assert(done + owned_upto(entry_view, pkh, 0) =~= done);
            while k < entry.outputs.len()
                invariant
                    k <= entry.outputs@.len(),
                    entry_view == entry@,
                    sound_outputs(entry_view.outputs),
                    pkh == pub_key_hash@,
                    spendables_view(taken@) == selection(
                        done + owned_upto(entry_view, pkh, k as int),
                        amount as int,
                    ),
                    total == total_value(spendables_view(taken@)),
                    0 <= total,
                    total < 0x1_0000_0000,
                decreases entry.outputs@.len() - k,
            {
                let unspent = &entry.outputs[k];
                let ghost seen = done + owned_upto(entry_view, pkh, k as int);
                let ghost chosen = spendables_view(taken@);
                assert(entry_view.outputs[k as int] == unspent@);
                if unspent.output.can_be_unlock_with(pub_key_hash) {
                    let ghost candidate = SpendableView {
                        txid: entry_view.txid,
                        vout: unspent@.vout,
                        value: unspent@.output.value,
                    };
                    assert(done + owned_upto(entry_view, pkh, k + 1) =~= seen.push(candidate));
                    assert(seen.push(candidate).drop_last() =~= seen);
                    if total < amount as i64 {
                        taken.push(
                            SpendableOutput {
                                txid: entry.txid.clone(),
                                vout: unspent.vout,
                                value: unspent.output.value,
                            },
                        );
                        assert(spendables_view(taken@) =~= chosen.push(candidate));
                        assert(chosen.push(candidate).drop_last() =~= chosen);
                        total = total + unspent.output.value as i64;
                    }
                } else {
                    assert(done + owned_upto(entry_view, pkh, k + 1) =~= seen);
                }
                k += 1;
            }
            assert(self@.subrange(0, e + 1).drop_last() =~= self@.subrange(0, e as int));
            assert(self@.subrange(0, e + 1).last() == entry_view);
            e += 1;
        }
        assert(self@.subrange(0, e as int) =~= self@);
        (total, taken)
    }

    /// The outputs locked to `pub_key_hash`, in the order of the index.
    pub fn find_utxo(&self, pub_key_hash: &[u8]) -> (outputs: Vec<SpendableOutput>)
        ensures
            spendables_view(outputs@) == owned(self@, pub_key_hash@),
    {
        let ghost pkh = pub_key_hash@;
        let mut outputs: Vec<SpendableOutput> = Vec::new();
        let mut e: usize = 0;
        assert(self@.subrange(0, 0) =~= Seq::<EntryView>::empty());
        assert(spendables_view(outputs@) =~= Seq::<SpendableView>::empty());
        while e < self.entries.len()
            invariant
                e <= self.entries@.len(),
                pkh == pub_key_hash@,
                spendables_view(outputs@) == owned(self@.subrange(0, e as int), pkh),
            decreases self.entries@.len() - e,
        {
            let entry = &self.entries[e];
            let ghost done = owned(self@.subrange(0, e as int), pkh);
            let ghost entry_view = self@[e as int];
            assert(entry_view == entry@);
            let mut k: usize = 0;
            assert(done + owned_upto(entry_view, pkh, 0) =~= done);
            while k < entry.outputs.len()
                invariant
                    k <= entry.outputs@.len(),
                    entry_view == entry@,
                    pkh == pub_key_hash@,
                    spendables_view(outputs@) == done + owned_upto(entry_view, pkh, k as int),
                decreases entry.outputs@.len() - k,
            {
                let unspent = &entry.outputs[k];
                let ghost seen = spendables_view(outputs@);
                assert(entry_view.outputs[k as int] == unspent@);
                if unspent.output.can_be_unlock_with(pub_key_hash) {
                    let ghost candidate = SpendableView {
                        txid: entry_view.txid,
                        vout: unspent@.vout,
                        value: unspent@.output.value,
                    };
                    outputs.push(
                        SpendableOutput {
                            txid: entry.txid.clone(),
                            vout: unspent.vout,
                            value: unspent.output.value,
                        },
                    );
                    assert(spendables_view(outputs@) =~= seen.push(candidate));
                    assert(done + owned_upto(entry_view, pkh, k + 1) =~= seen.push(candidate));
                } else {
                    assert(done + owned_upto(entry_view, pkh, k + 1) =~= seen);
                }
                k += 1;
            }
            assert(self@.subrange(0, e + 1).drop_last() =~= self@.subrange(0, e as int));
            assert(self@.subrange(0, e + 1).last() == entry_view);
            e += 1;
        }
        assert(self@.subrange(0, e as int) =~= self@);
        outputs
    }

    /// The values of the outputs locked to `pub_key_hash` together; where
    /// they come to more than an `i64` holds, the greatest `i64`.
    pub fn balance(&self, pub_key_hash: &[u8]) -> (balance: i64)
        requires
            self.wf(),
        ensures
            balance == capped(total_value(owned(self@, pub_key_hash@))),
            balance == capped(owner_total(self.utxos(), pub_key_hash@)),
    {
        proof {
            lemma_owner_total(self@, pub_key_hash@);
        }
        let outputs = self.find_utxo(pub_key_hash);
        let ghost all = spendables_view(outputs@);
        proof {
            lemma_owned_values(self@, pub_key_hash@);
        }
        let mut total: i64 = 0;
        let mut i: usize = 0;
        assert(all.subrange(0, 0) =~= Seq::<SpendableView>::empty());
        while i < outputs.len()
            invariant
                i <= outputs@.len(),
                all == spendables_view(outputs@),
                forall|k: int| 0 <= k < all.len() ==> (#[trigger] all[k]).value >= 0,
                0 <= total_value(all.subrange(0, i as int)),
                total == capped(total_value(all.subrange(0, i as int))),
            decreases outputs@.len() - i,
        {
            assert(all.subrange(0, i + 1).drop_last() =~= all.subrange(0, i as int));
            assert(all.subrange(0, i + 1).last() == all[i as int]);
            assert(all[i as int] == outputs@[i as int]@);
            let value = outputs[i].value as i64;
            if total > i64::MAX - value {
                total = i64::MAX;
            } else {
                total = total + value;
            }
            i += 1;
        }
        assert(all.subrange(0, i as int) =~= all);
        total
    }
}

} // verus!
