use crate::address::locking_hash_of;
use crate::block::BlockView;
use crate::blockchain::signing;
use crate::errors::LedgerError;
use crate::hashing::pub_key_hash;
use crate::transaction::{has_digest, tx_digest, Transaction, TransactionView};
use crate::tx::{copy_bytes, TXInput, TXOutput, TxInputView, TxOutputView};
use crate::spendable::{owned, selection, spendables_view, total_value, SpendableView};
use crate::utxo_index::EntryView;
use crate::utxoset::{lists_utxos, readable, UTXOSet};
use crate::wallet::Wallet;
use vstd::prelude::*;

verus! {

/// The input that spends `output` for the owner of `public_key`, not yet
/// signed.
pub open spec fn input_for(output: SpendableView, public_key: Seq<u8>) -> TxInputView {
    TxInputView { txid: output.txid, vout: output.vout, signature: Seq::empty(), pub_key: public_key }
}

/// The outputs of a transfer: `amount` for the recipient, and for the
/// sender what the gathered outputs are worth beyond it, if anything.
pub open spec fn transfer_outputs(
    sender_hash: Seq<u8>,
    recipient_hash: Seq<u8>,
    amount: i32,
    total: int,
) -> Seq<TxOutputView> {
    if total > amount {
        seq![
            TxOutputView { value: amount, pub_key_hash: recipient_hash },
            TxOutputView { value: (total - amount) as i32, pub_key_hash: sender_hash },
        ]
    } else {
        seq![TxOutputView { value: amount, pub_key_hash: recipient_hash }]
    }
}

/// The transfer of `amount` that spends `gathered`, with its identifier and
/// without signatures.
pub open spec fn transfer(
    public_key: Seq<u8>,
    recipient_hash: Seq<u8>,
    amount: i32,
    gathered: Seq<SpendableView>,
) -> TransactionView {
    let body = TransactionView {
        id: Seq::empty(),
        vin: gathered.map_values(|output: SpendableView| input_for(output, public_key)),
        vout: transfer_outputs(
            pub_key_hash(public_key),
            recipient_hash,
            amount,
            total_value(gathered),
        ),
    };
    TransactionView { id: tx_digest(body), ..body }
}

/// What building a transfer comes to, with the index listed as `entries`:
/// an amount below 0 is refused; the outputs of the sender are gathered
/// and must cover the amount; the address must carry a hash; and the
/// transfer is signed against the chain.
pub open spec fn transfer_outcome(
    entries: Seq<EntryView>,
    chain: Result<Seq<BlockView>, LedgerError>,
    secret_key: Seq<u8>,
    public_key: Seq<u8>,
    to: Seq<char>,
    amount: i32,
) -> Result<TransactionView, LedgerError> {
    let gathered = selection(owned(entries, pub_key_hash(public_key)), amount as int);
    if amount < 0 {
        Err(LedgerError::InvalidTransaction)
    } else if total_value(gathered) < amount {
        Err(LedgerError::InsufficientFunds)
    } else {
        match locking_hash_of(to) {
            None => Err(LedgerError::EncodingError),
            Some(recipient_hash) => if !has_digest(
                transfer(public_key, recipient_hash, amount, gathered),
            ) {
                Err(LedgerError::EncodingError)
            } else {
                signing(
                    chain,
                    transfer(public_key, recipient_hash, amount, gathered),
                    secret_key,
                )
            },
        }
    }
}

/// What is gathered for an amount of 0 or more is worth less than the
/// amount and the greatest value of one output together.
pub proof fn lemma_selection_overshoot(candidates: Seq<SpendableView>, amount: int)
    requires
        amount >= 0,
    ensures
        total_value(selection(candidates, amount)) < amount + 0x7fff_ffff || total_value(
            selection(candidates, amount),
        ) == 0,
    decreases candidates.len(),
{
    if candidates.len() > 0 {
        lemma_selection_overshoot(candidates.drop_last(), amount);
        let before = selection(candidates.drop_last(), amount);
        if total_value(before) < amount {
            assert(before.push(candidates.last()).drop_last() =~= before);
        }
    }
}

impl Transaction {
    /// A transfer of `amount` from the owner of `wallet` to the address
    /// `to`: gathers unspent outputs of the sender from `utxo` until they
    /// cover the amount, spends each with one input, pays `amount` to the
    /// recipient and the rest back to the sender, and signs every input.
    /// `InsufficientFunds` says that the outputs of the sender do not cover
    /// the amount.
    pub fn new_utxo(wallet: &Wallet, to: &str, amount: i32, utxo: &UTXOSet) -> (made: Result<
        Transaction,
        LedgerError,
    >)
        ensures
            match made {
                Ok(tx) => exists|entries: Seq<EntryView>|
                    #[trigger] lists_utxos(entries, utxo.records()) && transfer_outcome(
                        entries,
                        utxo.blockchain.chain(),
                        wallet.secret_key@,
                        wallet.public_key@,
                        to@,
                        amount,
                    ) == Ok::<TransactionView, LedgerError>(tx@),
                Err(e) => e == LedgerError::StorageFailure || (e == LedgerError::EncodingError
                    && !readable(utxo.records())) || exists|entries: Seq<EntryView>|
                    #[trigger] lists_utxos(entries, utxo.records()) && transfer_outcome(
                        entries,
                        utxo.blockchain.chain(),
                        wallet.secret_key@,
                        wallet.public_key@,
                        to@,
                        amount,
                    ) == Err::<TransactionView, LedgerError>(e),
            },
    {
        let sender_hash = wallet.locking_hash();
        let (total, gathered) = match utxo.find_spendable_outputs(sender_hash.as_slice(), amount) {
            Ok(found) => found,
            Err(e) => {
                return Err(e);
            },
        };
        let ghost entries = choose|entries: Seq<EntryView>|
            {
                &&& #[trigger] lists_utxos(entries, utxo.records())
                &&& spendables_view(gathered@) == selection(
                    owned(entries, sender_hash@),
                    amount as int,
                )
                &&& total == total_value(spendables_view(gathered@))
            };
        let ghost chosen = spendables_view(gathered@);
        if amount < 0 {
            return Err(LedgerError::InvalidTransaction);
        }
        if total < amount as i64 {
            return Err(LedgerError::InsufficientFunds);
        }
        let mut vin: Vec<TXInput> = Vec::new();
        let mut i: usize = 0;
        while i < gathered.len()
            invariant
                i <= gathered@.len(),
                chosen == spendables_view(gathered@),
                vin@.len() == i,
                forall|j: int|
                    0 <= j < i ==> (#[trigger] vin@[j])@ == input_for(chosen[j], wallet.public_key@),
            decreases gathered@.len() - i,
        {
            assert(chosen[i as int] == gathered@[i as int]@);
            vin.push(
                TXInput {
                    txid: gathered[i].txid.clone(),
                    vout: gathered[i].vout,
                    signature: Vec::new(),
                    pub_key: copy_bytes(&wallet.public_key),
                },
            );
            i += 1;
        }
        let recipient = match TXOutput::new(amount, String::from_str(to)) {
            Ok(output) => output,
            Err(e) => {
                return Err(e);
            },
        };
        let ghost recipient_hash = recipient@.pub_key_hash;
        let mut vout: Vec<TXOutput> = Vec::new();
        vout.push(recipient);
        if total > amount as i64 {
            proof {
                lemma_selection_overshoot(owned(entries, sender_hash@), amount as int);
            }
            vout.push(TXOutput { value: (total - amount as i64) as i32, pub_key_hash: sender_hash });
        }
        let mut tx = Transaction { id: String::new(), vin, vout };
        proof {
            let wanted = transfer(wallet.public_key@, recipient_hash, amount, chosen);
            assert(tx@.vin =~= wanted.vin);
            assert(tx@.vout =~= wanted.vout);
        }
        match tx.hash() {
            Ok(id) => {
                tx.id = id;
            },
            Err(e) => {
                return Err(e);
            },
        }
        assert(tx@ == transfer(wallet.public_key@, recipient_hash, amount, chosen));
        match utxo.blockchain.sign_transaction(&mut tx, wallet.secret_key.as_slice()) {
            Ok(()) => Ok(tx),
            Err(e) => Err(e),
        }
    }
}

} // verus!
