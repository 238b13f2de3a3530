use crate::block::{Block, BlockView};
use crate::transaction::{Transaction, TransactionView};
use crate::tx::{copy_bytes, TXInput, TXOutput, TxInputView, TxOutputView};
use crate::utxo_index::{unspents_view, Unspent, UnspentView};
use vstd::prelude::*;

verus! {

/// The bytes that stand for a transaction; none where the encoder refuses
/// it.
pub uninterp spec fn transaction_encoding(tx: TransactionView) -> Option<Seq<u8>>;

/// The bytes that stand for the header of a block: what is hashed to seal
/// it; none where the encoder refuses it.
pub uninterp spec fn header_encoding(
    prev_block_hash: Seq<char>,
    tx_digests: Seq<Seq<char>>,
    timestamp: u128,
    target_bits: u32,
    nonce: i32,
) -> Option<Seq<u8>>;

/// The bytes that stand for a block in the store; none where the encoder
/// refuses it.
pub uninterp spec fn block_encoding(block: BlockView) -> Option<Seq<u8>>;

/// The block that stored bytes stand for, where they stand for one.
pub uninterp spec fn block_decoding(bytes: Seq<u8>) -> Option<BlockView>;

/// The bytes that stand for the unspent outputs of one transaction in the
/// store of the index; none where the encoder refuses them.
pub uninterp spec fn outputs_encoding(outputs: Seq<UnspentView>) -> Option<Seq<u8>>;

/// The unspent outputs that stored bytes stand for, where they stand for
/// some.
pub uninterp spec fn outputs_decoding(bytes: Seq<u8>) -> Option<Seq<UnspentView>>;

/// The texts of a vector, each by its view.
pub open spec fn strings_view(texts: Seq<String>) -> Seq<Seq<char>> {
    texts.map_values(|text: String| text@)
}

/// Trusted: `bincode::serialize`, on the transaction written as a tuple of
/// its three fields, the inputs and outputs as tuples of theirs. Whether
/// the encoder succeeds, and the bytes it gives, depend on the
/// transaction's content alone; a failure comes back as `None`.
#[verifier::external_body]
pub(crate) fn encode_transaction(tx: &Transaction) -> (bytes: Option<Vec<u8>>)
    ensures
        match bytes {
            Some(b) => transaction_encoding(tx@) == Some(b@),
            None => transaction_encoding(tx@) is None,
        },
{
    let vin: Vec<_> = tx.vin.iter().map(|i| (&i.txid, i.vout, &i.signature, &i.pub_key)).collect();
    let vout: Vec<_> = tx.vout.iter().map(|o| (o.value, &o.pub_key_hash)).collect();
    bincode::serialize(&(&tx.id, vin, vout)).ok()
}

/// Trusted: `bincode::serialize`, on the tuple of the five header fields.
/// Whether the encoder succeeds, and the bytes it gives, depend on the
/// fields alone; a failure comes back as `None`.
#[verifier::external_body]
pub(crate) fn encode_header(
    prev_block_hash: &String,
    tx_digests: &Vec<String>,
    timestamp: u128,
    target_bits: u32,
    nonce: i32,
) -> (bytes: Option<Vec<u8>>)
    ensures
        match bytes {
            Some(b) => header_encoding(
                prev_block_hash@,
                strings_view(tx_digests@),
                timestamp,
                target_bits,
                nonce,
            ) == Some(b@),
            None => header_encoding(
                prev_block_hash@,
                strings_view(tx_digests@),
                timestamp,
                target_bits,
                nonce,
            ) is None,
        },
{
    bincode::serialize(&(prev_block_hash, tx_digests, timestamp, target_bits, nonce)).ok()
}

/// Trusted: `bincode::serialize`, on the block written as a tuple of its six
/// fields, each transaction as in `encode_transaction`. Whether the
/// encoder succeeds, and the bytes it gives, depend on the block's content
/// alone, and `bincode::deserialize` reads the same block back from them.
/// A failure comes back as `None`.
#[verifier::external_body]
pub(crate) fn encode_block(block: &Block) -> (bytes: Option<Vec<u8>>)
    ensures
        match bytes {
            Some(b) => block_encoding(block@) == Some(b@) && block_decoding(b@) == Some(block@),
            None => block_encoding(block@) is None,
        },
{
    let txs: Vec<_> = block.transactions.iter().map(|t| (
        &t.id,
        t.vin.iter().map(|i| (&i.txid, i.vout, &i.signature, &i.pub_key)).collect::<Vec<_>>(),
        t.vout.iter().map(|o| (o.value, &o.pub_key_hash)).collect::<Vec<_>>(),
    )).collect();
    let (prev, hash) = (&block.prev_block_hash, &block.hash);
    bincode::serialize(&(block.timestamp, txs, prev, hash, block.nonce, block.height)).ok()
}

/// The fields of an input, as they are written: transaction, position,
/// signature, public key.
pub type InputParts = (String, i32, Vec<u8>, Vec<u8>);

/// The fields of an output, as they are written: value, locking hash.
pub type OutputParts = (i32, Vec<u8>);

/// The fields of a transaction, as they are written: identifier, inputs,
/// outputs.
pub type TransactionParts = (String, Vec<InputParts>, Vec<OutputParts>);

/// The fields of a block, as they are written: time, transactions, hash of
/// the block before, hash, nonce, height.
pub type BlockParts = (u128, Vec<TransactionParts>, String, String, i32, i32);

/// The fields of an unspent output, as they are written: position, value,
/// locking hash.
pub type UnspentParts = (i32, i32, Vec<u8>);

/// The input that the written fields stand for.
pub open spec fn input_of_parts(parts: InputParts) -> TxInputView {
    TxInputView { txid: parts.0@, vout: parts.1, signature: parts.2@, pub_key: parts.3@ }
}

/// The output that the written fields stand for.
pub open spec fn output_of_parts(parts: OutputParts) -> TxOutputView {
    TxOutputView { value: parts.0, pub_key_hash: parts.1@ }
}

/// The transaction that the written fields stand for.
pub open spec fn transaction_of_parts(parts: TransactionParts) -> TransactionView {
    TransactionView {
        id: parts.0@,
        vin: parts.1@.map_values(|input: InputParts| input_of_parts(input)),
        vout: parts.2@.map_values(|output: OutputParts| output_of_parts(output)),
    }
}

/// The unspent output that the written fields stand for.
pub open spec fn unspent_of_parts(parts: UnspentParts) -> UnspentView {
    UnspentView {
        vout: parts.0,
        output: TxOutputView { value: parts.1, pub_key_hash: parts.2@ },
    }
}

/// The transaction with the fields `parts`.
pub fn transaction_from_parts(parts: &TransactionParts) -> (tx: Transaction)
    ensures
        tx@ == transaction_of_parts(*parts),
{
    let mut vin: Vec<TXInput> = Vec::new();
    let mut i: usize = 0;
    while i < parts.1.len()
        invariant
            i <= parts.1@.len(),
            vin@.len() == i,
            forall|j: int| 0 <= j < i ==> (#[trigger] vin@[j])@ == input_of_parts(parts.1@[j]),
        decreases parts.1@.len() - i,
    {
        let input = &parts.1[i];
        vin.push(
            TXInput {
                txid: input.0.clone(),
                vout: input.1,
                signature: copy_bytes(&input.2),
                pub_key: copy_bytes(&input.3),
            },
        );
        i += 1;
    }
    let mut vout: Vec<TXOutput> = Vec::new();
    let mut k: usize = 0;
    while k < parts.2.len()
        invariant
            k <= parts.2@.len(),
            vout@.len() == k,
            forall|j: int| 0 <= j < k ==> (#[trigger] vout@[j])@ == output_of_parts(parts.2@[j]),
        decreases parts.2@.len() - k,
    {
        let output = &parts.2[k];
        vout.push(TXOutput { value: output.0, pub_key_hash: copy_bytes(&output.1) });
        k += 1;
    }
    let tx = Transaction { id: parts.0.clone(), vin, vout };
    assert(tx@.vin =~= transaction_of_parts(*parts).vin);
    assert(tx@.vout =~= transaction_of_parts(*parts).vout);
    tx
}

/// The unspent output with the fields `parts`.
pub fn unspent_from_parts(parts: &UnspentParts) -> (unspent: Unspent)
    ensures
        unspent@ == unspent_of_parts(*parts),
{
    Unspent { vout: parts.0, output: TXOutput { value: parts.1, pub_key_hash: copy_bytes(&parts.2) } }
}

/// Trusted: `bincode::deserialize`, at the tuple type that `encode_block`
/// writes; the transactions are then made from their fields by
/// `transaction_from_parts`. The answer depends on the bytes alone; bytes
/// that the decoder refuses give `None`.
#[verifier::external_body]
pub(crate) fn decode_block(bytes: &[u8]) -> (block: Option<Block>)
    ensures
        match block {
            Some(b) => block_decoding(bytes@) == Some(b@),
            None => block_decoding(bytes@) is None,
        },
{
    let (timestamp, txs, prev_block_hash, hash, nonce, height): BlockParts = bincode::deserialize(bytes).ok()?;
    let transactions = txs.iter().map(transaction_from_parts).collect();
    Some(Block { timestamp, transactions, prev_block_hash, hash, nonce, height })
}

/// Trusted: `bincode::serialize`, on the outputs written as a vector of
/// tuples: position, value, locking hash. Whether the encoder succeeds,
/// and the bytes it gives, depend on the outputs alone, and
/// `bincode::deserialize` reads the same outputs back from them. A failure
/// comes back as `None`.
#[verifier::external_body]
pub(crate) fn encode_outputs(outputs: &Vec<Unspent>) -> (bytes: Option<Vec<u8>>)
    ensures
        match bytes {
            Some(b) => outputs_encoding(unspents_view(outputs@)) == Some(b@) && outputs_decoding(
                b@,
            ) == Some(unspents_view(outputs@)),
            None => outputs_encoding(unspents_view(outputs@)) is None,
        },
{
    let plain: Vec<_> = outputs.iter().map(|u| (u.vout, u.output.value, &u.output.pub_key_hash)).collect();
    bincode::serialize(&plain).ok()
}

/// Trusted: `bincode::deserialize`, at the type that `encode_outputs`
/// writes; the outputs are then made from their fields by
/// `unspent_from_parts`. The answer depends on the bytes alone; bytes that
/// the decoder refuses give `None`.
#[verifier::external_body]
pub(crate) fn decode_outputs(bytes: &[u8]) -> (outputs: Option<Vec<Unspent>>)
    ensures
        match outputs {
            Some(list) => outputs_decoding(bytes@) == Some(unspents_view(list@)),
            None => outputs_decoding(bytes@) is None,
        },
{
    let plain: Vec<UnspentParts> = bincode::deserialize(bytes).ok()?;
    Some(plain.iter().map(unspent_from_parts).collect())
}

} // verus!
