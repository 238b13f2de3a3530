use crate::address::locking_hash_of;
use crate::encoding::{encode_transaction, transaction_encoding};
use crate::errors::LedgerError;
use crate::hashing::{sha256_hex, sha256_hex_digest};
use crate::signature::{
    ed25519_sign, ed25519_signature, ed25519_verifies, ed25519_verify, public_half,
    signs_for_itself, PUBLIC_KEY_LEN, SECRET_KEY_LEN, SIGNATURE_LEN,
};
use crate::tx::{copy_bytes, TXInput, TXOutput, TxInputView, TxOutputView};
use vstd::prelude::*;
use vstd::string::*;
use vstd::utf8::encode_utf8;

verus! {

/// The reward that a coinbase transaction pays.
pub const SUBSIDY: i32 = 10;

/// A transfer of value: inputs that spend earlier outputs, and new outputs.
#[derive(Debug, PartialEq, Eq)]
pub struct Transaction {
    pub id: String,
    pub vin: Vec<TXInput>,
    pub vout: Vec<TXOutput>,
}

/// What a transaction is, as mathematics.
pub struct TransactionView {
    pub id: Seq<char>,
    pub vin: Seq<TxInputView>,
    pub vout: Seq<TxOutputView>,
}

/// The inputs of a vector, each by its view.
pub open spec fn inputs_view(inputs: Seq<TXInput>) -> Seq<TxInputView> {
    inputs.map_values(|input: TXInput| input@)
}

/// The outputs of a vector, each by its view.
pub open spec fn outputs_view(outputs: Seq<TXOutput>) -> Seq<TxOutputView> {
    outputs.map_values(|output: TXOutput| output@)
}

/// The transactions of a vector, each by its view.
pub open spec fn transactions_view(txs: Seq<Transaction>) -> Seq<TransactionView> {
    txs.map_values(|tx: Transaction| tx@)
}

impl View for Transaction {
    type V = TransactionView;

    open spec fn view(&self) -> TransactionView {
        TransactionView {
            id: self.id@,
            vin: inputs_view(self.vin@),
            vout: outputs_view(self.vout@),
        }
    }
}

/// A copy of a vector of inputs.
pub fn clone_inputs(inputs: &Vec<TXInput>) -> (copy: Vec<TXInput>)
    ensures
        inputs_view(copy@) == inputs_view(inputs@),
{
    let mut copy: Vec<TXInput> = Vec::new();
    let mut i: usize = 0;
    while i < inputs.len()
        invariant
            i <= inputs@.len(),
            copy@.len() == i,
            forall|j: int| 0 <= j < i ==> copy@[j]@ == inputs@[j]@,
        decreases inputs@.len() - i,
    {
        copy.push(inputs[i].clone());
        i += 1;
    }
    assert(inputs_view(copy@) =~= inputs_view(inputs@));
    copy
}

/// A copy of a vector of outputs.
pub fn clone_outputs(outputs: &Vec<TXOutput>) -> (copy: Vec<TXOutput>)
    ensures
        outputs_view(copy@) == outputs_view(outputs@),
{
    let mut copy: Vec<TXOutput> = Vec::new();
    let mut i: usize = 0;
    while i < outputs.len()
        invariant
            i <= outputs@.len(),
            copy@.len() == i,
            forall|j: int| 0 <= j < i ==> copy@[j]@ == outputs@[j]@,
        decreases outputs@.len() - i,
    {
        copy.push(outputs[i].clone());
        i += 1;
    }
    assert(outputs_view(copy@) =~= outputs_view(outputs@));
    copy
}

impl Clone for Transaction {
    fn clone(&self) -> (copy: Self)
        ensures
            copy@ == self@,
    {
        Transaction {
            id: self.id.clone(),
            vin: clone_inputs(&self.vin),
            vout: clone_outputs(&self.vout),
        }
    }
}

/// A copy of a vector of transactions.
pub fn clone_transactions(txs: &Vec<Transaction>) -> (copy: Vec<Transaction>)
    ensures
        transactions_view(copy@) == transactions_view(txs@),
{
    let mut copy: Vec<Transaction> = Vec::new();
    let mut i: usize = 0;
    while i < txs.len()
        invariant
            i <= txs@.len(),
            copy@.len() == i,
            forall|j: int| 0 <= j < i ==> copy@[j]@ == txs@[j]@,
        decreases txs@.len() - i,
    {
        copy.push(txs[i].clone());
        i += 1;
    }
    assert(transactions_view(copy@) =~= transactions_view(txs@));
    copy
}

/// A coinbase transaction has one input, which names no transaction and
/// output -1.
pub open spec fn is_coinbase_view(tx: TransactionView) -> bool {
    tx.vin.len() == 1 && tx.vin[0].txid.len() == 0 && tx.vin[0].vout == -1
}

/// An input without its signature.
pub open spec fn unsigned_input(input: TxInputView) -> TxInputView {
    TxInputView { signature: Seq::empty(), ..input }
}

/// An input without its signature and its public key.
pub open spec fn trimmed_input(input: TxInputView) -> TxInputView {
    TxInputView { signature: Seq::empty(), pub_key: Seq::empty(), ..input }
}

/// The transaction with every input trimmed.
pub open spec fn trimmed(tx: TransactionView) -> TransactionView {
    TransactionView { vin: tx.vin.map_values(|input: TxInputView| trimmed_input(input)), ..tx }
}

/// What is hashed for the identifier: the transaction without its identifier
/// and without the signatures of its inputs. The one input of a coinbase
/// carries free data in place of a signature, which stays.
pub open spec fn id_preimage(tx: TransactionView) -> TransactionView {
    if is_coinbase_view(tx) {
        TransactionView { id: Seq::empty(), ..tx }
    } else {
        TransactionView {
            id: Seq::empty(),
            vin: tx.vin.map_values(|input: TxInputView| unsigned_input(input)),
            vout: tx.vout,
        }
    }
}

/// Whether the content of a transaction can be encoded, so that it has a
/// digest.
pub open spec fn has_digest(tx: TransactionView) -> bool {
    transaction_encoding(id_preimage(tx)) is Some
}

/// The identifier that a transaction's content gives it, where the content
/// can be encoded.
pub open spec fn tx_digest(tx: TransactionView) -> Seq<char> {
    sha256_hex_digest(transaction_encoding(id_preimage(tx))->Some_0)
}

/// The first transaction of `txs` that has the identifier `id`.
pub open spec fn find_by_id(txs: Seq<TransactionView>, id: Seq<char>) -> Option<TransactionView>
    decreases txs.len(),
{
    if txs.len() == 0 {
        None
    } else if txs[0].id == id {
        Some(txs[0])
    } else {
        find_by_id(txs.drop_first(), id)
    }
}

/// The output that `input` spends, looked up in `prev`.
pub open spec fn referenced_output(prev: Seq<TransactionView>, input: TxInputView) -> Option<
    TxOutputView,
> {
    match find_by_id(prev, input.txid) {
        Some(tx) => if 0 <= input.vout < tx.vout.len() {
            Some(tx.vout[input.vout as int])
        } else {
            None
        },
        None => None,
    }
}

/// Every input names a transaction of `prev`.
pub open spec fn has_ancestors(tx: TransactionView, prev: Seq<TransactionView>) -> bool {
    forall|i: int| 0 <= i < tx.vin.len() ==> (#[trigger] find_by_id(prev, tx.vin[i].txid)) is Some
}

/// Every input names an output that a transaction of `prev` has.
pub open spec fn spends_known_outputs(tx: TransactionView, prev: Seq<TransactionView>) -> bool {
    forall|i: int| 0 <= i < tx.vin.len() ==> (#[trigger] referenced_output(prev, tx.vin[i])) is Some
}

/// The copy that is hashed to sign or check input `i`: every input trimmed,
/// and `locking_hash` in the place of the public key of input `i`.
pub open spec fn signing_preimage(
    tx: TransactionView,
    i: int,
    locking_hash: Seq<u8>,
) -> TransactionView {
    TransactionView {
        vin: Seq::new(
            tx.vin.len(),
            |j: int|
                if j == i {
                    TxInputView { pub_key: locking_hash, ..trimmed_input(tx.vin[j]) }
                } else {
                    trimmed_input(tx.vin[j])
                },
        ),
        ..tx
    }
}

/// The bytes that the signature of input `i` is made over.
pub open spec fn signing_message(tx: TransactionView, i: int, locking_hash: Seq<u8>) -> Seq<u8> {
    encode_utf8(tx_digest(signing_preimage(tx, i, locking_hash)))
}

/// Input `i` as `sign` leaves it: signed over its message, with the signer's
/// public key.
pub open spec fn signed_input(
    tx: TransactionView,
    i: int,
    secret_key: Seq<u8>,
    prev: Seq<TransactionView>,
) -> TxInputView {
    TxInputView {
        txid: tx.vin[i].txid,
        vout: tx.vin[i].vout,
        signature: ed25519_signature(
            signing_message(tx, i, referenced_output(prev, tx.vin[i])->Some_0.pub_key_hash),
            secret_key,
        ),
        pub_key: public_half(secret_key),
    }
}

/// The transaction with every input signed.
pub open spec fn signed(
    tx: TransactionView,
    secret_key: Seq<u8>,
    prev: Seq<TransactionView>,
) -> TransactionView {
    TransactionView {
        vin: Seq::new(tx.vin.len(), |i: int| signed_input(tx, i, secret_key, prev)),
        ..tx
    }
}

/// Whether the copy that is hashed for each input can be encoded.
pub open spec fn all_signable(tx: TransactionView, prev: Seq<TransactionView>) -> bool {
    forall|i: int|
        0 <= i < tx.vin.len() ==> has_digest(
            #[trigger] signing_preimage(
                tx,
                i,
                referenced_output(prev, tx.vin[i])->Some_0.pub_key_hash,
            ),
        )
}

/// What signing comes to: a coinbase is left as it is; an input that names
/// no transaction of the ancestry gives `MissingAncestor`, one that names
/// no output of it `InvalidTransaction`; a key of the wrong length or a
/// copy that cannot be encoded gives `EncodingError`; else every input is
/// signed.
pub open spec fn sign_outcome(
    tx: TransactionView,
    secret_key: Seq<u8>,
    prev: Seq<TransactionView>,
) -> Result<TransactionView, LedgerError> {
    if is_coinbase_view(tx) {
        Ok(tx)
    } else if !has_ancestors(tx, prev) {
        Err(LedgerError::MissingAncestor)
    } else if !spends_known_outputs(tx, prev) {
        Err(LedgerError::InvalidTransaction)
    } else if secret_key.len() != SECRET_KEY_LEN {
        Err(LedgerError::EncodingError)
    } else if !all_signable(tx, prev) {
        Err(LedgerError::EncodingError)
    } else {
        Ok(signed(tx, secret_key, prev))
    }
}

/// The check of input `i`: `Ok(false)` where it names no output of the
/// ancestry or carries a key or a signature of the wrong length,
/// `EncodingError` where the copy that is hashed for it cannot be encoded,
/// else whether the signature is accepted for the message of that input.
pub open spec fn input_check(tx: TransactionView, i: int, prev: Seq<TransactionView>) -> Result<
    bool,
    LedgerError,
> {
    match referenced_output(prev, tx.vin[i]) {
        None => Ok(false),
        Some(output) => if tx.vin[i].pub_key.len() != PUBLIC_KEY_LEN || tx.vin[i].signature.len()
            != SIGNATURE_LEN {
            Ok(false)
        } else if !has_digest(signing_preimage(tx, i, output.pub_key_hash)) {
            Err(LedgerError::EncodingError)
        } else {
            Ok(
                ed25519_verifies(
                    signing_message(tx, i, output.pub_key_hash),
                    tx.vin[i].pub_key,
                    tx.vin[i].signature,
                ),
            )
        },
    }
}

/// The checks of the inputs from `i` on, in their order: the first that
/// does not give `Ok(true)` decides.
pub open spec fn checks_from(tx: TransactionView, prev: Seq<TransactionView>, i: int) -> Result<
    bool,
    LedgerError,
>
    decreases tx.vin.len() - i,
{
    if i < 0 || i >= tx.vin.len() {
        Ok(true)
    } else {
        match input_check(tx, i, prev) {
            Ok(true) => checks_from(tx, prev, i + 1),
            other => other,
        }
    }
}

/// What verification comes to: a coinbase verifies as it is; an input
/// that names no transaction of the ancestry gives `MissingAncestor`; else
/// the checks of the inputs decide, in their order.
pub open spec fn verify_outcome(tx: TransactionView, prev: Seq<TransactionView>) -> Result<
    bool,
    LedgerError,
> {
    if is_coinbase_view(tx) {
        Ok(true)
    } else if !has_ancestors(tx, prev) {
        Err(LedgerError::MissingAncestor)
    } else {
        checks_from(tx, prev, 0)
    }
}

/// The position in `txs` of the first transaction with the identifier `id`.
pub fn position_of(txs: &Vec<Transaction>, id: &String) -> (found: Option<usize>)
    ensures
        match found {
            Some(k) => k < txs@.len() && find_by_id(transactions_view(txs@), id@) == Some(
                txs@[k as int]@,
            ),
            None => find_by_id(transactions_view(txs@), id@) is None,
        },
{
    let ghost all = transactions_view(txs@);
    let mut k: usize = 0;
    assert(all.skip(0) =~= all);
    while k < txs.len()
        invariant
            k <= txs@.len(),
            all == transactions_view(txs@),
            find_by_id(all, id@) == find_by_id(all.skip(k as int), id@),
        decreases txs@.len() - k,
    {
        if txs[k].id == *id {
            return Some(k);
        }
        assert(all.skip(k as int).drop_first() =~= all.skip(k + 1));
        k += 1;
    }
    None
}

/// The locking hash of the output that `input` spends.
pub fn locking_hash_for(prev_txs: &Vec<Transaction>, input: &TXInput) -> (hash: Result<
    Vec<u8>,
    LedgerError,
>)
    ensures
        match hash {
            Ok(bytes) => referenced_output(transactions_view(prev_txs@), input@) is Some
                && bytes@ == referenced_output(
                transactions_view(prev_txs@),
                input@,
            )->Some_0.pub_key_hash,
            Err(e) => if find_by_id(transactions_view(prev_txs@), input@.txid) is None {
                e == LedgerError::MissingAncestor
            } else {
                e == LedgerError::InvalidTransaction && referenced_output(
                    transactions_view(prev_txs@),
                    input@,
                ) is None
            },
        },
{
    match position_of(prev_txs, &input.txid) {
        None => Err(LedgerError::MissingAncestor),
        Some(k) => {
            let ancestor = &prev_txs[k];
            if input.vout < 0 || input.vout as usize >= ancestor.vout.len() {
                Err(LedgerError::InvalidTransaction)
            } else {
                Ok(copy_bytes(&ancestor.vout[input.vout as usize].pub_key_hash))
            }
        },
    }
}

/// The coinbase transaction that pays the reward to `locking_hash` and
/// carries `data`, before it has its identifier.
pub open spec fn coinbase_body(locking_hash: Seq<u8>, data: Seq<u8>) -> TransactionView {
    TransactionView {
        id: Seq::empty(),
        vin: seq![
            TxInputView {
                txid: Seq::empty(),
                vout: -1i32,
                signature: data,
                pub_key: Seq::empty(),
            },
        ],
        vout: seq![TxOutputView { value: SUBSIDY, pub_key_hash: locking_hash }],
    }
}

/// What making a coinbase comes to: `EncodingError` where `to` is no
/// address or the transaction cannot be encoded, else the coinbase.
pub open spec fn coinbase_outcome(to: Seq<char>, data: Seq<u8>) -> Result<
    TransactionView,
    LedgerError,
> {
    match locking_hash_of(to) {
        None => Err(LedgerError::EncodingError),
        Some(hash) => if has_digest(coinbase_body(hash, data)) {
            Ok(coinbase_for(hash, data))
        } else {
            Err(LedgerError::EncodingError)
        },
    }
}

/// The coinbase transaction that pays the reward to `locking_hash` and
/// carries `data`.
pub open spec fn coinbase_for(locking_hash: Seq<u8>, data: Seq<u8>) -> TransactionView {
    let body = TransactionView {
        id: Seq::empty(),
        vin: seq![
            TxInputView {
                txid: Seq::empty(),
                vout: -1i32,
                signature: data,
                pub_key: Seq::empty(),
            },
        ],
        vout: seq![TxOutputView { value: SUBSIDY, pub_key_hash: locking_hash }],
    };
    TransactionView { id: tx_digest(body), ..body }
}

impl Transaction {
    /// The reward transaction: one input that spends nothing and carries
    /// `data`, one output that locks the reward to the hash in `to`. Fails
    /// with `EncodingError` where `to` is no address, or where the
    /// transaction cannot be encoded.
    pub fn new_coinbase(to: String, data: String) -> (made: Result<Transaction, LedgerError>)
        ensures
            match coinbase_outcome(to@, encode_utf8(data@)) {
                Ok(coinbase) => made is Ok && made->Ok_0@ == coinbase,
                Err(e) => made is Err && made->Err_0 == e,
            },
    {
        let output = match TXOutput::new(SUBSIDY, to) {
            Ok(output) => output,
            Err(e) => {
                return Err(e);
            },
        };
        let mut vin: Vec<TXInput> = Vec::new();
        vin.push(
            TXInput {
                txid: String::new(),
                vout: -1,
                signature: vstd::slice::slice_to_vec(data.as_str().as_bytes()),
                pub_key: Vec::new(),
            },
        );
        let mut vout: Vec<TXOutput> = Vec::new();
        vout.push(output);
        let mut tx = Transaction { id: String::new(), vin, vout };
        let ghost body = tx@;
        assert(body.vin =~= coinbase_body(output@.pub_key_hash, encode_utf8(data@)).vin);
        assert(body.vout =~= coinbase_body(output@.pub_key_hash, encode_utf8(data@)).vout);
        assert(body == coinbase_body(output@.pub_key_hash, encode_utf8(data@)));
        match tx.hash() {
            Ok(id) => {
                tx.id = id;
                Ok(tx)
            },
            Err(e) => Err(e),
        }
    }

    /// Whether this is a coinbase transaction.
    pub fn is_coinbase(&self) -> (coinbase: bool)
        ensures
            coinbase == is_coinbase_view(self@),
    {
        self.vin.len() == 1 && self.vin[0].txid.as_str().unicode_len() == 0 && self.vin[0].vout
            == -1
    }

    /// The identifier that the content of this transaction gives it;
    /// `EncodingError` where the content cannot be encoded.
    pub fn hash(&self) -> (digest: Result<String, LedgerError>)
        ensures
            match digest {
                Ok(text) => has_digest(self@) && text@ == tx_digest(self@),
                Err(e) => e == LedgerError::EncodingError && !has_digest(self@),
            },
    {
        let coinbase = self.is_coinbase();
        let mut vin: Vec<TXInput> = Vec::new();
        let mut i: usize = 0;
        while i < self.vin.len()
            invariant
                i <= self.vin@.len(),
                vin@.len() == i,
                forall|j: int|
                    0 <= j < i ==> vin@[j]@ == if coinbase {
                        self.vin@[j]@
                    } else {
                        unsigned_input(self.vin@[j]@)
                    },
            decreases self.vin@.len() - i,
        {
            let input = &self.vin[i];
            let signature = if coinbase {
                copy_bytes(&input.signature)
            } else {
                Vec::new()
            };
            vin.push(
                TXInput {
                    txid: input.txid.clone(),
                    vout: input.vout,
                    signature,
                    pub_key: copy_bytes(&input.pub_key),
                },
            );
            i += 1;
        }
        let preimage = Transaction { id: String::new(), vin, vout: clone_outputs(&self.vout) };
        assert(preimage@.vin =~= id_preimage(self@).vin);
        assert(preimage@ == id_preimage(self@));
        match encode_transaction(&preimage) {
            Some(bytes) => Ok(sha256_hex(bytes.as_slice())),
            None => Err(LedgerError::EncodingError),
        }
    }

    /// A copy in which no input carries a signature or a public key.
    pub fn trim_copy(&self) -> (copy: Transaction)
        ensures
            copy@ == trimmed(self@),
    {
        let mut vin: Vec<TXInput> = Vec::new();
        let mut i: usize = 0;
        while i < self.vin.len()
            invariant
                i <= self.vin@.len(),
                vin@.len() == i,
                forall|j: int| 0 <= j < i ==> vin@[j]@ == trimmed_input(self.vin@[j]@),
            decreases self.vin@.len() - i,
        {
            let input = &self.vin[i];
            vin.push(
                TXInput {
                    txid: input.txid.clone(),
                    vout: input.vout,
                    signature: Vec::new(),
                    pub_key: Vec::new(),
                },
            );
            i += 1;
        }
        let copy = Transaction { id: self.id.clone(), vin, vout: clone_outputs(&self.vout) };
        assert(copy@.vin =~= trimmed(self@).vin);
        copy
    }

    /// The copy that is hashed to sign or check input `i`.
    fn signing_copy(&self, i: usize, locking_hash: &Vec<u8>) -> (copy: Transaction)
        requires
            i < self.vin@.len(),
        ensures
            copy@ == signing_preimage(self@, i as int, locking_hash@),
    {
        let mut vin: Vec<TXInput> = Vec::new();
        let mut j: usize = 0;
        while j < self.vin.len()
            invariant
                j <= self.vin@.len(),
                vin@.len() == j,
                forall|k: int|
                    0 <= k < j ==> vin@[k]@ == signing_preimage(
                        self@,
                        i as int,
                        locking_hash@,
                    ).vin[k],
            decreases self.vin@.len() - j,
        {
            let input = &self.vin[j];
            let pub_key = if j == i {
                copy_bytes(locking_hash)
            } else {
                Vec::new()
            };
            vin.push(
                TXInput { txid: input.txid.clone(), vout: input.vout, signature: Vec::new(), pub_key },
            );
            j += 1;
        }
        let copy = Transaction { id: self.id.clone(), vin, vout: clone_outputs(&self.vout) };
        assert(copy@.vin =~= signing_preimage(self@, i as int, locking_hash@).vin);
        copy
    }

    /// Looks up, for every input, the transaction and the output it names.
    /// Says which of the two, if any, is missing for some input.
    fn check_ancestry(&self, prev_txs: &Vec<Transaction>) -> (flaws: (bool, bool))
        ensures
            flaws.0 == !has_ancestors(self@, transactions_view(prev_txs@)),
            flaws.1 == !spends_known_outputs(self@, transactions_view(prev_txs@)),
    {
        let ghost prev = transactions_view(prev_txs@);
        let mut missing = false;
        let mut unknown = false;
        let mut i: usize = 0;
        while i < self.vin.len()
            invariant
                i <= self.vin@.len(),
                prev == transactions_view(prev_txs@),
                !missing <==> forall|j: int|
                    0 <= j < i ==> (#[trigger] find_by_id(prev, self@.vin[j].txid)) is Some,
                !unknown <==> forall|j: int|
                    0 <= j < i ==> (#[trigger] referenced_output(prev, self@.vin[j])) is Some,
            decreases self.vin@.len() - i,
        {
            assert(self@.vin[i as int] == self.vin@[i as int]@);
            match locking_hash_for(prev_txs, &self.vin[i]) {
                Ok(_) => {},
                Err(LedgerError::MissingAncestor) => {
                    missing = true;
                    unknown = true;
                },
                Err(_) => {
                    unknown = true;
                },
            }
            i += 1;
        }
        (missing, unknown)
    }

    /// Signs every input with `private_key`: the signature is made over the
    /// digest of the trimmed copy that carries the locking hash of the spent
    /// output, and the public half of the key is stored beside it. A coinbase
    /// is left as it is. On any failure the transaction is unchanged.
    pub fn sign(&mut self, private_key: &[u8], prev_txs: &Vec<Transaction>) -> (done: Result<
        (),
        LedgerError,
    >)
        ensures
            match sign_outcome(old(self)@, private_key@, transactions_view(prev_txs@)) {
                Ok(tx) => done is Ok && final(self)@ == tx,
                Err(e) => done == Err::<(), LedgerError>(e) && final(self)@ == old(self)@,
            },
    {
        if self.is_coinbase() {
            return Ok(());
        }
        let (missing, unknown) = self.check_ancestry(prev_txs);
        if missing {
            return Err(LedgerError::MissingAncestor);
        }
        if unknown {
            return Err(LedgerError::InvalidTransaction);
        }
        if private_key.len() != SECRET_KEY_LEN {
            return Err(LedgerError::EncodingError);
        }
        let ghost prev = transactions_view(prev_txs@);
        let ghost before = self@;
        let mut vin: Vec<TXInput> = Vec::new();
        let mut i: usize = 0;
        while i < self.vin.len()
            invariant
                i <= self.vin@.len(),
                self@ == before,
                prev == transactions_view(prev_txs@),
                !is_coinbase_view(before),
                has_ancestors(before, prev),
                spends_known_outputs(before, prev),
                private_key@.len() == SECRET_KEY_LEN,
                vin@.len() == i,
                forall|j: int| 0 <= j < i ==> vin@[j]@ == signed_input(before, j, private_key@, prev),
                forall|j: int|
                    0 <= j < i ==> has_digest(
                        #[trigger] signing_preimage(
                            before,
                            j,
                            referenced_output(prev, before.vin[j])->Some_0.pub_key_hash,
                        ),
                    ),
            decreases self.vin@.len() - i,
        {
            assert(self@.vin[i as int] == self.vin@[i as int]@);
            assert(referenced_output(prev, before.vin[i as int]) is Some);
            let locking_hash = match locking_hash_for(prev_txs, &self.vin[i]) {
                Ok(bytes) => bytes,
                Err(e) => {
                    return Err(LedgerError::EncodingError);
                },
            };
            let digest = match self.signing_copy(i, &locking_hash).hash() {
                Ok(text) => text,
                Err(e) => {
                    return Err(e);
                },
            };
            let signature = ed25519_sign(digest.as_str().as_bytes(), private_key);
            let pub_key = vstd::slice::slice_to_vec(
                vstd::slice::slice_subrange(private_key, PUBLIC_KEY_LEN, SECRET_KEY_LEN),
            );
            vin.push(
                TXInput { txid: self.vin[i].txid.clone(), vout: self.vin[i].vout, signature, pub_key },
            );
            i += 1;
        }
        assert(inputs_view(vin@) =~= signed(before, private_key@, prev).vin);
        self.vin = vin;
        Ok(())
    }

    /// Checks the signature of every input against the digest of the trimmed
    /// copy that carries the locking hash of the spent output. A coinbase
    /// verifies as it is. `Ok(false)` says that some input does not verify.
    pub fn verify(&self, prev_txs: &Vec<Transaction>) -> (verdict: Result<bool, LedgerError>)
        ensures
            verdict == verify_outcome(self@, transactions_view(prev_txs@)),
    {
        if self.is_coinbase() {
            return Ok(true);
        }
        let (missing, _) = self.check_ancestry(prev_txs);
        if missing {
            return Err(LedgerError::MissingAncestor);
        }
        let ghost prev = transactions_view(prev_txs@);
        let mut i: usize = 0;
        while i < self.vin.len()
            invariant
                i <= self.vin@.len(),
                prev == transactions_view(prev_txs@),
                !is_coinbase_view(self@),
                has_ancestors(self@, prev),
                checks_from(self@, prev, 0) == checks_from(self@, prev, i as int),
            decreases self.vin@.len() - i,
        {
            let input = &self.vin[i];
            assert(self@.vin[i as int] == input@);
            let locking_hash = match locking_hash_for(prev_txs, input) {
                Ok(bytes) => bytes,
                Err(_) => {
                    return Ok(false);
                },
            };
            if input.pub_key.len() != PUBLIC_KEY_LEN || input.signature.len() != SIGNATURE_LEN {
                return Ok(false);
            }
            let digest = match self.signing_copy(i, &locking_hash).hash() {
                Ok(text) => text,
                Err(e) => {
                    return Err(e);
                },
            };
            if !ed25519_verify(
                digest.as_str().as_bytes(),
                input.pub_key.as_slice(),
                input.signature.as_slice(),
            ) {
                return Ok(false);
            }
            i += 1;
        }
        Ok(true)
    }
}

/// What `find_by_id` finds has the identifier that was asked for.
pub proof fn lemma_found_has_id(txs: Seq<TransactionView>, id: Seq<char>)
    ensures
        find_by_id(txs, id) matches Some(tx) ==> tx.id == id,
    decreases txs.len(),
{
    if txs.len() > 0 && txs[0].id != id {
        lemma_found_has_id(txs.drop_first(), id);
    }
}

/// In one list after another, `find_by_id` looks through the first and
/// then through the second.
pub proof fn lemma_find_in_both(a: Seq<TransactionView>, b: Seq<TransactionView>, id: Seq<char>)
    ensures
        find_by_id(a + b, id) == if find_by_id(a, id) is Some {
            find_by_id(a, id)
        } else {
            find_by_id(b, id)
        },
    decreases a.len(),
{
    if a.len() == 0 {
        assert(a + b =~= b);
    } else {
        assert((a + b)[0] == a[0]);
        assert((a + b).drop_first() =~= a.drop_first() + b);
        if a[0].id != id {
            lemma_find_in_both(a.drop_first(), b, id);
        }
    }
}

/// Where some transaction of the list has the identifier, and all that
/// have it are `tx`, `find_by_id` finds `tx`.
pub proof fn lemma_find_the_one(txs: Seq<TransactionView>, id: Seq<char>, tx: TransactionView)
    requires
        exists|k: int| 0 <= k < txs.len() && (#[trigger] txs[k]).id == id,
        forall|k: int| 0 <= k < txs.len() && (#[trigger] txs[k]).id == id ==> txs[k] == tx,
    ensures
        find_by_id(txs, id) == Some(tx),
    decreases txs.len(),
{
    if txs[0].id != id {
        let rest = txs.drop_first();
        let k = choose|k: int| 0 <= k < txs.len() && (#[trigger] txs[k]).id == id;
        assert(rest[k - 1] == txs[k]);
        assert forall|j: int| 0 <= j < rest.len() && (#[trigger] rest[j]).id == id implies rest[j]
            == tx by {
            assert(rest[j] == txs[j + 1]);
        }
        lemma_find_the_one(rest, id, tx);
    }
}

/// Where `prior` holds, for each input of `tx` in turn, the transaction
/// that `find_by_id` finds for it in `all`, signing and verifying against
/// `prior` come to the same as against `all`.
pub proof fn lemma_prior_stands_for_all(
    tx: TransactionView,
    prior: Seq<TransactionView>,
    all: Seq<TransactionView>,
)
    requires
        prior.len() == tx.vin.len(),
        forall|i: int|
            0 <= i < tx.vin.len() ==> find_by_id(all, (#[trigger] tx.vin[i]).txid) == Some(
                prior[i],
            ),
    ensures
        forall|i: int|
            0 <= i < tx.vin.len() ==> find_by_id(prior, (#[trigger] tx.vin[i]).txid) == find_by_id(
                all,
                tx.vin[i].txid,
            ),
        has_ancestors(tx, prior),
        has_ancestors(tx, all),
        verify_outcome(tx, prior) == verify_outcome(tx, all),
        forall|secret_key: Seq<u8>| #[trigger]
            sign_outcome(tx, secret_key, prior) == sign_outcome(tx, secret_key, all),
{
    assert forall|i: int| 0 <= i < tx.vin.len() implies find_by_id(
        prior,
        (#[trigger] tx.vin[i]).txid,
    ) == find_by_id(all, tx.vin[i].txid) by {
        let id = tx.vin[i].txid;
        lemma_found_has_id(all, id);
        assert(prior[i].id == id);
        assert forall|k: int| 0 <= k < prior.len() && (#[trigger] prior[k]).id == id implies prior[k]
            == prior[i] by {
            lemma_found_has_id(all, tx.vin[k].txid);
            assert(find_by_id(all, tx.vin[k].txid) == Some(prior[k]));
        }
        lemma_find_the_one(prior, id, prior[i]);
    }
    assert forall|i: int| 0 <= i < tx.vin.len() implies referenced_output(
        prior,
        #[trigger] tx.vin[i],
    ) == referenced_output(all, tx.vin[i]) by {
        assert(find_by_id(prior, tx.vin[i].txid) == find_by_id(all, tx.vin[i].txid));
    }
    assert(has_ancestors(tx, prior)) by {
        assert forall|i: int| 0 <= i < tx.vin.len() implies (#[trigger] find_by_id(
            prior,
            tx.vin[i].txid,
        )) is Some by {
            assert(find_by_id(all, tx.vin[i].txid) == Some(prior[i]));
        }
    }
    assert(has_ancestors(tx, all)) by {
        assert forall|i: int| 0 <= i < tx.vin.len() implies (#[trigger] find_by_id(
            all,
            tx.vin[i].txid,
        )) is Some by {
            assert(find_by_id(all, tx.vin[i].txid) == Some(prior[i]));
        }
    }
    lemma_same_checks(tx, prior, all, 0);
    assert(all_signable(tx, prior) == all_signable(tx, all)) by {
        assert forall|i: int| 0 <= i < tx.vin.len() implies signing_preimage(
            tx,
            i,
            referenced_output(prior, tx.vin[i])->Some_0.pub_key_hash,
        ) == signing_preimage(tx, i, referenced_output(all, tx.vin[i])->Some_0.pub_key_hash) by {
            assert(referenced_output(prior, tx.vin[i]) == referenced_output(all, tx.vin[i]));
        }
    }
    assert(spends_known_outputs(tx, prior) == spends_known_outputs(tx, all)) by {
        assert forall|i: int| 0 <= i < tx.vin.len() implies referenced_output(
            prior,
            #[trigger] tx.vin[i],
        ) is Some == referenced_output(all, tx.vin[i]) is Some by {}
    }
    assert forall|secret_key: Seq<u8>| #[trigger]
        sign_outcome(tx, secret_key, prior) == sign_outcome(tx, secret_key, all) by {
        assert(signed(tx, secret_key, prior).vin =~= signed(tx, secret_key, all).vin) by {
            assert forall|i: int| 0 <= i < tx.vin.len() implies signed_input(
                tx,
                i,
                secret_key,
                prior,
            ) == signed_input(tx, i, secret_key, all) by {
                assert(referenced_output(prior, tx.vin[i]) == referenced_output(all, tx.vin[i]));
            }
        }
    }
}

/// Two ancestries in which every input names the same output give the
/// same checks.
pub proof fn lemma_same_checks(
    tx: TransactionView,
    first: Seq<TransactionView>,
    second: Seq<TransactionView>,
    i: int,
)
    requires
        forall|j: int|
            0 <= j < tx.vin.len() ==> referenced_output(first, #[trigger] tx.vin[j])
                == referenced_output(second, tx.vin[j]),
    ensures
        checks_from(tx, first, i) == checks_from(tx, second, i),
    decreases tx.vin.len() - i,
{
    if 0 <= i < tx.vin.len() {
        assert(referenced_output(first, tx.vin[i]) == referenced_output(second, tx.vin[i]));
        lemma_same_checks(tx, first, second, i + 1);
    }
}

/// Where the check of every input from `i` on gives `Ok(true)`, so do the
/// checks together.
pub proof fn lemma_all_checks_pass(tx: TransactionView, prev: Seq<TransactionView>, i: int)
    requires
        forall|j: int|
            i <= j < tx.vin.len() && 0 <= j ==> #[trigger] input_check(tx, j, prev) == Ok::<
                bool,
                LedgerError,
            >(true),
    ensures
        checks_from(tx, prev, i) == Ok::<bool, LedgerError>(true),
    decreases tx.vin.len() - i,
{
    if 0 <= i < tx.vin.len() {
        assert(input_check(tx, i, prev) == Ok::<bool, LedgerError>(true));
        lemma_all_checks_pass(tx, prev, i + 1);
    }
}

/// A transaction that `sign` has signed passes `verify` against the same
/// ancestry, provided the secret key is one whose signatures its own public
/// half accepts.
pub proof fn signed_transaction_verifies(
    tx: TransactionView,
    secret_key: Seq<u8>,
    prev: Seq<TransactionView>,
)
    ensures
        signs_for_itself(secret_key) ==> (sign_outcome(tx, secret_key, prev) matches Ok(after)
            ==> verify_outcome(after, prev) == Ok::<bool, LedgerError>(true)),
{
    if signs_for_itself(secret_key) && sign_outcome(tx, secret_key, prev) is Ok && !is_coinbase_view(
        tx,
    ) {
        let after = signed(tx, secret_key, prev);
        assert(after.vin.len() == tx.vin.len());
        assert forall|i: int| 0 <= i < after.vin.len() implies #[trigger] input_check(
            after,
            i,
            prev,
        ) == Ok::<bool, LedgerError>(true) by {
            assert(referenced_output(prev, tx.vin[i]) is Some);
            let output = referenced_output(prev, tx.vin[i])->Some_0;
            assert(referenced_output(prev, after.vin[i]) == Some(output));
            assert(signing_preimage(after, i, output.pub_key_hash).vin =~= signing_preimage(
                tx,
                i,
                output.pub_key_hash,
            ).vin);
            assert(signing_preimage(after, i, output.pub_key_hash) == signing_preimage(
                tx,
                i,
                output.pub_key_hash,
            ));
            let message = signing_message(tx, i, output.pub_key_hash);
            assert(ed25519_signature(message, secret_key).len() == SIGNATURE_LEN);
            assert(has_digest(
                signing_preimage(tx, i, referenced_output(prev, tx.vin[i])->Some_0.pub_key_hash),
            ));
        }
        lemma_all_checks_pass(after, prev, 0);
        assert forall|i: int| 0 <= i < after.vin.len() implies (#[trigger] find_by_id(
            prev,
            after.vin[i].txid,
        )) is Some by {
            assert(find_by_id(prev, tx.vin[i].txid) is Some);
        }
    }
}

} // verus!
