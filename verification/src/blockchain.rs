use crate::address::locking_hash_of;
use crate::block::{blocks_view, seal_outcome, sealed, Block, BlockView, HASH_LEN};
use crate::encoding::{block_decoding, block_encoding, decode_block, encode_block};
use crate::errors::LedgerError;
use crate::soundness::{
    lemma_block_key_is_no_tip_key, lemma_chain_grows, lemma_linked_walk_avoids,
    lemma_sound_chain_grows, sound_chain, walk_avoids,
};
use crate::store::{db_entries, db_flush, db_get, db_insert};
use crate::text::{lemma_encoding_tells_texts_apart, text_from_utf8};
use crate::transaction::{
    coinbase_for, coinbase_outcome, find_by_id, has_ancestors, is_coinbase_view, lemma_find_in_both,
    lemma_prior_stands_for_all, position_of, sign_outcome, transactions_view, verify_outcome,
    Transaction, TransactionView,
};
use crate::utxo_index::{chain_utxos, UtxoIndex};
use vstd::prelude::*;
use vstd::string::*;
use vstd::utf8::encode_utf8;

verus! {

/// The key under which the store keeps the hash of the tip.
pub const TIP_KEY: &'static str = "LAST";

/// The data that the coinbase of the first block carries.
pub const GENESIS_COINBASE_DATA: &'static str =
    "The Times 03/Jan/2009 Chancellor on brink of second bailout for banks";

/// The greatest number of blocks that a walk visits: more than a chain
/// can hold, with heights that fit 32 bits.
pub const MAX_STEPS: u64 = 0x1_0000_0000;

/// What the store maps: keys to the bytes kept under them.
pub type Entries = Map<Seq<u8>, Seq<u8>>;

/// The chain of blocks in a key-value store: each block under its hash, and
/// the hash of the tip under `TIP_KEY`. The chain takes the store for its
/// own: nothing else may write to it while the chain is in use.
#[derive(Debug)]
pub struct Blockchain {
    current_hash: String,
    db: sled::Db,
}

/// A walk along the chain, from a block towards the first one.
pub struct BlockchainIter<'a> {
    current_hash: String,
    steps_left: u64,
    bc: &'a Blockchain,
}

/// The key under which a block with the hash `hash` is kept.
pub open spec fn key_of(hash: Seq<char>) -> Seq<u8> {
    encode_utf8(hash)
}

/// The key under which the hash of the tip is kept.
pub open spec fn tip_key() -> Seq<u8> {
    encode_utf8(TIP_KEY@)
}

/// The block that is kept under `key`: `NotFound` where the store has no
/// such key, `EncodingError` where the bytes under it are no block.
pub open spec fn block_under(entries: Entries, key: Seq<u8>) -> Result<BlockView, LedgerError> {
    if !entries.contains_key(key) {
        Err(LedgerError::NotFound)
    } else {
        match block_decoding(entries[key]) {
            Some(block) => Ok(block),
            None => Err(LedgerError::EncodingError),
        }
    }
}

/// The height of the block that the tip pointer names; -1 where the store
/// has no tip pointer.
pub open spec fn best_height_of(entries: Entries) -> Result<i32, LedgerError> {
    if !entries.contains_key(tip_key()) {
        Ok(-1i32)
    } else {
        match block_under(entries, entries[tip_key()]) {
            Ok(block) => Ok(block.height),
            Err(e) => Err(e),
        }
    }
}

/// One step of a walk that stands at the hash `hash` with `steps_left`
/// steps to go: the walk is at its end at an empty hash and at a hash that
/// the store lacks; bytes that are no block give `EncodingError`; a block
/// with no step left for it gives `EndlessChain`; else the step visits the
/// block under the hash.
pub open spec fn step(entries: Entries, hash: Seq<char>, steps_left: nat) -> Result<
    Option<BlockView>,
    LedgerError,
> {
    if hash.len() == 0 || !entries.contains_key(key_of(hash)) {
        Ok(None)
    } else {
        match block_decoding(entries[key_of(hash)]) {
            None => Err(LedgerError::EncodingError),
            Some(block) => if steps_left == 0 {
                Err(LedgerError::EndlessChain)
            } else {
                Ok(Some(block))
            },
        }
    }
}

/// The blocks that a walk visits, starting at the block with the hash
/// `hash` and following, block by block, the hash of the block before,
/// whatever the heights: step by step until a step ends the walk or fails.
pub open spec fn walk(entries: Entries, hash: Seq<char>, steps_left: nat) -> Result<
    Seq<BlockView>,
    LedgerError,
>
    decreases steps_left,
{
    match step(entries, hash, steps_left) {
        Err(e) => Err(e),
        Ok(None) => Ok(Seq::empty()),
        Ok(Some(block)) => followed_by(
            seq![block],
            walk(entries, block.prev_block_hash, (steps_left - 1) as nat),
        ),
    }
}

/// `blocks`, and then what `rest` holds.
pub open spec fn followed_by(blocks: Seq<BlockView>, rest: Result<Seq<BlockView>, LedgerError>)
    -> Result<Seq<BlockView>, LedgerError> {
    match rest {
        Ok(more) => Ok(blocks + more),
        Err(e) => Err(e),
    }
}

/// The transactions of a chain, block by block.
pub open spec fn chain_transactions(chain: Seq<BlockView>) -> Seq<TransactionView>
    decreases chain.len(),
{
    if chain.len() == 0 {
        Seq::empty()
    } else {
        chain.first().transactions + chain_transactions(chain.drop_first())
    }
}

/// The store and the tip after a block from elsewhere is accepted. A block
/// that cannot be encoded gives `EncodingError`. A block whose hash the
/// store has changes nothing. Another is put under its hash, and becomes
/// the tip where it lies above the best height; the best height is read
/// once the block is in the store.
pub open spec fn accepted(entries: Entries, tip: Seq<char>, block: BlockView) -> Result<
    (Entries, Seq<char>),
    LedgerError,
> {
    let key = key_of(block.hash);
    match block_encoding(block) {
        None => Err(LedgerError::EncodingError),
        Some(bytes) => if entries.contains_key(key) {
            Ok((entries, tip))
        } else {
            let stored = entries.insert(key, bytes);
            match best_height_of(stored) {
                Err(e) => Err(e),
                Ok(best) => if block.height > best {
                    Ok((stored.insert(tip_key(), key), block.hash))
                } else {
                    Ok((stored, tip))
                },
            }
        },
    }
}

/// The store where accepting a block fails: as it was where the block
/// cannot be encoded, else with the block put under its hash.
pub open spec fn left_by_refusal(entries: Entries, block: BlockView) -> Entries {
    match block_encoding(block) {
        None => entries,
        Some(bytes) => if entries.contains_key(key_of(block.hash)) {
            entries
        } else {
            entries.insert(key_of(block.hash), bytes)
        },
    }
}

/// Accepting a block a second time changes neither the store nor the tip.
pub proof fn accepting_twice_changes_nothing(entries: Entries, tip: Seq<char>, block: BlockView)
    ensures
        accepted(entries, tip, block) matches Ok(once) ==> accepted(once.0, once.1, block) == Ok::<
            (Entries, Seq<char>),
            LedgerError,
        >(once),
{
}

/// The first of the transactions from `i` on that does not verify against
/// the chain decides why nothing is mined: `InvalidTransaction` where it
/// verifies false, else the error of its verification. None where all
/// verify.
pub open spec fn refusal_from(
    chain: Result<Seq<BlockView>, LedgerError>,
    txs: Seq<TransactionView>,
    i: int,
) -> Option<LedgerError>
    decreases txs.len() - i,
{
    if i < 0 || i >= txs.len() {
        None
    } else {
        match verification(chain, txs[i]) {
            Ok(valid) => if valid {
                refusal_from(chain, txs, i + 1)
            } else {
                Some(LedgerError::InvalidTransaction)
            },
            Err(e) => Some(e),
        }
    }
}

/// Why nothing is mined, as far as the store and the transactions decide
/// it: a transaction that does not verify; then no tip pointer, which
/// gives `NotInitialized`; a tip pointer that is no text, `EncodingError`;
/// a best height that cannot be read; and a best height above which there
/// is none, `SealFailure`. None where mining goes on to seal.
pub open spec fn mine_refusal(
    entries: Entries,
    chain: Result<Seq<BlockView>, LedgerError>,
    txs: Seq<TransactionView>,
) -> Option<LedgerError> {
    match refusal_from(chain, txs, 0) {
        Some(e) => Some(e),
        None => if !entries.contains_key(tip_key()) {
            Some(LedgerError::NotInitialized)
        } else if !vstd::utf8::valid_utf8(entries[tip_key()]) {
            Some(LedgerError::EncodingError)
        } else {
            match best_height_of(entries) {
                Err(e) => Some(e),
                Ok(best) => if best == i32::MAX {
                    Some(LedgerError::SealFailure)
                } else {
                    None
                },
            }
        },
    }
}

/// What mining comes to at the time `timestamp`: the refusal, where there
/// is one; else what sealing the transactions behind the tip comes to, with
/// `AlreadyExists` where the store has something under the hash of the new
/// block, and `EncodingError` where the new block cannot be encoded.
pub open spec fn mining(
    entries: Entries,
    chain: Result<Seq<BlockView>, LedgerError>,
    txs: Seq<TransactionView>,
    timestamp: u128,
) -> Result<BlockView, LedgerError> {
    match mine_refusal(entries, chain, txs) {
        Some(e) => Err(e),
        None => match seal_outcome(
            txs,
            vstd::utf8::decode_utf8(entries[tip_key()]),
            (best_height_of(entries)->Ok_0 + 1) as i32,
            timestamp,
        ) {
            Err(e) => Err(e),
            Ok(block) => if entries.contains_key(key_of(block.hash)) {
                Err(LedgerError::AlreadyExists)
            } else if block_encoding(block) is None {
                Err(LedgerError::EncodingError)
            } else {
                Ok(block)
            },
        },
    }
}

/// What making the first block of a chain for `address` comes to at the
/// time `timestamp`.
pub open spec fn founding(address: Seq<char>, timestamp: u128) -> Result<BlockView, LedgerError> {
    match coinbase_outcome(address, encode_utf8(GENESIS_COINBASE_DATA@)) {
        Err(e) => Err(e),
        Ok(coinbase) => match seal_outcome(seq![coinbase], Seq::empty(), 0, timestamp) {
            Err(e) => Err(e),
            Ok(block) => if block_encoding(block) is None {
                Err(LedgerError::EncodingError)
            } else {
                Ok(block)
            },
        },
    }
}

/// The transaction with the identifier `id` that comes first in the chain.
pub open spec fn found_in(chain: Result<Seq<BlockView>, LedgerError>, id: Seq<char>) -> Result<
    TransactionView,
    LedgerError,
> {
    match chain {
        Ok(blocks) => match find_by_id(chain_transactions(blocks), id) {
            Some(tx) => Ok(tx),
            None => Err(LedgerError::NotFound),
        },
        Err(e) => Err(e),
    }
}

/// What verifying `tx` against the chain comes to: a coinbase verifies as
/// it is; for another, the chain must be readable and hold a transaction
/// for every input, or the answer is the error of the chain or `NotFound`.
pub open spec fn verification(chain: Result<Seq<BlockView>, LedgerError>, tx: TransactionView)
    -> Result<bool, LedgerError> {
    if is_coinbase_view(tx) {
        Ok(true)
    } else {
        match chain {
            Err(e) => Err(e),
            Ok(blocks) => if has_ancestors(tx, chain_transactions(blocks)) {
                verify_outcome(tx, chain_transactions(blocks))
            } else {
                Err(LedgerError::NotFound)
            },
        }
    }
}

/// What signing `tx` against the chain comes to, in the same way.
pub open spec fn signing(
    chain: Result<Seq<BlockView>, LedgerError>,
    tx: TransactionView,
    secret_key: Seq<u8>,
) -> Result<TransactionView, LedgerError> {
    if is_coinbase_view(tx) {
        Ok(tx)
    } else {
        match chain {
            Err(e) => Err(e),
            Ok(blocks) => if has_ancestors(tx, chain_transactions(blocks)) {
                sign_outcome(tx, secret_key, chain_transactions(blocks))
            } else {
                Err(LedgerError::NotFound)
            },
        }
    }
}

/// The transaction with the identifier `id` that comes first in `blocks`.
pub fn find_in_blocks(blocks: &Vec<Block>, id: &String) -> (found: Option<Transaction>)
    ensures
        match found {
            Some(tx) => find_by_id(chain_transactions(blocks_view(blocks@)), id@) == Some(tx@),
            None => find_by_id(chain_transactions(blocks_view(blocks@)), id@) is None,
        },
{
    let ghost all = blocks_view(blocks@);
    let mut i: usize = 0;
    assert(all.skip(0) =~= all);
    while i < blocks.len()
        invariant
            i <= blocks@.len(),
            all == blocks_view(blocks@),
            find_by_id(chain_transactions(all), id@) == find_by_id(
                chain_transactions(all.skip(i as int)),
                id@,
            ),
        decreases blocks@.len() - i,
    {
        let txs = blocks[i].get_transaction();
        proof {
            assert(all.skip(i as int).first() == blocks@[i as int]@);
            assert(all.skip(i as int).drop_first() =~= all.skip(i + 1));
            lemma_find_in_both(
                transactions_view(txs@),
                chain_transactions(all.skip(i + 1)),
                id@,
            );
        }
        match position_of(txs, id) {
            Some(k) => {
                return Some(txs[k].clone());
            },
            None => {},
        }
        i += 1;
    }
    None
}

impl Blockchain {
    /// The transaction with the identifier `id` that comes first on the
    /// way from the tip to the first block; `NotFound` where the chain has
    /// none.
    pub fn find_transaction(&self, id: &str) -> (found: Result<Transaction, LedgerError>)
        ensures
            match found {
                Ok(tx) => found_in(self.chain(), id@) == Ok::<TransactionView, LedgerError>(tx@),
                Err(e) => e == LedgerError::StorageFailure || found_in(self.chain(), id@) == Err::<
                    TransactionView,
                    LedgerError,
                >(e),
            },
            self.tip().len() == 0 ==> found is Err && found->Err_0 == LedgerError::NotFound,
    {
        let blocks = match self.blocks() {
            Ok(blocks) => blocks,
            Err(e) => {
                return Err(e);
            },
        };
        let wanted = String::from_str(id);
        match find_in_blocks(&blocks, &wanted) {
            Some(tx) => Ok(tx),
            None => Err(LedgerError::NotFound),
        }
    }

    /// For each input of `tx` in turn, the transaction that it names.
    /// `NotFound` says that the chain lacks one of them.
    fn get_prev_txs(&self, tx: &Transaction) -> (prior: Result<Vec<Transaction>, LedgerError>)
        ensures
            match prior {
                Ok(txs) => {
                    &&& self.chain() matches Ok(blocks)
                    &&& txs@.len() == tx@.vin.len()
                    &&& forall|i: int|
                        0 <= i < tx@.vin.len() ==> find_by_id(
                            chain_transactions(blocks),
                            (#[trigger] tx@.vin[i]).txid,
                        ) == Some(txs@[i]@)
                },
                Err(e) => {
                    ||| e == LedgerError::StorageFailure
                    ||| self.chain() == Err::<Seq<BlockView>, LedgerError>(e)
                    ||| e == LedgerError::NotFound && self.chain() is Ok && !has_ancestors(
                        tx@,
                        chain_transactions(self.chain()->Ok_0),
                    )
                },
            },
            self.tip().len() == 0 ==> (prior matches Err(e) ==> e == LedgerError::NotFound),
    {
        let blocks = match self.blocks() {
            Ok(blocks) => blocks,
            Err(e) => {
                return Err(e);
            },
        };
        let ghost all = chain_transactions(blocks_view(blocks@));
        let mut prior: Vec<Transaction> = Vec::new();
        let mut i: usize = 0;
        while i < tx.vin.len()
            invariant
                i <= tx.vin@.len(),
                all == chain_transactions(blocks_view(blocks@)),
                self.chain() == Ok::<Seq<BlockView>, LedgerError>(blocks_view(blocks@)),
                prior@.len() == i,
                forall|j: int|
                    0 <= j < i ==> find_by_id(all, (#[trigger] tx@.vin[j]).txid) == Some(
                        prior@[j]@,
                    ),
            decreases tx.vin@.len() - i,
        {
            assert(tx@.vin[i as int] == tx.vin@[i as int]@);
            match find_in_blocks(&blocks, &tx.vin[i].txid) {
                Some(found) => {
                    prior.push(found);
                },
                None => {
                    assert(find_by_id(all, tx@.vin[i as int].txid) is None);
                    return Err(LedgerError::NotFound);
                },
            }
            i += 1;
        }
        Ok(prior)
    }

    /// Signs `tx` with `private_key` against the transactions of the chain
    /// that its inputs name. A coinbase is left as it is, and the store is
    /// not read for it. On any failure `tx` is unchanged.
    pub fn sign_transaction(&self, tx: &mut Transaction, private_key: &[u8]) -> (done: Result<
        (),
        LedgerError,
    >)
        ensures
            match done {
                Ok(()) => signing(self.chain(), old(tx)@, private_key@) == Ok::<
                    TransactionView,
                    LedgerError,
                >(final(tx)@),
                Err(e) => final(tx)@ == old(tx)@ && (e == LedgerError::StorageFailure || signing(
                    self.chain(),
                    old(tx)@,
                    private_key@,
                ) == Err::<TransactionView, LedgerError>(e)),
            },
            is_coinbase_view(old(tx)@) ==> done is Ok && final(tx)@ == old(tx)@,
            self.tip().len() == 0 ==> (done matches Err(e) ==> signing(
                self.chain(),
                old(tx)@,
                private_key@,
            ) == Err::<TransactionView, LedgerError>(e)),
    {
        if tx.is_coinbase() {
            return Ok(());
        }
        let prior = match self.get_prev_txs(tx) {
            Ok(prior) => prior,
            Err(e) => {
                return Err(e);
            },
        };
        proof {
            lemma_prior_stands_for_all(
                tx@,
                transactions_view(prior@),
                chain_transactions(self.chain()->Ok_0),
            );
        }
        tx.sign(private_key, &prior)
    }

    /// Verifies `tx` against the transactions of the chain that its inputs
    /// name. A coinbase verifies as it is, and the store is not read for
    /// it. `Ok(false)` says that some input does not verify.
    pub fn verify_transaction(&self, tx: &Transaction) -> (verdict: Result<bool, LedgerError>)
        ensures
            verdict == verification(self.chain(), tx@) || verdict == Err::<bool, LedgerError>(
                LedgerError::StorageFailure,
            ),
            is_coinbase_view(tx@) ==> verdict == Ok::<bool, LedgerError>(true),
            self.tip().len() == 0 ==> verdict == verification(self.chain(), tx@),
    {
        if tx.is_coinbase() {
            return Ok(true);
        }
        let prior = match self.get_prev_txs(tx) {
            Ok(prior) => prior,
            Err(e) => {
                return Err(e);
            },
        };
        proof {
            lemma_prior_stands_for_all(
                tx@,
                transactions_view(prior@),
                chain_transactions(self.chain()->Ok_0),
            );
        }
        tx.verify(&prior)
    }

    /// The hashes of the blocks from the tip to the first one.
    pub fn get_block_hashs(&self) -> (hashes: Result<Vec<String>, LedgerError>)
        ensures
            match hashes {
                Ok(list) => self.chain() matches Ok(blocks) && list@.len() == blocks.len()
                    && forall|i: int| 0 <= i < blocks.len() ==> (#[trigger] list@[i])@ == blocks[i].hash,
                Err(e) => e == LedgerError::StorageFailure || self.chain() == Err::<
                    Seq<BlockView>,
                    LedgerError,
                >(e),
            },
            self.tip().len() == 0 ==> hashes is Ok && hashes->Ok_0@.len() == 0,
    {
        let blocks = match self.blocks() {
            Ok(blocks) => blocks,
            Err(e) => {
                return Err(e);
            },
        };
        let mut list: Vec<String> = Vec::new();
        let mut i: usize = 0;
        while i < blocks.len()
            invariant
                i <= blocks@.len(),
                list@.len() == i,
                forall|j: int| 0 <= j < i ==> (#[trigger] list@[j])@ == blocks@[j]@.hash,
            decreases blocks@.len() - i,
        {
            list.push(blocks[i].get_hash());
            i += 1;
        }
        Ok(list)
    }

    /// The unspent outputs of the chain, found by going through all of its
    /// blocks.
    pub fn find_utxo(&self) -> (found: Result<UtxoIndex, LedgerError>)
        ensures
            match found {
                Ok(index) => self.chain() matches Ok(blocks) && index.wf() && index.utxos()
                    == chain_utxos(blocks),
                Err(e) => e == LedgerError::StorageFailure || self.chain() == Err::<
                    Seq<BlockView>,
                    LedgerError,
                >(e),
            },
            self.tip().len() == 0 ==> found is Ok,
    {
        match self.blocks() {
            Ok(blocks) => Ok(UtxoIndex::rebuild(&blocks)),
            Err(e) => Err(e),
        }
    }

    /// The store holds a sound chain that ends in the tip of this handle.
    pub open spec fn sound(&self) -> bool {
        sound_chain(self.entries(), self.tip())
    }

    /// The tip pointer of the store names the tip of this handle, and the
    /// store has something under the hash of the tip.
    pub open spec fn anchored(&self) -> bool {
        &&& self.entries().contains_key(tip_key())
        &&& self.entries()[tip_key()] == key_of(self.tip())
        &&& self.entries().contains_key(key_of(self.tip()))
    }

    /// Starts a chain in `db`: seals a first block whose coinbase pays the
    /// reward to `address`, puts it into the store and points the tip at
    /// it. `AlreadyExists` says that the store has a tip pointer already;
    /// any error other than `StorageFailure` comes before the store is
    /// written.
    pub fn create_blockchain(db: sled::Db, address: String) -> (made: Result<
        Blockchain,
        LedgerError,
    >)
        ensures
            match made {
                Ok(bc) => {
                    &&& !db_entries(db).contains_key(tip_key())
                    &&& locking_hash_of(address@) matches Some(hash)
                    &&& bc.chain() matches Ok(chain)
                    &&& chain.len() == 1
                    &&& chain[0].height == 0
                    &&& chain[0].hash == bc.tip()
                    &&& chain[0].transactions == seq![
                        coinbase_for(hash, encode_utf8(GENESIS_COINBASE_DATA@)),
                    ]
                    &&& founding(address@, chain[0].timestamp) == Ok::<BlockView, LedgerError>(
                        chain[0],
                    )
                    &&& bc.entries() == db_entries(db).insert(
                        key_of(bc.tip()),
                        block_encoding(chain[0])->Some_0,
                    ).insert(tip_key(), key_of(bc.tip()))
                    &&& bc.sound()
                    &&& bc.anchored()
                },
                Err(e) => {
                    ||| e == LedgerError::StorageFailure
                    ||| e == LedgerError::AlreadyExists && db_entries(db).contains_key(tip_key())
                    ||| !db_entries(db).contains_key(tip_key()) && exists|timestamp: u128|
                        #[trigger] founding(address@, timestamp) == Err::<BlockView, LedgerError>(e)
                },
            },
            db_entries(db).contains_key(tip_key()) ==> made is Err,
            coinbase_outcome(address@, encode_utf8(GENESIS_COINBASE_DATA@)) is Err ==> made is Err,
    {
        let mut db = db;
        let ghost start = db_entries(db);
        match db_get(&db, TIP_KEY.as_bytes()) {
            Ok(None) => {},
            Ok(Some(_)) => {
                return Err(LedgerError::AlreadyExists);
            },
            Err(_) => {
                return Err(LedgerError::StorageFailure);
            },
        }
        let coinbase = match Transaction::new_coinbase(
            address,
            String::from_str(GENESIS_COINBASE_DATA),
        ) {
            Ok(tx) => tx,
            Err(e) => {
                assert(founding(address@, 0) == Err::<BlockView, LedgerError>(e));
                return Err(e);
            },
        };
        let genesis = match Block::new_genesis_block(coinbase) {
            Ok(block) => block,
            Err(e) => {
                proof {
                    let timestamp = choose|timestamp: u128|
                        #[trigger] seal_outcome(seq![coinbase@], Seq::empty(), 0, timestamp) == Err::<
                            BlockView,
                            LedgerError,
                        >(e);
                    assert(founding(address@, timestamp) == Err::<BlockView, LedgerError>(e));
                }
                return Err(e);
            },
        };
        let bytes = match encode_block(&genesis) {
            Some(bytes) => bytes,
            None => {
                assert(founding(address@, genesis@.timestamp) == Err::<BlockView, LedgerError>(
                    LedgerError::EncodingError,
                ));
                return Err(LedgerError::EncodingError);
            },
        };
        let hash = genesis.get_hash();
        match db_insert(&mut db, hash.as_str().as_bytes(), bytes.as_slice()) {
            Ok(()) => {},
            Err(_) => {
                return Err(LedgerError::StorageFailure);
            },
        }
        match db_insert(&mut db, TIP_KEY.as_bytes(), hash.as_str().as_bytes()) {
            Ok(()) => {},
            Err(_) => {
                return Err(LedgerError::StorageFailure);
            },
        }
        match db_flush(&mut db) {
            Ok(()) => {},
            Err(_) => {
                return Err(LedgerError::StorageFailure);
            },
        }
        let bc = Blockchain { current_hash: hash, db };
        proof {
            let key = key_of(genesis@.hash);
            lemma_block_key_is_no_tip_key(genesis@.hash);
            assert(bc.entries() == start.insert(key, bytes@).insert(tip_key(), key));
            assert(bc.entries()[key] == bytes@);
            assert(block_under(bc.entries(), key) == Ok::<BlockView, LedgerError>(genesis@));
            assert(step(bc.entries(), genesis@.hash, MAX_STEPS as nat) == Ok::<
                Option<BlockView>,
                LedgerError,
            >(Some(genesis@)));
            assert(walk(bc.entries(), genesis@.prev_block_hash, (MAX_STEPS - 1) as nat) == Ok::<
                Seq<BlockView>,
                LedgerError,
            >(Seq::empty()));
            assert(seq![genesis@] + Seq::<BlockView>::empty() =~= seq![genesis@]);
            assert(bc.chain() == Ok::<Seq<BlockView>, LedgerError>(seq![genesis@]));
            assert(founding(address@, genesis@.timestamp) == Ok::<BlockView, LedgerError>(
                genesis@,
            ));
        }
        Ok(bc)
    }

    /// Verifies `transactions` against the chain, in their order, seals
    /// them into the block that follows the tip, puts the block into the
    /// store and points the tip at it. `InvalidTransaction` says that a
    /// transaction does not verify, or that there is none;
    /// `NotInitialized` that the store has no tip pointer; `AlreadyExists`
    /// that the store has something under the hash of the new block
    /// already; `SealFailure` that no nonce seals the block, or that the
    /// tip lies at the greatest height. Whatever fails before the store is
    /// written leaves the store and the tip as they were; after a failure
    /// of the store itself the tip of this handle is as it was, and of the
    /// store nothing is known.
    pub fn mine_block(&mut self, transactions: Vec<Transaction>) -> (mined: Result<
        Block,
        LedgerError,
    >)
        ensures
            final(self).tip() == old(self).tip() || mined is Ok,
            match mined {
                Ok(block) => {
                    &&& mining(
                        old(self).entries(),
                        old(self).chain(),
                        transactions_view(transactions@),
                        block@.timestamp,
                    ) == Ok::<BlockView, LedgerError>(block@)
                    &&& sealed(block@)
                    &&& block@.hash.len() == HASH_LEN
                    &&& final(self).entries() == old(self).entries().insert(
                        key_of(block@.hash),
                        block_encoding(block@)->Some_0,
                    ).insert(tip_key(), key_of(block@.hash))
                    &&& final(self).tip() == block@.hash
                    &&& block_under(final(self).entries(), key_of(block@.hash)) == Ok::<
                        BlockView,
                        LedgerError,
                    >(block@)
                    &&& final(self).anchored()
                    &&& old(self).sound() ==> final(self).sound() && final(self).chain() == Ok::<
                        Seq<BlockView>,
                        LedgerError,
                    >(seq![block@] + old(self).chain()->Ok_0) && walk_avoids(
                        old(self).entries(),
                        block@.prev_block_hash,
                        (MAX_STEPS - 1) as nat,
                        key_of(block@.hash),
                    )
                    &&& walk_avoids(
                        old(self).entries(),
                        block@.prev_block_hash,
                        (MAX_STEPS - 1) as nat,
                        key_of(block@.hash),
                    ) ==> final(self).chain() == Ok::<Seq<BlockView>, LedgerError>(
                        seq![block@] + walk(
                            old(self).entries(),
                            block@.prev_block_hash,
                            MAX_STEPS as nat,
                        )->Ok_0,
                    )
                    &&& old(self).anchored() ==> block@.prev_block_hash == old(self).tip()
                },
                Err(e) => e == LedgerError::StorageFailure || {
                    &&& final(self).entries() == old(self).entries()
                    &&& exists|timestamp: u128|
                        #[trigger] mining(
                            old(self).entries(),
                            old(self).chain(),
                            transactions_view(transactions@),
                            timestamp,
                        ) == Err::<BlockView, LedgerError>(e)
                },
            },
            mine_refusal(
                old(self).entries(),
                old(self).chain(),
                transactions_view(transactions@),
            ) matches Some(e) ==> mined is Err && (mined->Err_0 == e || mined->Err_0
                == LedgerError::StorageFailure),
            transactions@.len() == 0 ==> mined is Err,
    {
        let ghost start = self.entries();
        let ghost tip = self.tip();
        let ghost chain = self.chain();
        let ghost txs = transactions_view(transactions@);
        let mut i: usize = 0;
        while i < transactions.len()
            invariant
                i <= transactions@.len(),
                self.entries() == start,
                self.tip() == tip,
                self.chain() == chain,
                txs == transactions_view(transactions@),
                refusal_from(chain, txs, 0) == refusal_from(chain, txs, i as int),
            decreases transactions@.len() - i,
        {
            assert(txs[i as int] == transactions@[i as int]@);
            match self.verify_transaction(&transactions[i]) {
                Ok(true) => {},
                Ok(false) => {
                    assert(mining(start, chain, txs, 0) == Err::<BlockView, LedgerError>(
                        LedgerError::InvalidTransaction,
                    ));
                    return Err(LedgerError::InvalidTransaction);
                },
                Err(e) => {
                    assert(e == LedgerError::StorageFailure || mining(start, chain, txs, 0) == Err::<
                        BlockView,
                        LedgerError,
                    >(e));
                    return Err(e);
                },
            }
            i += 1;
        }
        let pointer = match db_get(&self.db, TIP_KEY.as_bytes()) {
            Ok(Some(bytes)) => bytes,
            Ok(None) => {
                assert(mining(start, chain, txs, 0) == Err::<BlockView, LedgerError>(
                    LedgerError::NotInitialized,
                ));
                return Err(LedgerError::NotInitialized);
            },
            Err(_) => {
                return Err(LedgerError::StorageFailure);
            },
        };
        let prev_hash = match text_from_utf8(pointer) {
            Some(text) => text,
            None => {
                assert(mining(start, chain, txs, 0) == Err::<BlockView, LedgerError>(
                    LedgerError::EncodingError,
                ));
                return Err(LedgerError::EncodingError);
            },
        };
        proof {
            vstd::utf8::encode_utf8_valid_utf8(prev_hash@);
            vstd::utf8::encode_utf8_decode_utf8(prev_hash@);
        }
        let best = match self.get_best_height() {
            Ok(height) => height,
            Err(e) => {
                assert(e == LedgerError::StorageFailure || mining(start, chain, txs, 0) == Err::<
                    BlockView,
                    LedgerError,
                >(e));
                return Err(e);
            },
        };
        if best == i32::MAX {
            assert(mining(start, chain, txs, 0) == Err::<BlockView, LedgerError>(
                LedgerError::SealFailure,
            ));
            return Err(LedgerError::SealFailure);
        }
        assert(mine_refusal(start, chain, txs) is None);
        let block = match Block::new_block(transactions, prev_hash, best + 1) {
            Ok(block) => block,
            Err(e) => {
                proof {
                    let timestamp = choose|timestamp: u128|
                        #[trigger] seal_outcome(txs, prev_hash@, (best + 1) as i32, timestamp) == Err::<
                            BlockView,
                            LedgerError,
                        >(e);
                    assert(mining(start, chain, txs, timestamp) == Err::<BlockView, LedgerError>(e));
                }
                return Err(e);
            },
        };
        let hash = block.get_hash();
        match db_get(&self.db, hash.as_str().as_bytes()) {
            Ok(None) => {},
            Ok(Some(_)) => {
                assert(mining(start, chain, txs, block@.timestamp) == Err::<
                    BlockView,
                    LedgerError,
                >(LedgerError::AlreadyExists));
                return Err(LedgerError::AlreadyExists);
            },
            Err(_) => {
                return Err(LedgerError::StorageFailure);
            },
        }
        let bytes = match encode_block(&block) {
            Some(bytes) => bytes,
            None => {
                assert(mining(start, chain, txs, block@.timestamp) == Err::<
                    BlockView,
                    LedgerError,
                >(LedgerError::EncodingError));
                return Err(LedgerError::EncodingError);
            },
        };
        match db_insert(&mut self.db, hash.as_str().as_bytes(), bytes.as_slice()) {
            Ok(()) => {},
            Err(_) => {
                return Err(LedgerError::StorageFailure);
            },
        }
        match db_insert(&mut self.db, TIP_KEY.as_bytes(), hash.as_str().as_bytes()) {
            Ok(()) => {},
            Err(_) => {
                return Err(LedgerError::StorageFailure);
            },
        }
        match db_flush(&mut self.db) {
            Ok(()) => {},
            Err(_) => {
                return Err(LedgerError::StorageFailure);
            },
        }
        self.current_hash = hash;
        proof {
            lemma_block_key_is_no_tip_key(block@.hash);
            if sound_chain(start, tip) {
                lemma_encoding_tells_texts_apart(block@.prev_block_hash, tip);
                lemma_sound_chain_grows(start, tip, block@, bytes@);
                lemma_linked_walk_avoids(
                    start,
                    tip,
                    block@.height - 1,
                    (MAX_STEPS - 1) as nat,
                    key_of(block@.hash),
                );
            }
            if walk_avoids(
                start,
                block@.prev_block_hash,
                (MAX_STEPS - 1) as nat,
                key_of(block@.hash),
            ) {
                lemma_chain_grows(start, block@.prev_block_hash, block@, bytes@);
            }
            if start.contains_key(tip_key()) && start[tip_key()] == key_of(tip) {
                lemma_encoding_tells_texts_apart(block@.prev_block_hash, tip);
            }
        }
        Ok(block)
    }

    /// Takes in a block that was sealed elsewhere, without checking it. A
    /// block whose hash the store has changes nothing. Another is put
    /// under its hash, and becomes the tip where it lies above the best
    /// height. After any error the tip of this handle is as it was; after
    /// an error other than `StorageFailure` the store is as it was where
    /// the block cannot be encoded, else with the block put in.
    pub fn add_block(&mut self, block: Block) -> (done: Result<(), LedgerError>)
        ensures
            match done {
                Ok(()) => {
                    &&& accepted(old(self).entries(), old(self).tip(), block@) == Ok::<
                        (Entries, Seq<char>),
                        LedgerError,
                    >((final(self).entries(), final(self).tip()))
                    &&& old(self).anchored() ==> final(self).anchored()
                    &&& !old(self).entries().contains_key(key_of(block@.hash)) && key_of(
                        block@.hash,
                    ) != tip_key() ==> block_under(final(self).entries(), key_of(block@.hash))
                        == Ok::<BlockView, LedgerError>(block@)
                },
                Err(e) => {
                    &&& final(self).tip() == old(self).tip()
                    &&& e == LedgerError::StorageFailure || {
                        &&& accepted(old(self).entries(), old(self).tip(), block@) == Err::<
                            (Entries, Seq<char>),
                            LedgerError,
                        >(e)
                        &&& final(self).entries() == left_by_refusal(old(self).entries(), block@)
                    }
                },
            },
            block_encoding(block@) is None ==> done == Err::<(), LedgerError>(
                LedgerError::EncodingError,
            ) && final(self).entries() == old(self).entries(),
    {
        let data = match encode_block(&block) {
            Some(bytes) => bytes,
            None => {
                return Err(LedgerError::EncodingError);
            },
        };
        let hash = block.get_hash();
        match db_get(&self.db, hash.as_str().as_bytes()) {
            Ok(None) => {},
            Ok(Some(_)) => {
                return Ok(());
            },
            Err(_) => {
                return Err(LedgerError::StorageFailure);
            },
        }
        match db_insert(&mut self.db, hash.as_str().as_bytes(), data.as_slice()) {
            Ok(()) => {},
            Err(_) => {
                return Err(LedgerError::StorageFailure);
            },
        }
        let best = match self.get_best_height() {
            Ok(height) => height,
            Err(e) => {
                return Err(e);
            },
        };
        if block.get_height() > best {
            match db_insert(&mut self.db, TIP_KEY.as_bytes(), hash.as_str().as_bytes()) {
                Ok(()) => {},
                Err(_) => {
                    return Err(LedgerError::StorageFailure);
                },
            }
            match db_flush(&mut self.db) {
                Ok(()) => {},
                Err(_) => {
                    return Err(LedgerError::StorageFailure);
                },
            }
            self.current_hash = hash;
        }
        Ok(())
    }

    /// The hash of the tip, as this handle holds it.
    pub closed spec fn tip(&self) -> Seq<char> {
        self.current_hash@
    }

    /// What the store holds.
    pub closed spec fn entries(&self) -> Entries {
        db_entries(self.db)
    }

    /// The chain from the tip to the first block.
    pub open spec fn chain(&self) -> Result<Seq<BlockView>, LedgerError> {
        walk(self.entries(), self.tip(), MAX_STEPS as nat)
    }

    /// Opens the chain that `db` holds. `NotInitialized` says that the
    /// store has no tip pointer, `EncodingError` that the pointer is no
    /// text.
    pub fn new(db: sled::Db) -> (opened: Result<Blockchain, LedgerError>)
        ensures
            match opened {
                Ok(bc) => {
                    &&& bc.entries() == db_entries(db)
                    &&& db_entries(db).contains_key(tip_key())
                    &&& db_entries(db)[tip_key()] == key_of(bc.tip())
                },
                Err(e) => {
                    ||| e == LedgerError::StorageFailure
                    ||| e == LedgerError::NotInitialized && !db_entries(db).contains_key(
                        tip_key(),
                    )
                    ||| e == LedgerError::EncodingError && db_entries(db).contains_key(tip_key())
                        && !vstd::utf8::valid_utf8(db_entries(db)[tip_key()])
                },
            },
    {
        let pointer = match db_get(&db, TIP_KEY.as_bytes()) {
            Ok(Some(bytes)) => bytes,
            Ok(None) => {
                return Err(LedgerError::NotInitialized);
            },
            Err(_) => {
                return Err(LedgerError::StorageFailure);
            },
        };
        match text_from_utf8(pointer) {
            Some(hash) => Ok(Blockchain { current_hash: hash, db }),
            None => Err(LedgerError::EncodingError),
        }
    }

    /// The block that is kept under `key`.
    fn read_block(&self, key: &[u8]) -> (found: Result<Block, LedgerError>)
        ensures
            match found {
                Ok(block) => block_under(self.entries(), key@) == Ok::<BlockView, LedgerError>(
                    block@,
                ),
                Err(e) => e == LedgerError::StorageFailure || block_under(self.entries(), key@)
                    == Err::<BlockView, LedgerError>(e),
            },
    {
        match db_get(&self.db, key) {
            Ok(Some(bytes)) => match decode_block(bytes.as_slice()) {
                Some(block) => Ok(block),
                None => Err(LedgerError::EncodingError),
            },
            Ok(None) => Err(LedgerError::NotFound),
            Err(_) => Err(LedgerError::StorageFailure),
        }
    }

    /// The block with the hash `block_hash`. `NotFound` says that the store
    /// has none, `EncodingError` that what it has under the hash is no
    /// block; `StorageFailure` comes from the store alone.
    pub fn get_block(&self, block_hash: &str) -> (found: Result<Block, LedgerError>)
        ensures
            match found {
                Ok(block) => block_under(self.entries(), key_of(block_hash@)) == Ok::<
                    BlockView,
                    LedgerError,
                >(block@),
                Err(e) => e == LedgerError::StorageFailure || block_under(
                    self.entries(),
                    key_of(block_hash@),
                ) == Err::<BlockView, LedgerError>(e),
            },
    {
        self.read_block(block_hash.as_bytes())
    }

    /// The height of the block that the tip pointer names, and -1 where the
    /// store has no tip pointer.
    pub fn get_best_height(&self) -> (height: Result<i32, LedgerError>)
        ensures
            height == best_height_of(self.entries()) || height == Err::<i32, LedgerError>(
                LedgerError::StorageFailure,
            ),
    {
        let pointer = match db_get(&self.db, TIP_KEY.as_bytes()) {
            Ok(Some(bytes)) => bytes,
            Ok(None) => {
                return Ok(-1);
            },
            Err(_) => {
                return Err(LedgerError::StorageFailure);
            },
        };
        match self.read_block(pointer.as_slice()) {
            Ok(block) => Ok(block.get_height()),
            Err(e) => Err(e),
        }
    }

    /// A walk that starts at the tip.
    pub fn iter(&self) -> (walker: BlockchainIter<'_>)
        ensures
            walker.ledger() == *self,
            walker.position() == self.tip(),
            walker.steps_left() == MAX_STEPS,
            walker.rest() == self.chain(),
    {
        BlockchainIter { current_hash: self.current_hash.clone(), steps_left: MAX_STEPS, bc: self }
    }

    /// The blocks from the tip to the first one.
    pub fn blocks(&self) -> (found: Result<Vec<Block>, LedgerError>)
        ensures
            match found {
                Ok(blocks) => self.chain() == Ok::<Seq<BlockView>, LedgerError>(
                    blocks_view(blocks@),
                ),
                Err(e) => e == LedgerError::StorageFailure || self.chain() == Err::<
                    Seq<BlockView>,
                    LedgerError,
                >(e),
            },
            self.tip().len() == 0 ==> found is Ok && found->Ok_0@.len() == 0,
    {
        let mut walker = self.iter();
        let mut blocks: Vec<Block> = Vec::new();
        assert(blocks_view(blocks@) + walker.rest()->Ok_0 =~= walker.rest()->Ok_0);
        loop
            invariant
                walker.ledger() == *self,
                self.chain() == followed_by(blocks_view(blocks@), walker.rest()),
                self.tip().len() == 0 ==> walker.position().len() == 0 && blocks@.len() == 0,
            decreases walker.steps_left(),
        {
            let ghost before = blocks_view(blocks@);
            let ghost pending = walker.rest();
            match walker.next() {
                Ok(Some(block)) => {
                    blocks.push(block);
                    assert(blocks_view(blocks@) =~= before.push(block@));
                    assert(before.push(block@) + walker.rest()->Ok_0 =~= before + (seq![block@]
                        + walker.rest()->Ok_0));
                },
                Ok(None) => {
                    assert(before + pending->Ok_0 =~= before);
                    return Ok(blocks);
                },
                Err(e) => {
                    return Err(e);
                },
            }
        }
    }
}

impl<'a> BlockchainIter<'a> {
    /// The chain that is walked.
    pub closed spec fn ledger(&self) -> Blockchain {
        *self.bc
    }

    /// The hash at which the walk stands.
    pub closed spec fn position(&self) -> Seq<char> {
        self.current_hash@
    }

    /// The number of steps that the walk may still take.
    pub closed spec fn steps_left(&self) -> nat {
        self.steps_left as nat
    }

    /// The blocks that the walk has still to visit.
    pub open spec fn rest(&self) -> Result<Seq<BlockView>, LedgerError> {
        walk(self.ledger().entries(), self.position(), self.steps_left())
    }

    /// One step of the walk: the block under the hash at which the walk
    /// stands, and the walk then stands at the hash of the block before;
    /// `None` at the end of the walk. After `None` and after an error the
    /// walk stands where it stood. `EncodingError` says that the bytes
    /// under the hash are no block, `EndlessChain` that the walk has no
    /// step left.
    pub fn next(&mut self) -> (taken: Result<Option<Block>, LedgerError>)
        ensures
            final(self).ledger() == old(self).ledger(),
            match taken {
                Ok(Some(block)) => {
                    &&& step(old(self).ledger().entries(), old(self).position(), old(self).steps_left())
                        == Ok::<Option<BlockView>, LedgerError>(Some(block@))
                    &&& final(self).position() == block@.prev_block_hash
                    &&& final(self).steps_left() == old(self).steps_left() - 1
                },
                Ok(None) => {
                    &&& step(old(self).ledger().entries(), old(self).position(), old(self).steps_left())
                        == Ok::<Option<BlockView>, LedgerError>(None)
                    &&& final(self).position() == old(self).position()
                    &&& final(self).steps_left() == old(self).steps_left()
                },
                Err(e) => {
                    &&& e == LedgerError::StorageFailure || step(
                        old(self).ledger().entries(),
                        old(self).position(),
                        old(self).steps_left(),
                    ) == Err::<Option<BlockView>, LedgerError>(e)
                    &&& final(self).position() == old(self).position()
                    &&& final(self).steps_left() == old(self).steps_left()
                },
            },
            old(self).position().len() == 0 ==> taken is Ok && taken->Ok_0 is None,
    {
        if self.current_hash.as_str().unicode_len() == 0 {
            return Ok(None);
        }
        match self.bc.read_block(self.current_hash.as_str().as_bytes()) {
            Ok(block) => {
                if self.steps_left == 0 {
                    Err(LedgerError::EndlessChain)
                } else {
                    self.current_hash = block.get_prev_hash();
                    self.steps_left = self.steps_left - 1;
                    Ok(Some(block))
                }
            },
            Err(LedgerError::NotFound) => Ok(None),
            Err(e) => Err(e),
        }
    }
}

} // verus!
