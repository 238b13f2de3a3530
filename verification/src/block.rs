use crate::clock::current_time_seconds;
use crate::encoding::{encode_header, header_encoding, strings_view};
use crate::errors::LedgerError;
use crate::hashing::{sha256_hex, sha256_hex_digest};
use crate::transaction::{
    clone_transactions, has_digest, transactions_view, tx_digest, Transaction, TransactionView,
};
use vstd::prelude::*;
use vstd::string::*;

verus! {

/// The difficulty: how many leading zero bits the digest of a sealed block
/// shows.
pub const TARGET_BITS: u32 = 16;

/// The difficulty in hexadecimal digits of the digest text, four bits each.
pub const TARGET_HEX_DIGITS: usize = 4;

/// The length of a block hash: 64 hexadecimal digits.
pub const HASH_LEN: usize = 64;

/// Nonces are tried from 0 up to, and not including, this bound.
pub const MAX_NONCE: i32 = 0x7fff_ffff;

/// A sealed set of transactions, linked to the block before it.
#[derive(Debug, PartialEq, Eq)]
pub struct Block {
    pub(crate) timestamp: u128,
    pub(crate) transactions: Vec<Transaction>,
    pub(crate) prev_block_hash: String,
    pub(crate) hash: String,
    pub(crate) nonce: i32,
    pub(crate) height: i32,
}

/// What a block is, as mathematics.
pub struct BlockView {
    pub timestamp: u128,
    pub transactions: Seq<TransactionView>,
    pub prev_block_hash: Seq<char>,
    pub hash: Seq<char>,
    pub nonce: i32,
    pub height: i32,
}

impl View for Block {
    type V = BlockView;

    closed spec fn view(&self) -> BlockView {
        BlockView {
            timestamp: self.timestamp,
            transactions: transactions_view(self.transactions@),
            prev_block_hash: self.prev_block_hash@,
            hash: self.hash@,
            nonce: self.nonce,
            height: self.height,
        }
    }
}

/// The blocks of a vector, each by its view.
pub open spec fn blocks_view(blocks: Seq<Block>) -> Seq<BlockView> {
    blocks.map_values(|block: Block| block@)
}

/// The digests of the transactions of a block, in their order.
pub open spec fn tx_digests(txs: Seq<TransactionView>) -> Seq<Seq<char>> {
    txs.map_values(|tx: TransactionView| tx_digest(tx))
}

/// The digest of a block's content under `nonce`.
pub open spec fn block_digest(
    prev_block_hash: Seq<char>,
    txs: Seq<TransactionView>,
    timestamp: u128,
    nonce: i32,
) -> Seq<char> {
    sha256_hex_digest(
        header_encoding(prev_block_hash, tx_digests(txs), timestamp, TARGET_BITS, nonce)->Some_0,
    )
}

/// Whether every transaction can be encoded, so that it has a digest.
pub open spec fn digestible(txs: Seq<TransactionView>) -> bool {
    forall|i: int| 0 <= i < txs.len() ==> has_digest(#[trigger] txs[i])
}

/// Whether the header of a block can be encoded under `nonce`.
pub open spec fn header_encodable(
    prev_block_hash: Seq<char>,
    txs: Seq<TransactionView>,
    timestamp: u128,
    nonce: i32,
) -> bool {
    header_encoding(prev_block_hash, tx_digests(txs), timestamp, TARGET_BITS, nonce) is Some
}

/// Whether the content of a block has a digest under the nonce that the
/// block holds.
pub open spec fn has_content_digest(block: BlockView) -> bool {
    digestible(block.transactions) && header_encodable(
        block.prev_block_hash,
        block.transactions,
        block.timestamp,
        block.nonce,
    )
}

/// The search for a nonce, from `nonce` upward: the first nonce whose
/// digest meets the target; `EncodingError` where a header on the way
/// cannot be encoded; `SealFailure` where the bound is reached.
pub open spec fn seal_from(
    prev_block_hash: Seq<char>,
    txs: Seq<TransactionView>,
    timestamp: u128,
    nonce: i32,
) -> Result<i32, LedgerError>
    decreases MAX_NONCE - nonce,
{
    if nonce < 0 || nonce >= MAX_NONCE {
        Err(LedgerError::SealFailure)
    } else if !header_encodable(prev_block_hash, txs, timestamp, nonce) {
        Err(LedgerError::EncodingError)
    } else if meets_target(block_digest(prev_block_hash, txs, timestamp, nonce)) {
        Ok(nonce)
    } else {
        seal_from(prev_block_hash, txs, timestamp, (nonce + 1) as i32)
    }
}

/// What sealing comes to: `InvalidTransaction` for no transaction,
/// `EncodingError` where a transaction or a header cannot be encoded,
/// `SealFailure` where no nonce below the bound seals, else the block with
/// the first nonce that seals it.
pub open spec fn seal_outcome(
    txs: Seq<TransactionView>,
    prev_block_hash: Seq<char>,
    height: i32,
    timestamp: u128,
) -> Result<BlockView, LedgerError> {
    if txs.len() == 0 {
        Err(LedgerError::InvalidTransaction)
    } else if !digestible(txs) {
        Err(LedgerError::EncodingError)
    } else {
        match seal_from(prev_block_hash, txs, timestamp, 0) {
            Ok(nonce) => Ok(
                BlockView {
                    timestamp,
                    transactions: txs,
                    prev_block_hash,
                    hash: block_digest(prev_block_hash, txs, timestamp, nonce),
                    nonce,
                    height,
                },
            ),
            Err(e) => Err(e),
        }
    }
}

/// The digest of a block's content under the nonce that the block holds.
pub open spec fn content_digest(block: BlockView) -> Seq<char> {
    block_digest(block.prev_block_hash, block.transactions, block.timestamp, block.nonce)
}

/// The difficulty predicate: the digest text starts with as many zero digits
/// as the target asks for.
pub open spec fn meets_target(digest: Seq<char>) -> bool {
    &&& digest.len() >= TARGET_HEX_DIGITS
    &&& forall|i: int| 0 <= i < TARGET_HEX_DIGITS ==> digest[i] == '0'
}

/// A block is sealed when its hash is the digest of its content and meets the
/// target.
pub open spec fn sealed(block: BlockView) -> bool {
    block.hash == content_digest(block) && meets_target(block.hash)
}

/// Whether `nonce` is the first one, counted from 0, under which the content
/// meets the target.
pub open spec fn first_sealing_nonce(
    prev_block_hash: Seq<char>,
    txs: Seq<TransactionView>,
    timestamp: u128,
    nonce: i32,
) -> bool {
    &&& 0 <= nonce < MAX_NONCE
    &&& meets_target(block_digest(prev_block_hash, txs, timestamp, nonce))
    &&& forall|earlier: i32|
        0 <= earlier < nonce ==> !meets_target(
            #[trigger] block_digest(prev_block_hash, txs, timestamp, earlier),
        )
}

/// Whether no nonce below the bound seals the content.
pub open spec fn no_sealing_nonce(
    prev_block_hash: Seq<char>,
    txs: Seq<TransactionView>,
    timestamp: u128,
) -> bool {
    forall|nonce: i32|
        0 <= nonce < MAX_NONCE ==> !meets_target(
            #[trigger] block_digest(prev_block_hash, txs, timestamp, nonce),
        )
}

/// Whether a digest text meets the target.
pub fn digest_meets_target(digest: &str) -> (meets: bool)
    ensures
        meets == meets_target(digest@),
{
    if digest.unicode_len() < TARGET_HEX_DIGITS {
        return false;
    }
    let mut i: usize = 0;
    while i < TARGET_HEX_DIGITS
        invariant
            i <= TARGET_HEX_DIGITS,
            digest@.len() >= TARGET_HEX_DIGITS,
            forall|j: int| 0 <= j < i ==> digest@[j] == '0',
        decreases TARGET_HEX_DIGITS - i,
    {
        if digest.get_char(i) != '0' {
            return false;
        }
        i += 1;
    }
    true
}

/// The digest of every transaction, in order.
fn digests_of(txs: &Vec<Transaction>) -> (digests: Result<Vec<String>, LedgerError>)
    ensures
        match digests {
            Ok(texts) => digestible(transactions_view(txs@)) && strings_view(texts@) == tx_digests(
                transactions_view(txs@),
            ),
            Err(e) => e == LedgerError::EncodingError && !digestible(transactions_view(txs@)),
        },
{
    let mut texts: Vec<String> = Vec::new();
    let mut i: usize = 0;
    while i < txs.len()
        invariant
            i <= txs@.len(),
            texts@.len() == i,
            forall|j: int| 0 <= j < i ==> (#[trigger] texts@[j])@ == tx_digest(txs@[j]@),
            forall|j: int| 0 <= j < i ==> has_digest((#[trigger] txs@[j])@),
        decreases txs@.len() - i,
    {
        match txs[i].hash() {
            Ok(text) => texts.push(text),
            Err(e) => {
                assert(transactions_view(txs@)[i as int] == txs@[i as int]@);
                return Err(e);
            },
        }
        i += 1;
    }
    assert(strings_view(texts@) =~= tx_digests(transactions_view(txs@)));
    assert forall|j: int| 0 <= j < txs@.len() implies has_digest(
        #[trigger] transactions_view(txs@)[j],
    ) by {
        assert(transactions_view(txs@)[j] == txs@[j]@);
    }
    Ok(texts)
}

impl Block {
    /// Seals `transactions` into a block made at `timestamp`: tries the
    /// nonces from 0 upward and keeps the first whose digest meets the
    /// target. A block needs at least one transaction. `SealFailure` says
    /// that no nonce below the bound meets the target; `EncodingError` that
    /// a transaction or a header cannot be encoded.
    pub fn seal(
        transactions: Vec<Transaction>,
        prev_block_hash: String,
        height: i32,
        timestamp: u128,
    ) -> (made: Result<Block, LedgerError>)
        ensures
            match seal_outcome(
                transactions_view(transactions@),
                prev_block_hash@,
                height,
                timestamp,
            ) {
                Ok(block) => made is Ok && made->Ok_0@ == block,
                Err(e) => made is Err && made->Err_0 == e,
            },
            made matches Ok(block) ==> {
                &&& first_sealing_nonce(
                    prev_block_hash@,
                    transactions_view(transactions@),
                    timestamp,
                    block@.nonce,
                )
                &&& sealed(block@)
                &&& has_content_digest(block@)
                &&& block@.hash.len() == HASH_LEN
            },
            made matches Err(e) ==> (e == LedgerError::SealFailure ==> no_sealing_nonce(
                prev_block_hash@,
                transactions_view(transactions@),
                timestamp,
            )),
    {
        if transactions.len() == 0 {
            return Err(LedgerError::InvalidTransaction);
        }
        let digests = match digests_of(&transactions) {
            Ok(texts) => texts,
            Err(e) => {
                return Err(e);
            },
        };
        let ghost txs = transactions_view(transactions@);
        let mut nonce: i32 = 0;
        while nonce < MAX_NONCE
            invariant
                0 <= nonce <= MAX_NONCE,
                txs == transactions_view(transactions@),
                txs.len() > 0,
                digestible(txs),
                strings_view(digests@) == tx_digests(txs),
                seal_from(prev_block_hash@, txs, timestamp, 0) == seal_from(
                    prev_block_hash@,
                    txs,
                    timestamp,
                    nonce,
                ),
                forall|earlier: i32|
                    0 <= earlier < nonce ==> !meets_target(
                        #[trigger] block_digest(prev_block_hash@, txs, timestamp, earlier),
                    ),
            decreases MAX_NONCE - nonce,
        {
            let bytes = match encode_header(
                &prev_block_hash,
                &digests,
                timestamp,
                TARGET_BITS,
                nonce,
            ) {
                Some(bytes) => bytes,
                None => {
                    return Err(LedgerError::EncodingError);
                },
            };
            let hash = sha256_hex(bytes.as_slice());
            if digest_meets_target(hash.as_str()) {
                return Ok(Block { timestamp, transactions, prev_block_hash, hash, nonce, height });
            }
            nonce += 1;
        }
        Err(LedgerError::SealFailure)
    }

    /// Seals `transactions` into a block made now: what `seal` gives at the
    /// time the clock gave, in seconds since the epoch.
    pub fn new_block(transactions: Vec<Transaction>, prev_block_hash: String, height: i32) -> (made:
        Result<Block, LedgerError>)
        ensures
            match made {
                Ok(block) => {
                    &&& seal_outcome(
                        transactions_view(transactions@),
                        prev_block_hash@,
                        height,
                        block@.timestamp,
                    ) == Ok::<BlockView, LedgerError>(block@)
                    &&& first_sealing_nonce(
                        prev_block_hash@,
                        transactions_view(transactions@),
                        block@.timestamp,
                        block@.nonce,
                    )
                    &&& sealed(block@)
                    &&& has_content_digest(block@)
                    &&& block@.hash.len() == HASH_LEN
                },
                Err(e) => exists|timestamp: u128|
                    #[trigger] seal_outcome(
                        transactions_view(transactions@),
                        prev_block_hash@,
                        height,
                        timestamp,
                    ) == Err::<BlockView, LedgerError>(e),
            },
            transactions@.len() == 0 ==> made is Err && made->Err_0
                == LedgerError::InvalidTransaction,
            transactions@.len() > 0 && !digestible(transactions_view(transactions@)) ==> made is Err
                && made->Err_0 == LedgerError::EncodingError,
    {
        let timestamp = current_time_seconds();
        Block::seal(transactions, prev_block_hash, height, timestamp)
    }

    /// The first block of a chain: height 0, no block before it, and the
    /// coinbase transaction as its only one.
    pub fn new_genesis_block(coinbase: Transaction) -> (made: Result<Block, LedgerError>)
        ensures
            match made {
                Ok(block) => {
                    &&& seal_outcome(seq![coinbase@], Seq::empty(), 0, block@.timestamp) == Ok::<
                        BlockView,
                        LedgerError,
                    >(block@)
                    &&& first_sealing_nonce(
                        block@.prev_block_hash,
                        block@.transactions,
                        block@.timestamp,
                        block@.nonce,
                    )
                    &&& sealed(block@)
                    &&& has_content_digest(block@)
                    &&& block@.hash.len() == HASH_LEN
                },
                Err(e) => exists|timestamp: u128|
                    #[trigger] seal_outcome(seq![coinbase@], Seq::empty(), 0, timestamp) == Err::<
                        BlockView,
                        LedgerError,
                    >(e),
            },
            !has_digest(coinbase@) ==> made is Err && made->Err_0 == LedgerError::EncodingError,
    {
        let mut transactions: Vec<Transaction> = Vec::new();
        transactions.push(coinbase);
        assert(transactions_view(transactions@) =~= seq![coinbase@]);
        assert(!has_digest(coinbase@) ==> !digestible(seq![coinbase@])) by {
            assert(seq![coinbase@][0] == coinbase@);
        }
        Block::new_block(transactions, String::new(), 0)
    }

    /// Recomputes the digest under the stored nonce and says whether it
    /// meets the target; `EncodingError` where the content has no digest.
    pub fn validate(&self) -> (valid: Result<bool, LedgerError>)
        ensures
            match valid {
                Ok(meets) => has_content_digest(self@) && meets == meets_target(
                    content_digest(self@),
                ),
                Err(e) => e == LedgerError::EncodingError && !has_content_digest(self@),
            },
    {
        let digests = match digests_of(&self.transactions) {
            Ok(texts) => texts,
            Err(e) => {
                return Err(e);
            },
        };
        match encode_header(&self.prev_block_hash, &digests, self.timestamp, TARGET_BITS, self.nonce) {
            Some(bytes) => {
                let hash = sha256_hex(bytes.as_slice());
                Ok(digest_meets_target(hash.as_str()))
            },
            None => Err(LedgerError::EncodingError),
        }
    }

    /// The hash that identifies the block.
    pub fn get_hash(&self) -> (hash: String)
        ensures
            hash@ == self@.hash,
    {
        self.hash.clone()
    }

    /// The hash of the block before this one; empty for the first block.
    pub fn get_prev_hash(&self) -> (hash: String)
        ensures
            hash@ == self@.prev_block_hash,
    {
        self.prev_block_hash.clone()
    }

    /// The transactions of the block.
    pub fn get_transaction(&self) -> (txs: &Vec<Transaction>)
        ensures
            transactions_view(txs@) == self@.transactions,
    {
        &self.transactions
    }

    /// The height of the block: 0 for the first one.
    pub fn get_height(&self) -> (height: i32)
        ensures
            height == self@.height,
    {
        self.height
    }

    /// The time at which the block was made, in seconds since the epoch.
    pub fn get_timestamp(&self) -> (timestamp: u128)
        ensures
            timestamp == self@.timestamp,
    {
        self.timestamp
    }

    /// The nonce that seals the block.
    pub fn get_nonce(&self) -> (nonce: i32)
        ensures
            nonce == self@.nonce,
    {
        self.nonce
    }
}

impl Clone for Block {
    fn clone(&self) -> (copy: Self)
        ensures
            copy@ == self@,
    {
        Block {
            timestamp: self.timestamp,
            transactions: clone_transactions(&self.transactions),
            prev_block_hash: self.prev_block_hash.clone(),
            hash: self.hash.clone(),
            nonce: self.nonce,
            height: self.height,
        }
    }
}

} // verus!
