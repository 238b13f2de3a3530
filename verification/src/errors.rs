use vstd::prelude::*;

verus! {

/// Everything that can go wrong in the ledger engine.
#[derive(Debug, Clone, Copy, PartialEq, Eq, Structural)]
pub enum LedgerError {
    /// The store holds no tip pointer yet.
    NotInitialized,
    /// The store already holds a chain, or a block under the hash of a new one.
    AlreadyExists,
    /// A block or a transaction is not in the chain.
    NotFound,
    /// The unspent outputs of the sender do not cover the amount.
    InsufficientFunds,
    /// A transaction failed verification, or a block was given no transaction.
    InvalidTransaction,
    /// An input names a transaction that the supplied ancestry lacks.
    MissingAncestor,
    /// Stored bytes, an address or a key could not be encoded or decoded.
    EncodingError,
    /// The key-value store reported a failure of its own.
    StorageFailure,
    /// No nonce below the bound gives a digest that meets the target, or the
    /// chain has reached the greatest height.
    SealFailure,
    /// The walk from the tip did not come to an end within the greatest
    /// number of steps: the blocks name each other in a circle.
    EndlessChain,
}

/// The description of each error.
pub open spec fn description_of(e: LedgerError) -> Seq<char> {
    match e {
        LedgerError::NotInitialized => "no chain has been created in this store"@,
        LedgerError::AlreadyExists => "the store already holds a chain or this block"@,
        LedgerError::NotFound => "block or transaction not found"@,
        LedgerError::InsufficientFunds => "not enough funds"@,
        LedgerError::InvalidTransaction => "invalid transaction"@,
        LedgerError::MissingAncestor => "previous transaction is missing"@,
        LedgerError::EncodingError => "stored or supplied data cannot be decoded"@,
        LedgerError::StorageFailure => "the key-value store failed"@,
        LedgerError::SealFailure => "the block cannot be sealed"@,
        LedgerError::EndlessChain => "the chain does not end"@,
    }
}

impl LedgerError {
    /// A short description for reports.
    pub fn describe(&self) -> (text: &'static str)
        ensures
            text@ == description_of(*self),
            text@.len() > 0,
    {
        let text = match self {
            LedgerError::NotInitialized => "no chain has been created in this store",
            LedgerError::AlreadyExists => "the store already holds a chain or this block",
            LedgerError::NotFound => "block or transaction not found",
            LedgerError::InsufficientFunds => "not enough funds",
            LedgerError::InvalidTransaction => "invalid transaction",
            LedgerError::MissingAncestor => "previous transaction is missing",
            LedgerError::EncodingError => "stored or supplied data cannot be decoded",
            LedgerError::StorageFailure => "the key-value store failed",
            LedgerError::SealFailure => "the block cannot be sealed",
            LedgerError::EndlessChain => "the chain does not end",
        };
        proof {
            reveal_strlit("no chain has been created in this store");
            reveal_strlit("the store already holds a chain or this block");
            reveal_strlit("block or transaction not found");
            reveal_strlit("not enough funds");
            reveal_strlit("invalid transaction");
            reveal_strlit("previous transaction is missing");
            reveal_strlit("stored or supplied data cannot be decoded");
            reveal_strlit("the key-value store failed");
            reveal_strlit("the block cannot be sealed");
            reveal_strlit("the chain does not end");
        }
        text
    }
}

} // verus!
