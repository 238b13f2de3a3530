pub mod address;
pub mod block;
pub mod blockchain;
pub mod cli;
pub mod clock;
pub mod encoding;
pub mod errors;
pub mod hashing;
pub mod signature;
pub mod soundness;
pub mod spendable;
pub mod store;
pub mod text;
pub mod transaction;
pub mod transfer;
pub mod tx;
pub mod utxo_index;
pub mod utxo_laws;
pub mod utxoset;
pub mod wallet;
