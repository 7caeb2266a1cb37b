//! A UTXO ledger with typed assets and delegated stake: the ledger state
//! machine, the block pipeline that feeds it, and the checks that a
//! delegation operation must pass.

pub mod abci;
pub mod codec;
pub mod crypto;
pub mod data_model;
pub mod error;
pub mod laws;
pub mod precompile;
pub mod seqs;
pub mod staking;
pub mod store;
pub mod submission_server;
