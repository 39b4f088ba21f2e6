//! Ledger core of a UTXO-style blockchain: the deterministic state-transition
//! engine that validates and applies batches of transactions to produce the
//! next ledger state.
//!
//! The crate is organised leaves-first: cryptographic hashing and signatures
//! (`crypto`), the deterministic byte codec (`codec`), a journal-backed map
//! (`table`), the transaction data model (`transaction`), the ledger state and
//! its errors (`state`), the transactional overlay and batch validator
//! (`applytx`), minting economics (`melmint`), sparse-merkle-tree leaf hashing
//! (`smt`) and an in-memory wallet (`wallet`).
#![verifier::loop_isolation(false)]

pub mod applytx;
pub mod codec;
pub mod constants;
pub mod crypto;
pub mod laws;
pub mod melmint;
pub mod smt;
pub mod state;
pub mod table;
pub mod transaction;
pub mod wallet;
