//! An indexer of inscriptions on a chain of transactions with transparent
//! and shielded addresses.
//!
//! Inscriptions are typed payloads carried in input scripts. The indexer
//! finds them (`inscription`), keeps them in a store (`db`, with its
//! mathematical state in `ledger`) and reads them as operations of three
//! protocols: fungible tokens (`zrc20`), collections of non-fungible tokens
//! (`zrc721`) and names (`names`). `indexer` walks the transactions of a
//! block through the engines; `reports` and `api` compute what is shown of
//! the store. `laws` proves what holds of every state that indexing
//! reaches.

pub mod amount;
pub mod api;
pub mod db;
pub mod hexcode;
pub mod indexer;
pub mod inscription;
pub mod json;
pub mod laws;
pub mod ledger;
pub mod names;
pub mod records;
pub mod reports;
pub mod rpc;
pub mod sums;
pub mod table;
pub mod text;
pub mod zrc20;
pub mod zrc721;
