//! The core of a fault-proof client for an optimistic rollup.
//!
//! The client is given a claim about the state of a layer 2 chain after one
//! block. It derives that block from layer 1 data, executes it, and holds
//! the output root against the claim. All that it reads comes from a
//! preimage oracle, and every value is bound to its key.
//!
//! The modules, from the leaves up:
//! - `hex`, `text`, `search`, `digest`, `rlp`: helpers.
//! - `primitives`, `header`, `errors`: plain values.
//! - `key`, `store`, `oracle`, `wire`, `hint`, `boot`: the oracle and what is
//!   read from it before the run.
//! - `traits`, `test_utils`: what the pipeline asks of its surroundings, and
//!   stand-ins that serve what they were filled with.
//! - `trie`, `l1_provider`, `blob_provider`, `precompile`: chain data, blobs
//!   and precompile results from the oracle.
//! - `l1_traversal`, `l1_retrieval`, `batch`, `attributes`, `driver`: the
//!   parts of the derivation pipeline that decide.
//! - `scenario`: the run of the client.

pub mod attributes;
pub mod batch;
pub mod blob_provider;
pub mod boot;
pub mod digest;
pub mod driver;
pub mod errors;
pub mod header;
pub mod hex;
pub mod hint;
pub mod key;
pub mod l1_provider;
pub mod l1_retrieval;
pub mod l1_traversal;
pub mod oracle;
pub mod precompile;
pub mod primitives;
pub mod rlp;
pub mod scenario;
pub mod search;
pub mod store;
pub mod test_utils;
pub mod text;
pub mod traits;
pub mod trie;
pub mod wire;
