//! Client-side wallet state engine for an accumulator-based UTXO chain:
//! block ingestion, ownership scanning, spent detection, fork resolution and
//! input selection, over plain-value models of the chain data.
pub mod block;
pub mod config;
pub mod digest;
pub mod fork;
pub mod key_cache;
pub mod keys;
pub mod pending;
pub mod rpc;
pub mod scan;
pub mod selection;
pub mod state;
pub mod text;
