//! A two-level accumulator over an append-only chain of blocks: a bounded
//! epoch accumulator of block summaries and a master accumulator that holds
//! one Merkle root per epoch.

pub mod accumulator_storage;
pub mod accumulator_trie;
pub mod block;
pub mod check_hash;
pub mod codec;
pub mod config;
pub mod decimal;
pub mod epoch_sedes;
pub mod merkle;
pub mod primitives;
pub mod trie;
pub mod updater;
