//! The settings of a run.

use vstd::prelude::*;

verus! {

/// Where the blocks come from, where the two accumulators are kept, and the
/// number of the first block of the chain to take in.
#[derive(Debug)]
pub struct Config {
    pub block_connection_string: String,
    pub master_accumulator_file_path: String,
    pub epoch_accumulator_file_path: String,
    pub starting_block_number: u32,
}

} // verus!
