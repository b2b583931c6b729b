//! Blocks as the block source hands them over, and what the accumulator keeps
//! of one.

use vstd::prelude::*;
use crate::decimal::{all_digits, decimal_value};
use crate::epoch_sedes::EpochSede;
use crate::primitives::{pow256, read_chunk, H256, U256};

verus! {

/// A block of the chain: its number, its hash in hexadecimal and the total
/// difficulty of the chain up to it in decimal.
#[derive(Debug)]
pub struct Block {
    pub block_number: u32,
    pub block_hash: String,
    pub total_difficulty: String,
}

/// Why a block has no summary.
#[derive(Clone, Copy, Debug, PartialEq, Eq, Structural)]
pub enum BlockError {
    /// The total difficulty is no decimal number below 2^256.
    InvalidTotalDifficulty,
    /// The block hash is no hexadecimal string.
    InvalidBlockHash,
    /// The block hash has `len` bytes, not 32.
    BlockHashLength { len: usize },
}

/// The text is a decimal number that fits in 256 bits.
pub open spec fn is_u256_decimal(text: Seq<char>) -> bool {
    all_digits(text) && decimal_value(text) < pow256(32)
}

/// Reads a total difficulty from its decimal form.
///
/// Calls `ethereum_types::U256::from_dec_str`, which takes the bytes of the
/// text one by one as decimal digits, most significant first, and fails on a
/// byte that is no digit and on a value of 2^256 or more. The empty text
/// gives zero. The number found is handed over as its little-endian bytes.
#[verifier::external_body]
pub(crate) fn parse_total_difficulty(text: &str) -> (parsed: Option<U256>)
    ensures
        parsed is Some <==> is_u256_decimal(text@),
        parsed matches Some(number) ==> number.value() == decimal_value(text@),
{
    match ethereum_types::U256::from_dec_str(text) {
        Ok(number) => {
            let mut bytes = [0u8; 32];
            number.to_little_endian(&mut bytes);
            Some(U256(bytes))
        },
        Err(_) => None,
    }
}

/// The bytes that a hexadecimal text stands for, if it stands for any.
pub uninterp spec fn hex_decoded(text: Seq<char>) -> Option<Seq<u8>>;

/// The view of bytes that may be missing.
pub open spec fn bytes_view(bytes: Option<Vec<u8>>) -> Option<Seq<u8>> {
    match bytes {
        Some(b) => Some(b@),
        None => None,
    }
}

/// Reads bytes from their hexadecimal form.
///
/// Calls `impl_serde::serialize::from_hex`, which accepts the text with or
/// without `0x` in front and fails on a character that is no hexadecimal
/// digit. What it returns depends on the text alone; the contract gives it
/// its name and says no more about it.
#[verifier::external_body]
pub(crate) fn decode_hex(text: &str) -> (decoded: Option<Vec<u8>>)
    ensures
        bytes_view(decoded) == hex_decoded(text@),
{
    impl_serde::serialize::from_hex(text).ok()
}

/// What the summary of a block is, given what its two texts were read as:
/// the total difficulty is looked at first, then the hash, then its length.
pub open spec fn summary_of_parts(
    total_difficulty: Option<U256>,
    block_hash: Option<Seq<u8>>,
    result: Result<EpochSede, BlockError>,
) -> bool {
    match result {
        Ok(record) => {
            &&& total_difficulty == Some(record.total_difficulty)
            &&& block_hash == Some(record.block_hash@)
            &&& block_hash->0.len() == 32
        },
        Err(BlockError::InvalidTotalDifficulty) => total_difficulty is None,
        Err(BlockError::InvalidBlockHash) => {
            &&& total_difficulty is Some
            &&& block_hash is None
        },
        Err(BlockError::BlockHashLength { len }) => {
            &&& total_difficulty is Some
            &&& block_hash is Some
            &&& block_hash->0.len() != 32
            &&& block_hash->0.len() == len
        },
    }
}

/// The summary of a block whose texts were read as the two values given.
pub fn summary_from_parts(total_difficulty: Option<U256>, block_hash: Option<Vec<u8>>) -> (result:
    Result<EpochSede, BlockError>)
    ensures
        summary_of_parts(total_difficulty, bytes_view(block_hash), result),
{
    let total_difficulty = match total_difficulty {
        Some(number) => number,
        None => {
            return Err(BlockError::InvalidTotalDifficulty);
        },
    };
    let serialized = match block_hash {
        Some(bytes) => bytes,
        None => {
            return Err(BlockError::InvalidBlockHash);
        },
    };
    if serialized.len() != 32 {
        return Err(BlockError::BlockHashLength { len: serialized.len() });
    }
    let typed_block_hash = H256(read_chunk(&serialized, 0));
    assert(typed_block_hash@ =~= serialized@);
    Ok(EpochSede::new(total_difficulty, typed_block_hash))
}

/// What the summary of a block is.
pub open spec fn summary_of_block(block: Block, result: Result<EpochSede, BlockError>) -> bool {
    match result {
        Ok(record) => {
            &&& is_u256_decimal(block.total_difficulty@)
            &&& record.total_difficulty.value() == decimal_value(block.total_difficulty@)
            &&& hex_decoded(block.block_hash@) == Some(record.block_hash@)
            &&& hex_decoded(block.block_hash@)->0.len() == 32
        },
        Err(BlockError::InvalidTotalDifficulty) => !is_u256_decimal(block.total_difficulty@),
        Err(BlockError::InvalidBlockHash) => is_u256_decimal(block.total_difficulty@)
            && hex_decoded(block.block_hash@) is None,
        Err(BlockError::BlockHashLength { len }) => {
            &&& is_u256_decimal(block.total_difficulty@)
            &&& hex_decoded(block.block_hash@) is Some
            &&& hex_decoded(block.block_hash@)->0.len() != 32
            &&& hex_decoded(block.block_hash@)->0.len() == len
        },
    }
}

impl Block {
    /// The summary that the accumulator keeps of the block: its hash as 32
    /// bytes and its total difficulty as a number.
    pub fn summary(&self) -> (result: Result<EpochSede, BlockError>)
        ensures
            summary_of_block(*self, result),
    {
        let total_difficulty = parse_total_difficulty(self.total_difficulty.as_str());
        let serialized = decode_hex(self.block_hash.as_str());
        summary_from_parts(total_difficulty, serialized)
    }
}

} // verus!
