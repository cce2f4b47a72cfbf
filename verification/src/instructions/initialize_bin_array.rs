use vstd::prelude::*;

use crate::constants::BINS_PER_ARRAY;
use crate::pubkey::Pubkey;
use crate::state::{empty_bin, Bin, BinArray};

verus! {

/// What creating a bin array needs from the accounts of the instruction.
#[derive(Clone, Copy, Debug, PartialEq, Eq)]
pub struct InitializeBinArray {
    /// The address of the pool the bin array belongs to.
    pub pool_key: Pubkey,
    /// The bump seed of the bin array's address.
    pub bin_array_bump: u8,
}

/// The state of a new bin array: it belongs to the pool, starts at `start_bin_id`,
/// and all its bins and padding are zero.
pub fn bin_array_handler(ctx: &InitializeBinArray, start_bin_id: i32) -> (bin_array: BinArray)
    ensures
        bin_array.pool == ctx.pool_key,
        bin_array.start_bin_id == start_bin_id,
        bin_array.bump == ctx.bin_array_bump,
        forall|i: int| 0 <= i < 11 ==> #[trigger] bin_array.padding[i] == 0,
        forall|i: int| 0 <= i < BINS_PER_ARRAY ==> #[trigger] bin_array.bins[i] == empty_bin(),
{
    let bins = [Bin::empty(); BINS_PER_ARRAY];
    BinArray { pool: ctx.pool_key, start_bin_id, bump: ctx.bin_array_bump, padding: [0u8; 11], bins }
}

} // verus!
