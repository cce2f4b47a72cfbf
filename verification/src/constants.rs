use vstd::prelude::*;

pub use crate::pda::find_bin_array;

verus! {

/// Seed string exported for clients.
pub const SEED: &'static str = "anchor";

/// Number of bins held by one bin array account.
pub const BINS_PER_ARRAY: usize = 32;

/// Largest number of bins one position may span.
pub const MAX_BINS: usize = 70;

/// Scale of the per-share fee growth accumulators.
pub const FEE_PRECISION: u64 = 1_000_000_000_000;

/// Denominator of every basis-point quantity (fees, withdrawal fractions).
pub const BPS_DENOMINATOR: u128 = 10_000;

/// The number of bins a swap searches before it gives up.
pub const MAX_SWAP_STEPS: u32 = 35;

/// The bytes of the seed `b"bin_array"`.
pub open spec fn bin_array_seed_spec() -> Seq<u8> {
    seq![98u8, 105u8, 110u8, 95u8, 97u8, 114u8, 114u8, 97u8, 121u8]
}

/// Seed prefix of every bin array address: `b"bin_array"`.
pub fn bin_array_seed() -> (r: Vec<u8>)
    ensures
        r@ == bin_array_seed_spec(),
{
    let r = vec![98u8, 105u8, 110u8, 95u8, 97u8, 114u8, 114u8, 97u8, 121u8];
    assert(r@ =~= bin_array_seed_spec());
    r
}

} // verus!
