use vstd::prelude::*;

use crate::constants::{BINS_PER_ARRAY, MAX_BINS};
use crate::pubkey::Pubkey;

verus! {

/// A liquidity pool of two tokens.
#[derive(Clone, Copy, Debug, PartialEq, Eq)]
pub struct Pool {
    pub authority: Pubkey,
    pub token_x_mint: Pubkey,
    pub token_y_mint: Pubkey,
    pub token_x_vault: Pubkey,
    pub token_y_vault: Pubkey,
    pub active_bin_id: i32,
    pub bin_step: u16,
    pub fees: u16,
    pub fee_growth_global_x: u128,
    pub fee_growth_global_y: u128,
    pub bump: u8,
}

/// One price bin: its reserves of both tokens, the shares issued against them and
/// the fee accumulated per share.
#[derive(Clone, Copy, Debug, PartialEq, Eq)]
pub struct Bin {
    pub reserve_x: u64,
    pub reserve_y: u64,
    pub total_shares: u128,
    pub fee_growth_x: u128,
    pub fee_growth_y: u128,
}

/// A run of `BINS_PER_ARRAY` consecutive bins starting at `start_bin_id`.
#[derive(Clone, Copy, Debug, PartialEq, Eq)]
pub struct BinArray {
    pub pool: Pubkey,
    pub start_bin_id: i32,
    pub bump: u8,
    pub padding: [u8; 11],
    pub bins: [Bin; BINS_PER_ARRAY],
}

/// A liquidity provider's shares in up to `MAX_BINS` consecutive bins, one slot per bin
/// from `lower_bin_id` on.
#[derive(Clone, Copy, Debug, PartialEq, Eq)]
pub struct Position {
    pub pool: Pubkey,
    pub owner: Pubkey,
    pub lower_bin_id: i32,
    pub upper_bin_id: i32,
    pub fee_owned_by_x: u64,
    pub fee_owned_by_y: u64,
    pub liquidity_shares: [u128; MAX_BINS],
    pub fee_growth_inside_x: [u128; MAX_BINS],
    pub fee_growth_inside_y: [u128; MAX_BINS],
    pub bump: u8,
}

/// One of the accounts handed to an instruction besides its named ones: its address
/// and, where its data loads as a bin array, that bin array.
#[derive(Clone, Copy, Debug, PartialEq, Eq)]
pub struct BinArrayAccount {
    pub key: Pubkey,
    pub data: Option<BinArray>,
}

/// A bin with nothing in it.
pub open spec fn empty_bin() -> Bin {
    Bin { reserve_x: 0, reserve_y: 0, total_shares: 0, fee_growth_x: 0, fee_growth_y: 0 }
}

impl Bin {
    /// A bin with nothing in it.
    pub fn empty() -> (r: Bin)
        ensures
            r == empty_bin(),
    {
        Bin { reserve_x: 0, reserve_y: 0, total_shares: 0, fee_growth_x: 0, fee_growth_y: 0 }
    }
}

impl Position {
    /// No slot of the position holds shares.
    pub open spec fn is_empty(self) -> bool {
        forall|i: int| 0 <= i < MAX_BINS ==> #[trigger] self.liquidity_shares[i] == 0
    }

    /// Whether no slot holds shares.
    pub fn has_no_shares(&self) -> (r: bool)
        ensures
            r == self.is_empty(),
    {
        let mut i: usize = 0;
        while i < MAX_BINS
            invariant
                i <= MAX_BINS,
                forall|j: int| 0 <= j < i ==> #[trigger] self.liquidity_shares[j] == 0,
            decreases MAX_BINS - i,
        {
            if self.liquidity_shares[i] != 0 {
                return false;
            }
            i += 1;
        }
        true
    }
}

} // verus!
