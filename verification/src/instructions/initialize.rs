use vstd::prelude::*;

use crate::pubkey::Pubkey;
use crate::state::Pool;

verus! {

/// What creating a pool needs from the accounts of the instruction.
#[derive(Clone, Copy, Debug, PartialEq, Eq)]
pub struct Initialize {
    /// The creator, who becomes the pool's authority.
    pub signer: Pubkey,
    /// The mint of token `X`.
    pub token_x: Pubkey,
    /// The mint of token `Y`.
    pub token_y: Pubkey,
    /// The vault that holds the pool's `X`.
    pub token_x_vault: Pubkey,
    /// The vault that holds the pool's `Y`.
    pub token_y_vault: Pubkey,
    /// The bump seed of the pool's address.
    pub pool_bump: u8,
}

/// The state of a new pool: the creator as its authority, the given mints, vaults,
/// active bin, bin step and fee, and no fee growth yet.
pub fn handler(ctx: &Initialize, active_bin_id: i32, bin_step: u16, fees: u16) -> (pool: Pool)
    ensures
        pool == (Pool {
            authority: ctx.signer,
            token_x_mint: ctx.token_x,
            token_y_mint: ctx.token_y,
            token_x_vault: ctx.token_x_vault,
            token_y_vault: ctx.token_y_vault,
            active_bin_id,
            bin_step,
            fees,
            fee_growth_global_x: 0,
            fee_growth_global_y: 0,
            bump: ctx.pool_bump,
        }),
{
    Pool {
        authority: ctx.signer,
        token_x_mint: ctx.token_x,
        token_y_mint: ctx.token_y,
        token_x_vault: ctx.token_x_vault,
        token_y_vault: ctx.token_y_vault,
        active_bin_id,
        bin_step,
        fees,
        fee_growth_global_x: 0,
        fee_growth_global_y: 0,
        bump: ctx.pool_bump,
    }
}

} // verus!
