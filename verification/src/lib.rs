//! A liquidity book of discrete price bins for two tokens: pools, bin arrays,
//! positions, and the deposit, withdrawal and swap rules over them.
pub mod constants;
pub mod error;
pub mod instructions;
pub mod math;
pub mod pda;
pub mod pubkey;
pub mod reserves;
pub mod state;

pub use constants::{BINS_PER_ARRAY, BPS_DENOMINATOR, FEE_PRECISION, MAX_BINS, MAX_SWAP_STEPS, SEED};
pub use error::{DlmmErrors, HandlerError};
pub use instructions::add_liquidity::{liquidity_handler, AddLiquidity, Deposit};
pub use instructions::initialize::{handler, Initialize};
pub use instructions::initialize_bin_array::{bin_array_handler, InitializeBinArray};
pub use instructions::remove_liquidity::{remove_liquidity_handler, RemoveLiquidity, Withdrawal};
pub use instructions::swap::{swap_handler, Swap, SwapResult};
pub use math::integer_sqrt;
pub use pda::find_bin_array;
pub use pubkey::Pubkey;
pub use state::{Bin, BinArray, BinArrayAccount, Pool, Position};
