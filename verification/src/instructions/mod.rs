pub mod add_liquidity;
pub mod locate;
pub mod remove_liquidity;
pub mod swap;
pub mod initialize;
pub mod initialize_bin_array;
