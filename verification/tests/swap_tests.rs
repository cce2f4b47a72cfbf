use dlmm::instructions::swap::swap_in_bin;
use dlmm::pda::expected_bin_array_address;
use dlmm::{
    bin_array_handler, swap_handler, Bin, BinArray, BinArrayAccount, DlmmErrors, HandlerError, InitializeBinArray,
    Pool, Pubkey, Swap, SwapResult, FEE_PRECISION,
};

fn key(byte: u8) -> Pubkey {
    Pubkey([byte; 32])
}

const PROGRAM: u8 = 9;
const POOL: u8 = 3;

fn pool(active: i32, fees: u16) -> Pool {
    Pool {
        authority: key(1),
        token_x_mint: key(10),
        token_y_mint: key(11),
        token_x_vault: key(12),
        token_y_vault: key(13),
        active_bin_id: active,
        bin_step: 10,
        fees,
        fee_growth_global_x: 0,
        fee_growth_global_y: 0,
        bump: 254,
    }
}

fn bin_array_account(start: i32, bins: &[(usize, Bin)]) -> BinArrayAccount {
    let mut data: BinArray = bin_array_handler(&InitializeBinArray { pool_key: key(POOL), bin_array_bump: 250 }, start);
    for (i, b) in bins {
        data.bins[*i] = *b;
    }
    BinArrayAccount { key: expected_bin_array_address(&key(POOL), start, &key(PROGRAM)).unwrap(), data: Some(data) }
}

fn liquid(x: u64, y: u64, shares: u128) -> Bin {
    Bin { reserve_x: x, reserve_y: y, total_shares: shares, fee_growth_x: 0, fee_growth_y: 0 }
}

fn swap_ctx(active: i32, fees: u16, accounts: Vec<BinArrayAccount>) -> Swap {
    Swap { program_id: key(PROGRAM), pool_key: key(POOL), pool: pool(active, fees), remaining_accounts: accounts }
}

#[test]
fn swap_in_bin_constant_product() {
    let b = liquid(1000, 1000, 10);
    // no fee at 30 bps of 100: 100 * 1000 / 1100 = 90
    assert_eq!(
        swap_in_bin(&b, 100, 30, true),
        Ok((liquid(1100, 910, 10), 90))
    );
    // fee 1% of 10_000 = 100, effective 9_900: 9_900 * 1000 / 10_900 = 908
    let r = swap_in_bin(&b, 10_000, 100, false).unwrap();
    let expected_growth = 100 * FEE_PRECISION as u128 / 10;
    assert_eq!(
        r,
        (Bin { reserve_x: 92, reserve_y: 10_900, total_shares: 10, fee_growth_x: 0, fee_growth_y: expected_growth }, 908)
    );
    // a fee above 100% is refused
    assert_eq!(swap_in_bin(&b, 10_000, 10_001, true), Err(HandlerError::Program(DlmmErrors::MathOverflow)));
    // the input reserve overflowing aborts
    let full = liquid(u64::MAX - 5, 1000, 10);
    assert_eq!(swap_in_bin(&full, 100, 0, true), Err(HandlerError::IntegerOverflow));
}

#[test]
fn swap_in_active_bin() {
    let accounts = vec![bin_array_account(0, &[(4, liquid(1000, 1000, 10))])];
    let mut ctx = swap_ctx(4, 30, accounts);
    let r = swap_handler(&mut ctx, 100, 90, true).unwrap();
    assert_eq!(r, SwapResult { amount_in: 100, amount_out: 90 });
    assert_eq!(ctx.pool.active_bin_id, 4);
    assert_eq!(ctx.remaining_accounts[0].data.unwrap().bins[4], liquid(1100, 910, 10));
}

#[test]
fn swap_walks_past_empty_bins() {
    let accounts = vec![
        bin_array_account(0, &[(30, liquid(0, 0, 0)), (31, liquid(5, 0, 5))]),
        bin_array_account(32, &[(1, liquid(1000, 2000, 10))]),
    ];
    let mut ctx = swap_ctx(30, 0, accounts.clone());
    let r = swap_handler(&mut ctx, 1000, 1, true).unwrap();
    // 1000 * 2000 / 2000 = 1000
    assert_eq!(r, SwapResult { amount_in: 1000, amount_out: 1000 });
    assert_eq!(ctx.pool.active_bin_id, 33);
    assert_eq!(ctx.remaining_accounts[1].data.unwrap().bins[1], liquid(2000, 1000, 10));
    assert_eq!(ctx.remaining_accounts[0], accounts[0]);
    // selling Y walks down instead
    let accounts = vec![bin_array_account(0, &[(2, liquid(500, 500, 1)), (3, liquid(9, 0, 0))])];
    let mut ctx = swap_ctx(4, 0, accounts);
    let r = swap_handler(&mut ctx, 500, 0, false).unwrap();
    assert_eq!(r, SwapResult { amount_in: 500, amount_out: 250 });
    assert_eq!(ctx.pool.active_bin_id, 2);
}

#[test]
fn swap_errors_change_nothing() {
    let accounts = vec![bin_array_account(0, &[(4, liquid(1000, 1000, 10))])];
    let cases: Vec<(i32, u64, u64, HandlerError)> = vec![
        (4, 0, 0, HandlerError::Program(DlmmErrors::InvalidAmount)),
        (4, 100, 91, HandlerError::Program(DlmmErrors::SlippageExceeded)),
        (40, 100, 0, HandlerError::Program(DlmmErrors::BinArrayNotFound)),
        (5, 100, 0, HandlerError::Program(DlmmErrors::BinArrayNotFound)),
    ];
    for (active, amount_in, min_out, err) in cases {
        let mut ctx = swap_ctx(active, 30, accounts.clone());
        let before = ctx.pool;
        assert_eq!(swap_handler(&mut ctx, amount_in, min_out, true), Err(err));
        assert_eq!(ctx.pool, before);
        assert_eq!(ctx.remaining_accounts, accounts);
    }
}

#[test]
fn swap_gives_up_after_the_step_limit() {
    // 35 empty bins in a row: the 35 bins searched hold nothing, so the swap gives up
    let accounts = vec![bin_array_account(0, &[]), bin_array_account(32, &[(3, liquid(10, 10, 1))])];
    let mut ctx = swap_ctx(0, 0, accounts.clone());
    assert_eq!(swap_handler(&mut ctx, 5, 0, true), Err(HandlerError::Program(DlmmErrors::OutOfLiquidity)));
    // 34 empty bins: the 35th bin searched still swaps
    let accounts = vec![bin_array_account(0, &[]), bin_array_account(32, &[(2, liquid(10, 10, 1))])];
    let mut ctx = swap_ctx(0, 0, accounts);
    assert_eq!(swap_handler(&mut ctx, 10, 0, true), Ok(SwapResult { amount_in: 10, amount_out: 5 }));
    assert_eq!(ctx.pool.active_bin_id, 34);
}

#[test]
fn swap_checks_the_bin_array() {
    let mut foreign = bin_array_account(0, &[(4, liquid(10, 10, 1))]);
    foreign.data = Some(BinArray { pool: key(66), ..foreign.data.unwrap() });
    let mut ctx = swap_ctx(4, 0, vec![foreign]);
    assert_eq!(swap_handler(&mut ctx, 5, 0, true), Err(HandlerError::Program(DlmmErrors::InvalidBinArray)));
    let mut unloadable = bin_array_account(0, &[]);
    unloadable.data = None;
    let mut ctx = swap_ctx(4, 0, vec![unloadable]);
    assert_eq!(swap_handler(&mut ctx, 5, 0, true), Err(HandlerError::AccountNotLoadable(0)));
    // walking past the last bin id aborts
    let top = bin_array_account(i32::MAX - 31, &[]);
    let mut ctx = swap_ctx(i32::MAX, 0, vec![top]);
    assert_eq!(swap_handler(&mut ctx, 5, 0, true), Err(HandlerError::IntegerOverflow));
}

#[test]
fn swap_moves_reported_amounts_law() {
    let accounts = vec![bin_array_account(0, &[(7, liquid(5000, 3000, 40)), (8, liquid(1, 1, 1))])];
    let mut ctx = swap_ctx(7, 250, accounts.clone());
    let r = swap_handler(&mut ctx, 1200, 0, true).unwrap();
    let before = accounts[0].data.unwrap().bins[7];
    let after = ctx.remaining_accounts[0].data.unwrap().bins[7];
    let fee = 1200 * 250 / 10_000;
    assert_eq!(after.reserve_x, before.reserve_x + 1200 - fee);
    assert_eq!(after.reserve_y, before.reserve_y - r.amount_out);
    assert!((after.reserve_x as u128) * (after.reserve_y as u128) >= (before.reserve_x as u128) * (before.reserve_y as u128));
    assert!(r.amount_out < before.reserve_y);
    assert_eq!(after.total_shares, before.total_shares);
    assert_eq!(after.fee_growth_x, fee as u128 * FEE_PRECISION as u128 / 40);
}
