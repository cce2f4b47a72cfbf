use dlmm::instructions::add_liquidity::deposit_into_bin;
use dlmm::instructions::remove_liquidity::withdraw_from_bin;
use dlmm::pda::expected_bin_array_address;
use dlmm::{
    bin_array_handler, handler, liquidity_handler, remove_liquidity_handler, AddLiquidity, Bin, BinArray,
    BinArrayAccount, Deposit, DlmmErrors, HandlerError, Initialize, InitializeBinArray, Pool, Position, Pubkey,
    RemoveLiquidity, Withdrawal, FEE_PRECISION, MAX_BINS,
};

fn key(byte: u8) -> Pubkey {
    Pubkey([byte; 32])
}

const PROGRAM: u8 = 9;
const POOL: u8 = 3;
const PAYER: u8 = 5;

fn empty_bin() -> Bin {
    Bin { reserve_x: 0, reserve_y: 0, total_shares: 0, fee_growth_x: 0, fee_growth_y: 0 }
}

fn pool(active: i32) -> Pool {
    handler(
        &Initialize {
            signer: key(PAYER),
            token_x: key(10),
            token_y: key(11),
            token_x_vault: key(12),
            token_y_vault: key(13),
            pool_bump: 254,
        },
        active,
        10,
        30,
    )
}

fn bin_array_account(start: i32) -> BinArrayAccount {
    let data = bin_array_handler(&InitializeBinArray { pool_key: key(POOL), bin_array_bump: 250 }, start);
    BinArrayAccount { key: expected_bin_array_address(&key(POOL), start, &key(PROGRAM)).unwrap(), data: Some(data) }
}

fn empty_position() -> Position {
    Position {
        pool: Pubkey([0; 32]),
        owner: Pubkey([0; 32]),
        lower_bin_id: 0,
        upper_bin_id: 0,
        fee_owned_by_x: 0,
        fee_owned_by_y: 0,
        liquidity_shares: [0; MAX_BINS],
        fee_growth_inside_x: [0; MAX_BINS],
        fee_growth_inside_y: [0; MAX_BINS],
        bump: 0,
    }
}

fn add_ctx(active: i32, accounts: Vec<BinArrayAccount>) -> AddLiquidity {
    AddLiquidity {
        program_id: key(PROGRAM),
        payer: key(PAYER),
        pool_key: key(POOL),
        pool: pool(active),
        position: empty_position(),
        position_bump: 200,
        remaining_accounts: accounts,
    }
}

fn bin(accounts: &[BinArrayAccount], account: usize, index: usize) -> Bin {
    accounts[account].data.unwrap().bins[index]
}

fn reserves(accounts: &[BinArrayAccount]) -> (u128, u128) {
    let mut x = 0u128;
    let mut y = 0u128;
    for a in accounts {
        if let Some(arr) = a.data {
            for b in arr.bins.iter() {
                x += b.reserve_x as u128;
                y += b.reserve_y as u128;
            }
        }
    }
    (x, y)
}

fn issued(accounts: &[BinArrayAccount]) -> u128 {
    accounts.iter().filter_map(|a| a.data).map(|arr| arr.bins.iter().map(|b| b.total_shares).sum::<u128>()).sum()
}

#[test]
fn initialize_sets_every_field() {
    let p = pool(7);
    assert_eq!(p.authority, key(PAYER));
    assert_eq!(p.token_x_mint, key(10));
    assert_eq!(p.token_y_mint, key(11));
    assert_eq!(p.token_x_vault, key(12));
    assert_eq!(p.token_y_vault, key(13));
    assert_eq!(p.active_bin_id, 7);
    assert_eq!(p.bin_step, 10);
    assert_eq!(p.fees, 30);
    assert_eq!(p.fee_growth_global_x, 0);
    assert_eq!(p.fee_growth_global_y, 0);
    assert_eq!(p.bump, 254);
}

#[test]
fn initialize_bin_array_is_empty() {
    let arr: BinArray = bin_array_handler(&InitializeBinArray { pool_key: key(POOL), bin_array_bump: 250 }, -32);
    assert_eq!(arr.pool, key(POOL));
    assert_eq!(arr.start_bin_id, -32);
    assert_eq!(arr.bump, 250);
    assert_eq!(arr.padding, [0; 11]);
    assert!(arr.bins.iter().all(|b| *b == empty_bin()));
}

#[test]
fn deposit_into_fresh_bin_mints_square_root_shares() {
    assert_eq!(
        deposit_into_bin(&empty_bin(), 4, 9),
        Ok((Bin { reserve_x: 4, reserve_y: 9, total_shares: 6, ..empty_bin() }, 6))
    );
    assert_eq!(
        deposit_into_bin(&empty_bin(), 0, 9),
        Ok((Bin { reserve_x: 0, reserve_y: 9, total_shares: 9, ..empty_bin() }, 9))
    );
    assert_eq!(deposit_into_bin(&empty_bin(), 0, 0), Err(HandlerError::Program(DlmmErrors::ZeroShares)));
}

#[test]
fn deposit_into_used_bin_mints_the_smaller_proportional_share() {
    let b = Bin { reserve_x: 100, reserve_y: 200, total_shares: 50, fee_growth_x: 7, fee_growth_y: 8 };
    // 10 * 50 / 100 = 5 against 10 * 50 / 200 = 2
    assert_eq!(
        deposit_into_bin(&b, 10, 10),
        Ok((Bin { reserve_x: 110, reserve_y: 210, total_shares: 52, fee_growth_x: 7, fee_growth_y: 8 }, 2))
    );
    // only X: 10 * 50 / 100 = 5
    assert_eq!(deposit_into_bin(&b, 10, 0).map(|(_, s)| s), Ok(5));
    // a deposit worth less than one share is refused
    assert_eq!(deposit_into_bin(&b, 1, 1), Err(HandlerError::Program(DlmmErrors::ZeroShares)));
    // overflowing the reserve
    let full = Bin { reserve_x: u64::MAX, reserve_y: 1, total_shares: 2 * u64::MAX as u128, fee_growth_x: 0, fee_growth_y: 0 };
    assert_eq!(deposit_into_bin(&full, 1, 0), Err(HandlerError::Program(DlmmErrors::MathOverflow)));
    // overflowing the share product
    let many = Bin { reserve_x: 1, reserve_y: 1, total_shares: u128::MAX, fee_growth_x: 0, fee_growth_y: 0 };
    assert_eq!(deposit_into_bin(&many, 2, 0), Err(HandlerError::Program(DlmmErrors::MathOverflow)));
}

#[test]
fn add_liquidity_argument_checks() {
    let accounts = vec![bin_array_account(0)];
    let cases: Vec<(i32, i32, u64, u64, HandlerError)> = vec![
        (5, 4, 1, 1, HandlerError::Program(DlmmErrors::InvalidBinRange)),
        (0, 70, 1, 1, HandlerError::Program(DlmmErrors::RangeExceedMaxBins)),
        (0, 69, 0, 0, HandlerError::Program(DlmmErrors::ZeroAmount)),
        (i32::MIN, 0, 1, 1, HandlerError::Program(DlmmErrors::RangeExceedMaxBins)),
        (i32::MIN, i32::MAX, 1, 1, HandlerError::Program(DlmmErrors::RangeExceedMaxBins)),
        (0, 3, 0, 0, HandlerError::Program(DlmmErrors::ZeroAmount)),
        (11, 12, 5, 5, HandlerError::Program(DlmmErrors::InvalidTokenAmount)),
        (1, 3, 5, 5, HandlerError::Program(DlmmErrors::InvalidTokenAmount)),
    ];
    for (lower, upper, ax, ay, err) in cases {
        let mut ctx = add_ctx(10, accounts.clone());
        let before = ctx.position;
        assert_eq!(liquidity_handler(&mut ctx, lower, upper, ax, ay), Err(err));
        assert_eq!(ctx.position, before);
        assert_eq!(ctx.remaining_accounts, accounts);
    }
    // the distance to the active bin does not fit in an i32
    let mut ctx = add_ctx(i32::MIN, accounts.clone());
    assert_eq!(liquidity_handler(&mut ctx, i32::MAX - 2, i32::MAX, 5, 0), Err(HandlerError::IntegerOverflow));
}

#[test]
fn add_liquidity_below_active_takes_only_y() {
    let accounts = vec![bin_array_account(0)];
    let mut ctx = add_ctx(10, accounts.clone());
    let deposit = liquidity_handler(&mut ctx, 2, 5, 0, 80).unwrap();
    // 8 bins from 2 up to the active one share 80: 10 each, over 4 bins
    assert_eq!(deposit, Deposit { amount_x: 0, amount_y: 40 });
    for i in 2..=5 {
        assert_eq!(bin(&ctx.remaining_accounts, 0, i), Bin { reserve_y: 10, total_shares: 10, ..empty_bin() });
        assert_eq!(ctx.position.liquidity_shares[i - 2], 10);
    }
    assert_eq!(ctx.position.owner, key(PAYER));
    assert_eq!(ctx.position.pool, key(POOL));
    assert_eq!((ctx.position.lower_bin_id, ctx.position.upper_bin_id, ctx.position.bump), (2, 5, 200));
}

#[test]
fn add_liquidity_around_active_bin() {
    let accounts = vec![bin_array_account(0)];
    let mut ctx = add_ctx(3, accounts.clone());
    let deposit = liquidity_handler(&mut ctx, 1, 5, 105, 100).unwrap();
    // below: 2 bins of 50 Y; above: 2 bins of 105 / 2 = 52 X; the active bin takes what
    // is left: 105 - 2 * 52 = 1 X and no Y
    assert_eq!(bin(&ctx.remaining_accounts, 0, 1), Bin { reserve_y: 50, total_shares: 50, ..empty_bin() });
    assert_eq!(bin(&ctx.remaining_accounts, 0, 2), Bin { reserve_y: 50, total_shares: 50, ..empty_bin() });
    assert_eq!(bin(&ctx.remaining_accounts, 0, 3), Bin { reserve_x: 1, total_shares: 1, ..empty_bin() });
    assert_eq!(bin(&ctx.remaining_accounts, 0, 4), Bin { reserve_x: 52, total_shares: 52, ..empty_bin() });
    assert_eq!(bin(&ctx.remaining_accounts, 0, 5), Bin { reserve_x: 52, total_shares: 52, ..empty_bin() });
    // exactly the amounts asked are taken, never more
    assert_eq!(deposit, Deposit { amount_x: 105, amount_y: 100 });
    // where the shares divide evenly, nothing is left for the active bin
    let mut ctx = add_ctx(3, accounts.clone());
    let deposit = liquidity_handler(&mut ctx, 1, 5, 100, 100).unwrap();
    assert_eq!(bin(&ctx.remaining_accounts, 0, 3), empty_bin());
    assert_eq!(deposit, Deposit { amount_x: 100, amount_y: 100 });
    // a range of the active bin and one bin above: 100 X split, not doubled
    let mut ctx = add_ctx(0, accounts.clone());
    let deposit = liquidity_handler(&mut ctx, 0, 1, 100, 0).unwrap();
    assert_eq!(deposit, Deposit { amount_x: 100, amount_y: 0 });
    assert_eq!(bin(&ctx.remaining_accounts, 0, 0), empty_bin());
    assert_eq!(bin(&ctx.remaining_accounts, 0, 1), Bin { reserve_x: 100, total_shares: 100, ..empty_bin() });
}

#[test]
fn add_liquidity_needs_the_bin_array() {
    let mut ctx = add_ctx(100, vec![bin_array_account(0)]);
    assert_eq!(
        liquidity_handler(&mut ctx, 40, 41, 0, 600),
        Err(HandlerError::Program(DlmmErrors::BinArrayNotFound))
    );
    let mut foreign = bin_array_account(0);
    foreign.data = Some(BinArray { pool: key(77), ..foreign.data.unwrap() });
    let mut ctx = add_ctx(100, vec![foreign]);
    assert_eq!(liquidity_handler(&mut ctx, 4, 5, 0, 960), Err(HandlerError::Program(DlmmErrors::InvalidBinArray)));
    let mut shifted = bin_array_account(0);
    shifted.data = Some(BinArray { start_bin_id: 10, ..shifted.data.unwrap() });
    let mut ctx = add_ctx(100, vec![shifted]);
    assert_eq!(liquidity_handler(&mut ctx, 4, 5, 0, 960), Err(HandlerError::Program(DlmmErrors::InvalidBinIndex)));
    let mut unloadable = bin_array_account(0);
    unloadable.data = None;
    let mut ctx = add_ctx(100, vec![bin_array_account(32), unloadable]);
    assert_eq!(liquidity_handler(&mut ctx, 4, 5, 0, 960), Err(HandlerError::AccountNotLoadable(1)));
    let mut far = bin_array_account(0);
    far.data = Some(BinArray { start_bin_id: i32::MIN, ..far.data.unwrap() });
    let mut ctx = add_ctx(100, vec![far]);
    assert_eq!(liquidity_handler(&mut ctx, 4, 5, 0, 960), Err(HandlerError::IntegerOverflow));
}

#[test]
fn add_liquidity_failing_midway_changes_nothing() {
    // the second bin lies in an array that is missing
    let accounts = vec![bin_array_account(0)];
    let mut ctx = add_ctx(40, accounts.clone());
    assert_eq!(
        liquidity_handler(&mut ctx, 31, 32, 0, 20),
        Err(HandlerError::Program(DlmmErrors::BinArrayNotFound))
    );
    assert_eq!(ctx.remaining_accounts, accounts);
    assert_eq!(ctx.position, empty_position());
}

#[test]
fn add_liquidity_spans_two_bin_arrays() {
    let accounts = vec![bin_array_account(32), bin_array_account(0)];
    let mut ctx = add_ctx(40, accounts);
    let deposit = liquidity_handler(&mut ctx, 30, 33, 0, 100).unwrap();
    // 10 bins below the active one: 10 Y each
    assert_eq!(deposit, Deposit { amount_x: 0, amount_y: 40 });
    assert_eq!(bin(&ctx.remaining_accounts, 1, 30).reserve_y, 10);
    assert_eq!(bin(&ctx.remaining_accounts, 1, 31).reserve_y, 10);
    assert_eq!(bin(&ctx.remaining_accounts, 0, 0).reserve_y, 10);
    assert_eq!(bin(&ctx.remaining_accounts, 0, 1).reserve_y, 10);
}

#[test]
fn deposit_moves_reported_amounts_law() {
    let accounts = vec![bin_array_account(0), bin_array_account(32)];
    let mut ctx = add_ctx(31, accounts);
    liquidity_handler(&mut ctx, 28, 33, 70, 90).unwrap();
    let before = (reserves(&ctx.remaining_accounts), issued(&ctx.remaining_accounts));
    let shares_before: u128 = ctx.position.liquidity_shares.iter().sum();
    let deposit = liquidity_handler(&mut ctx, 28, 33, 30, 60).unwrap();
    let after = (reserves(&ctx.remaining_accounts), issued(&ctx.remaining_accounts));
    let shares_after: u128 = ctx.position.liquidity_shares.iter().sum();
    assert_eq!(after.0 .0, before.0 .0 + deposit.amount_x as u128);
    assert_eq!(after.0 .1, before.0 .1 + deposit.amount_y as u128);
    assert_eq!(after.1 - before.1, shares_after - shares_before);
}

#[test]
fn deposit_token_sides_law() {
    let accounts = vec![bin_array_account(0)];
    let mut ctx = add_ctx(4, accounts);
    liquidity_handler(&mut ctx, 1, 7, 90, 90).unwrap();
    for i in 0..32 {
        let b = bin(&ctx.remaining_accounts, 0, i);
        if i < 4 {
            assert_eq!(b.reserve_x, 0);
        }
        if i > 4 {
            assert_eq!(b.reserve_y, 0);
        }
    }
}

#[test]
fn deposit_amounts_law() {
    // active bin above the range: no X, at most amount_y of Y
    let mut ctx = add_ctx(20, vec![bin_array_account(0)]);
    let d = liquidity_handler(&mut ctx, 1, 3, 0, 100).unwrap();
    assert_eq!(d.amount_x, 0);
    assert!(d.amount_y <= 100);
    // active bin below the range: at most amount_x of X, no Y
    let mut ctx = add_ctx(-5, vec![bin_array_account(0)]);
    let d = liquidity_handler(&mut ctx, 1, 3, 100, 0).unwrap();
    assert!(d.amount_x <= 100);
    assert_eq!(d.amount_y, 0);
    // active bin in the range: exactly amount_x and amount_y
    let mut ctx = add_ctx(2, vec![bin_array_account(0)]);
    let d = liquidity_handler(&mut ctx, 1, 4, 10, 10).unwrap();
    assert_eq!(d.amount_y, 10);
    assert_eq!(d.amount_x, 10);
    let mut ctx = add_ctx(2, vec![bin_array_account(0)]);
    let d = liquidity_handler(&mut ctx, 0, 4, 7, 9).unwrap();
    assert_eq!((d.amount_x, d.amount_y), (7, 9));
}

fn filled_position(active: i32, lower: i32, upper: i32, ax: u64, ay: u64) -> (Position, Vec<BinArrayAccount>) {
    let mut ctx = add_ctx(active, vec![bin_array_account(0)]);
    liquidity_handler(&mut ctx, lower, upper, ax, ay).unwrap();
    (ctx.position, ctx.remaining_accounts)
}

fn remove_ctx(position: Position, accounts: Vec<BinArrayAccount>) -> RemoveLiquidity {
    RemoveLiquidity { program_id: key(PROGRAM), pool_key: key(POOL), position, remaining_accounts: accounts }
}

#[test]
fn withdraw_from_bin_pays_proportionally() {
    let b = Bin { reserve_x: 1000, reserve_y: 500, total_shares: 100, fee_growth_x: 0, fee_growth_y: 0 };
    assert_eq!(
        withdraw_from_bin(&b, 10, 0, 0),
        Ok((Bin { reserve_x: 900, reserve_y: 450, total_shares: 90, ..b }, 100, 50, 0, 0))
    );
    // fees since the checkpoint: 3 * FEE_PRECISION per share over 10 shares
    let grown = Bin { fee_growth_x: 3 * FEE_PRECISION as u128, ..b };
    assert_eq!(withdraw_from_bin(&grown, 10, 0, 0).map(|r| r.3), Ok(30));
    // the checkpoint counts from where the slot started, also across wrapping
    let wrapped = Bin { fee_growth_x: 1, ..b };
    let checkpoint = u128::MAX - (2 * FEE_PRECISION as u128) + 2;
    assert_eq!(withdraw_from_bin(&wrapped, 10, checkpoint, 0).map(|r| r.3), Ok(20));
    assert_eq!(withdraw_from_bin(&empty_bin(), 1, 0, 0), Err(HandlerError::Program(DlmmErrors::ZeroShares)));
    assert_eq!(withdraw_from_bin(&b, 101, 0, 0), Err(HandlerError::Program(DlmmErrors::MathOverflow)));
}

#[test]
fn remove_liquidity_argument_checks() {
    let (position, accounts) = filled_position(10, 2, 5, 0, 80);
    let cases: Vec<(i32, i32, u16, HandlerError)> = vec![
        (5, 2, 100, HandlerError::Program(DlmmErrors::InvalidBinRange)),
        (0, 70, 100, HandlerError::Program(DlmmErrors::RangeExceedMaxBins)),
        (0, 69, 0, HandlerError::Program(DlmmErrors::InvalidTokenAmount)),
        (i32::MIN, 0, 100, HandlerError::Program(DlmmErrors::RangeExceedMaxBins)),
        (i32::MIN, i32::MAX, 100, HandlerError::Program(DlmmErrors::RangeExceedMaxBins)),
        (2, 5, 0, HandlerError::Program(DlmmErrors::InvalidTokenAmount)),
        (2, 5, 10_001, HandlerError::Program(DlmmErrors::InvalidTokenAmount)),
    ];
    for (lower, upper, bps, err) in cases {
        let mut ctx = remove_ctx(position, accounts.clone());
        assert_eq!(remove_liquidity_handler(&mut ctx, lower, upper, bps), Err(err));
        assert_eq!(ctx.position, position);
        assert_eq!(ctx.remaining_accounts, accounts);
    }
}

#[test]
fn remove_half_of_the_liquidity() {
    let (position, accounts) = filled_position(10, 2, 5, 0, 80);
    let mut ctx = remove_ctx(position, accounts);
    let w = remove_liquidity_handler(&mut ctx, 2, 5, 5_000).unwrap();
    assert_eq!(w, Withdrawal { amount_x: 0, amount_y: 20, close_position: false });
    for i in 2..=5 {
        assert_eq!(bin(&ctx.remaining_accounts, 0, i), Bin { reserve_y: 5, total_shares: 5, ..empty_bin() });
        assert_eq!(ctx.position.liquidity_shares[i - 2], 5);
    }
}

#[test]
fn full_withdrawal_closes_position_law() {
    let (position, accounts) = filled_position(3, 1, 5, 100, 100);
    let mut ctx = remove_ctx(position, accounts);
    let w = remove_liquidity_handler(&mut ctx, 1, 5, 10_000).unwrap();
    assert_eq!(w, Withdrawal { amount_x: 100, amount_y: 100, close_position: true });
    assert!(ctx.position.liquidity_shares.iter().all(|s| *s == 0));
    assert_eq!(reserves(&ctx.remaining_accounts), (0, 0));
}

#[test]
fn withdrawal_moves_reported_amounts_law() {
    let (position, accounts) = filled_position(3, 1, 5, 100, 70);
    let before = (reserves(&accounts), issued(&accounts));
    let shares_before: u128 = position.liquidity_shares.iter().sum();
    let mut ctx = remove_ctx(position, accounts);
    let w = remove_liquidity_handler(&mut ctx, 1, 5, 3_333).unwrap();
    let after = (reserves(&ctx.remaining_accounts), issued(&ctx.remaining_accounts));
    let shares_after: u128 = ctx.position.liquidity_shares.iter().sum();
    assert_eq!(after.0 .0 + w.amount_x as u128, before.0 .0);
    assert_eq!(after.0 .1 + w.amount_y as u128, before.0 .1);
    assert_eq!(before.1 - after.1, shares_before - shares_after);
}

#[test]
fn remove_liquidity_checks_the_bin_array() {
    let (position, accounts) = filled_position(10, 2, 5, 0, 80);
    let mut foreign = accounts.clone();
    foreign[0].data = Some(BinArray { pool: key(77), ..foreign[0].data.unwrap() });
    let mut ctx = remove_ctx(position, foreign);
    assert_eq!(remove_liquidity_handler(&mut ctx, 2, 5, 5_000), Err(HandlerError::Program(DlmmErrors::InvalidPool)));
    let mut shifted = accounts.clone();
    shifted[0].data = Some(BinArray { start_bin_id: 3, ..shifted[0].data.unwrap() });
    let mut ctx = remove_ctx(position, shifted);
    assert_eq!(
        remove_liquidity_handler(&mut ctx, 2, 5, 5_000),
        Err(HandlerError::Program(DlmmErrors::InvalidBinArray))
    );
    let mut top = accounts.clone();
    top[0].data = Some(BinArray { start_bin_id: i32::MAX - 10, ..top[0].data.unwrap() });
    let mut ctx = remove_ctx(position, top);
    assert_eq!(remove_liquidity_handler(&mut ctx, 2, 5, 5_000), Err(HandlerError::IntegerOverflow));
    let mut drained = accounts.clone();
    let mut arr = drained[0].data.unwrap();
    arr.bins[2].total_shares = 0;
    drained[0].data = Some(arr);
    let mut ctx = remove_ctx(position, drained);
    assert_eq!(remove_liquidity_handler(&mut ctx, 2, 5, 5_000), Err(HandlerError::Program(DlmmErrors::ZeroShares)));
}

#[test]
fn remove_skips_slots_too_small_to_withdraw() {
    let (position, accounts) = filled_position(10, 2, 5, 0, 80);
    let mut ctx = remove_ctx(position, accounts.clone());
    // 10 shares * 1 bps / 10_000 rounds to nothing
    let w = remove_liquidity_handler(&mut ctx, 2, 5, 1).unwrap();
    assert_eq!(w, Withdrawal { amount_x: 0, amount_y: 0, close_position: false });
    assert_eq!(ctx.remaining_accounts, accounts);
}

#[test]
fn fresh_bin_round_trip_law() {
    let dusty = Bin { reserve_x: 3, reserve_y: 0, ..empty_bin() };
    let (filled, shares) = deposit_into_bin(&dusty, 40, 90).unwrap();
    let (emptied, ax, ay, fx, fy) = withdraw_from_bin(&filled, shares, filled.fee_growth_x, filled.fee_growth_y).unwrap();
    assert_eq!((ax, ay, fx, fy), (43, 90, 0, 0));
    assert_eq!((emptied.reserve_x, emptied.reserve_y, emptied.total_shares), (0, 0, 0));
}

#[test]
fn withdrawal_within_share_law() {
    let b = Bin { reserve_x: 1001, reserve_y: 7, total_shares: 300, fee_growth_x: 0, fee_growth_y: 0 };
    let (_, ax, ay, _, _) = withdraw_from_bin(&b, 97, 0, 0).unwrap();
    assert!(ax as u128 * 300 <= 97 * 1001);
    assert!(ay as u128 * 300 <= 97 * 7);
}

#[test]
fn deposit_shares_within_worth_law() {
    let b = Bin { reserve_x: 300, reserve_y: 700, total_shares: 90, ..empty_bin() };
    let (_, s) = deposit_into_bin(&b, 50, 20).unwrap();
    assert_eq!(s, 2);
    assert!(s * 300 <= 50 * 90);
    assert!(s * 700 <= 20 * 90);
    // a side worth less than one share does not bound the shares
    let b = Bin { reserve_x: 1000, reserve_y: 10, total_shares: 10, ..empty_bin() };
    assert_eq!(deposit_into_bin(&b, 1, 10).map(|r| r.1), Ok(10));
}

#[test]
fn deposit_then_full_withdrawal_round_trip_law() {
    let accounts = vec![bin_array_account(0), bin_array_account(32)];
    let mut add = add_ctx(31, accounts.clone());
    let deposit = liquidity_handler(&mut add, 29, 34, 900, 600).unwrap();
    let mut remove = remove_ctx(add.position, add.remaining_accounts.clone());
    let withdrawal = remove_liquidity_handler(&mut remove, 29, 34, 10_000).unwrap();
    assert_eq!((withdrawal.amount_x, withdrawal.amount_y), (deposit.amount_x, deposit.amount_y));
    assert!(withdrawal.close_position);
    assert!(remove.position.liquidity_shares.iter().all(|s| *s == 0));
    assert_eq!(remove.position.fee_owned_by_x, add.position.fee_owned_by_x);
    assert_eq!(remove.remaining_accounts, accounts);
}

#[test]
fn deposit_shares_per_bin_law() {
    let (position, accounts) = filled_position(3, 1, 5, 100, 100);
    let before = vec![bin_array_account(0)];
    for b in 0..32usize {
        let gained = bin(&accounts, 0, b).total_shares - bin(&before, 0, b).total_shares;
        if (1..=5).contains(&b) {
            assert_eq!(gained, position.liquidity_shares[b - 1]);
        } else {
            assert_eq!(bin(&accounts, 0, b), bin(&before, 0, b));
        }
    }
    assert!(position.liquidity_shares[5..].iter().all(|s| *s == 0));
}

#[test]
fn withdrawal_shares_per_bin_law() {
    let (position, accounts) = filled_position(3, 1, 5, 100, 70);
    let mut ctx = remove_ctx(position, accounts.clone());
    remove_liquidity_handler(&mut ctx, 1, 5, 3_333).unwrap();
    for b in 0..32usize {
        let old = bin(&accounts, 0, b);
        let new = bin(&ctx.remaining_accounts, 0, b);
        // reserves per share never fall
        assert!(new.reserve_x as u128 * old.total_shares >= old.reserve_x as u128 * new.total_shares);
        assert!(new.reserve_y as u128 * old.total_shares >= old.reserve_y as u128 * new.total_shares);
        if (1..=5).contains(&b) {
            assert_eq!(
                old.total_shares - new.total_shares,
                position.liquidity_shares[b - 1] - ctx.position.liquidity_shares[b - 1]
            );
        } else {
            assert_eq!(new, old);
        }
    }
}
