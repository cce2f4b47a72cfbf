use vstd::prelude::*;

use crate::constants::{BINS_PER_ARRAY, BPS_DENOMINATOR, FEE_PRECISION, MAX_SWAP_STEPS};
use crate::error::{fail, DlmmErrors, HandlerError};
use crate::instructions::locate::{
    array_at, bin_at, copy_accounts, lemma_locate_bin_spec_valid, lemma_with_bin_frame, locate_bin,
    locate_bin_spec, store_bin, with_bin,
};
use crate::reserves::{
    lemma_sum_with_bin, reserve_x_fn, reserve_y_fn, shares_fn, total_reserve_x, total_reserve_y,
    total_shares_issued,
};
use crate::pubkey::Pubkey;
use crate::state::{Bin, BinArrayAccount, Pool};

verus! {

/// What a swap needs from the accounts of the instruction.
pub struct Swap {
    /// The id of this program.
    pub program_id: Pubkey,
    /// The address of the pool.
    pub pool_key: Pubkey,
    /// The pool.
    pub pool: Pool,
    /// The remaining accounts: the bin arrays the swap may walk through.
    pub remaining_accounts: Vec<BinArrayAccount>,
}

/// The token amounts of a swap: `amount_in` moves from the user to the pool's vault of
/// the input token, `amount_out` from the pool's vault of the other token to the user.
#[derive(Clone, Copy, Debug, PartialEq, Eq)]
pub struct SwapResult {
    pub amount_in: u64,
    pub amount_out: u64,
}

/// The reserves of a bin in the order (input, output) of a swap.
pub open spec fn in_out_reserves(bin: Bin, swap_for_y: bool) -> (u64, u64) {
    if swap_for_y {
        (bin.reserve_x, bin.reserve_y)
    } else {
        (bin.reserve_y, bin.reserve_x)
    }
}

/// The fee a swap of `input` pays: `input * fees / 10_000`, rounded down.
pub open spec fn swap_fee(input: u128, fees: u16) -> int {
    input * fees / (BPS_DENOMINATOR as int)
}

/// The output of a constant-product swap of `effective_input` against the
/// reserves `reserve_in` and `reserve_out`: `effective_input * reserve_out /
/// (reserve_in + effective_input)`, rounded down.
pub open spec fn swap_output(effective_input: int, reserve_in: int, reserve_out: int) -> int {
    effective_input * reserve_out / (reserve_in + effective_input)
}

/// A swap of `input` inside `bin`, whose reserves are both positive: the fee comes
/// off the input, the rest goes into the input reserve, the output leaves the output
/// reserve, and the fee per share (scaled by `FEE_PRECISION`) is added to the fee
/// growth of the input token where the bin has shares.
pub open spec fn swap_in_bin_spec(bin: Bin, input: u128, fees: u16, swap_for_y: bool) -> Result<(Bin, u128), HandlerError> {
    let fee = swap_fee(input, fees);
    let (reserve_in, reserve_out) = in_out_reserves(bin, swap_for_y);
    if fee > input {
        fail(DlmmErrors::MathOverflow)
    } else {
        let effective = input - fee;
        let out = swap_output(effective, reserve_in as int, reserve_out as int);
        let fee_per_share = fee * FEE_PRECISION / (bin.total_shares as int);
        let growth_in = if swap_for_y {
            bin.fee_growth_x
        } else {
            bin.fee_growth_y
        };
        if reserve_in + effective > u64::MAX {
            Err(HandlerError::IntegerOverflow)
        } else if bin.total_shares > 0 && growth_in + fee_per_share > u128::MAX {
            Err(HandlerError::IntegerOverflow)
        } else {
            let new_in = (reserve_in + effective) as u64;
            let new_out = (reserve_out - out) as u64;
            let new_growth = if bin.total_shares > 0 {
                (growth_in + fee_per_share) as u128
            } else {
                growth_in
            };
            Ok(
                (
                    if swap_for_y {
                        Bin { reserve_x: new_in, reserve_y: new_out, fee_growth_x: new_growth, ..bin }
                    } else {
                        Bin { reserve_y: new_in, reserve_x: new_out, fee_growth_y: new_growth, ..bin }
                    },
                    out as u128,
                ),
            )
        }
    }
}

/// The output of a swap never reaches the output reserve when the input reserve is
/// positive: `e * r_out / (r_in + e) < r_out`.
pub proof fn lemma_swap_output_below_reserve(effective: int, reserve_in: int, reserve_out: int)
    requires
        0 <= effective,
        0 < reserve_in,
        0 < reserve_out,
    ensures
        0 <= swap_output(effective, reserve_in, reserve_out) < reserve_out,
{
    let d = reserve_in + effective;
    assert(effective * reserve_out < d * reserve_out) by (nonlinear_arith)
        requires d == reserve_in + effective, reserve_in > 0, reserve_out > 0, effective >= 0;
    crate::math::lemma_div_lt(effective * reserve_out, d, reserve_out);
    assert(0 <= effective * reserve_out) by (nonlinear_arith)
        requires effective >= 0, reserve_out > 0;
    crate::math::lemma_le_div(effective * reserve_out, d, 0);
}

/// Swaps `remaining_input` inside `bin`, whose reserves are both positive.
pub fn swap_in_bin(bin: &Bin, remaining_input: u128, fees: u16, swap_for_y: bool) -> (r: Result<(Bin, u128), HandlerError>)
    requires
        bin.reserve_x > 0,
        bin.reserve_y > 0,
        remaining_input <= u64::MAX,
    ensures
        match swap_in_bin_spec(*bin, remaining_input, fees, swap_for_y) {
            Ok((b, out)) => r == Ok::<(Bin, u128), HandlerError>((b, out)),
            Err(e) => r == Err::<(Bin, u128), HandlerError>(e),
        },
{
    // fee accumulation logic
    assert(remaining_input * fees <= u128::MAX) by (nonlinear_arith)
        requires remaining_input <= u64::MAX, fees <= u16::MAX;
    let fee = match remaining_input.checked_mul(fees as u128) {
        Some(p) => p / BPS_DENOMINATOR,
        None => return Err(HandlerError::Program(DlmmErrors::MathOverflow)),
    };
    let effective_input = match remaining_input.checked_sub(fee) {
        Some(v) => v,
        None => return Err(HandlerError::Program(DlmmErrors::MathOverflow)),
    };
    let (reserve_in, reserve_out): (u64, u64) = if swap_for_y {
        (bin.reserve_x, bin.reserve_y)
    } else {
        (bin.reserve_y, bin.reserve_x)
    };
    // AMM math
    assert(effective_input * reserve_out <= u128::MAX) by (nonlinear_arith)
        requires effective_input <= u64::MAX, reserve_out <= u64::MAX;
    let product = match effective_input.checked_mul(reserve_out as u128) {
        Some(p) => p,
        None => return Err(HandlerError::Program(DlmmErrors::MathOverflow)),
    };
    let denominator = match (reserve_in as u128).checked_add(effective_input) {
        Some(v) => v,
        None => return Err(HandlerError::Program(DlmmErrors::MathOverflow)),
    };
    let amount_out = product / denominator;
    proof {
        lemma_swap_output_below_reserve(effective_input as int, reserve_in as int, reserve_out as int);
    }
    // the output stays below the output reserve, so the bin always covers the input
    let mut new_bin = *bin;
    if reserve_in as u128 + effective_input > u64::MAX as u128 {
        return Err(HandlerError::IntegerOverflow);
    }
    let new_in = reserve_in + effective_input as u64;
    let new_out = reserve_out - amount_out as u64;
    if swap_for_y {
        new_bin.reserve_x = new_in;
        new_bin.reserve_y = new_out;
    } else {
        new_bin.reserve_y = new_in;
        new_bin.reserve_x = new_out;
    }
    // fee growth
    if bin.total_shares > 0 {
        assert(fee * FEE_PRECISION <= u128::MAX) by (nonlinear_arith)
            requires fee <= remaining_input * fees / 10000, remaining_input <= u64::MAX, fees <= u16::MAX, FEE_PRECISION == 1_000_000_000_000u64
        {
            crate::math::lemma_div_bounds(remaining_input * fees, 10000);
        }
        let fee_per_share = match fee.checked_mul(FEE_PRECISION as u128) {
            Some(p) => p / bin.total_shares,
            None => return Err(HandlerError::Program(DlmmErrors::MathOverflow)),
        };
        if swap_for_y {
            if bin.fee_growth_x > u128::MAX - fee_per_share {
                return Err(HandlerError::IntegerOverflow);
            }
            new_bin.fee_growth_x = bin.fee_growth_x + fee_per_share;
        } else {
            if bin.fee_growth_y > u128::MAX - fee_per_share {
                return Err(HandlerError::IntegerOverflow);
            }
            new_bin.fee_growth_y = bin.fee_growth_y + fee_per_share;
        }
    }
    Ok((new_bin, amount_out))
}

/// The fixed inputs of a swap's walk over the bins.
#[derive(Clone, Copy, Debug, PartialEq, Eq)]
pub struct SwapPlan {
    pub pool_key: Pubkey,
    pub program_id: Pubkey,
    pub fees: u16,
    pub swap_for_y: bool,
    pub amount_in: u64,
}

/// The bin a swap visits after `bin_id`: the next one up when selling `X` for `Y`, the
/// next one down otherwise.
pub open spec fn next_bin(bin_id: i32, swap_for_y: bool) -> int {
    if swap_for_y {
        bin_id + 1
    } else {
        bin_id - 1
    }
}

/// The walk of a swap from bin `current`, after `steps` steps: bins whose reserves are
/// not both positive are passed over; the first bin with both takes the whole input.
/// The walk gives up once it has searched `MAX_SWAP_STEPS` bins. Gives the
/// accounts after the swap, the bin where it ended and the output.
pub open spec fn swap_walk(plan: SwapPlan, accounts: Seq<BinArrayAccount>, current: i32, steps: nat) -> Result<
    (Seq<BinArrayAccount>, i32, u128),
    HandlerError,
>
    decreases MAX_SWAP_STEPS - steps,
{
    if steps >= MAX_SWAP_STEPS {
        fail(DlmmErrors::OutOfLiquidity)
    } else {
        match locate_bin_spec(accounts, plan.pool_key, plan.program_id, current) {
            Err(e) => Err(e),
            Ok((i, idx)) => {
                let bin = bin_at(accounts, i, idx);
                if bin.reserve_x == 0 || bin.reserve_y == 0 {
                    let next = next_bin(current, plan.swap_for_y);
                    if !(i32::MIN <= next <= i32::MAX) {
                        Err(HandlerError::IntegerOverflow)
                    } else {
                        swap_walk(plan, accounts, next as i32, steps + 1)
                    }
                } else {
                    match swap_in_bin_spec(bin, plan.amount_in as u128, plan.fees, plan.swap_for_y) {
                        Err(e) => Err(e),
                        Ok((new_bin, out)) => Ok((with_bin(accounts, i, idx, new_bin), current, out)),
                    }
                }
            },
        }
    }
}

/// The outcome of a swap request: the pool and the accounts after it, and the token
/// amounts to move.
pub open spec fn swap_handler_spec(ctx: Swap, amount_in: u64, min_amount_out: u64, swap_for_y: bool) -> Result<
    (Pool, Seq<BinArrayAccount>, SwapResult),
    HandlerError,
> {
    if !(amount_in > 0) {
        fail(DlmmErrors::InvalidAmount)
    } else {
        let plan = SwapPlan {
            pool_key: ctx.pool_key,
            program_id: ctx.program_id,
            fees: ctx.pool.fees,
            swap_for_y,
            amount_in,
        };
        match swap_walk(plan, ctx.remaining_accounts@, ctx.pool.active_bin_id, 0) {
            Err(e) => Err(e),
            Ok((accounts, current, out)) => if out < min_amount_out {
                fail(DlmmErrors::SlippageExceeded)
            } else {
                Ok(
                    (
                        Pool { active_bin_id: current, ..ctx.pool },
                        accounts,
                        SwapResult { amount_in, amount_out: out as u64 },
                    ),
                )
            },
        }
    }
}

/// Swaps `amount_in` of `X` for `Y` (when `swap_for_y`) or of `Y` for `X`, starting
/// at the pool's active bin and moving past bins that lack either reserve; the bin
/// where the swap happens becomes the active bin. Fails when the output is below
/// `min_amount_out`. Returns the amounts to move between the user and the vaults. On an
/// error nothing changes.
pub fn swap_handler(ctx: &mut Swap, amount_in: u64, min_amount_out: u64, swap_for_y: bool) -> (r: Result<
    SwapResult,
    HandlerError,
>)
    ensures
        final(ctx).program_id == old(ctx).program_id,
        final(ctx).pool_key == old(ctx).pool_key,
        match swap_handler_spec(*old(ctx), amount_in, min_amount_out, swap_for_y) {
            Ok((pool, accounts, result)) => {
                &&& r == Ok::<SwapResult, HandlerError>(result)
                &&& final(ctx).pool == pool
                &&& final(ctx).remaining_accounts@ == accounts
            },
            Err(e) => {
                &&& r == Err::<SwapResult, HandlerError>(e)
                &&& final(ctx).pool == old(ctx).pool
                &&& final(ctx).remaining_accounts@ == old(ctx).remaining_accounts@
            },
        },
{
    if !(amount_in > 0) {
        return Err(HandlerError::Program(DlmmErrors::InvalidAmount));
    }
    let plan = SwapPlan {
        pool_key: ctx.pool_key,
        program_id: ctx.program_id,
        fees: ctx.pool.fees,
        swap_for_y,
        amount_in,
    };
    let mut accounts = copy_accounts(&ctx.remaining_accounts);
    let ghost accounts0 = accounts@;
    let mut current_bin_id = ctx.pool.active_bin_id;
    let mut remaining_input: u128 = amount_in as u128;
    let mut total_output: u128 = 0;
    let mut steps: u32 = 0;
    // swaps are processed bin by bin while input remains
    while remaining_input > 0
        invariant_except_break
            remaining_input == amount_in,
            total_output == 0,
            accounts@ == accounts0,
            swap_walk(plan, accounts0, ctx.pool.active_bin_id, 0) == swap_walk(
                plan,
                accounts0,
                current_bin_id,
                steps as nat,
            ),
        invariant
            amount_in > 0,
            steps <= MAX_SWAP_STEPS,
            accounts0 == ctx.remaining_accounts@,
            plan == (SwapPlan {
                pool_key: ctx.pool_key,
                program_id: ctx.program_id,
                fees: ctx.pool.fees,
                swap_for_y,
                amount_in,
            }),
            *ctx == *old(ctx),
        ensures
            swap_walk(plan, accounts0, ctx.pool.active_bin_id, 0) == Ok::<
                (Seq<BinArrayAccount>, i32, u128),
                HandlerError,
            >((accounts@, current_bin_id, total_output)),
        decreases MAX_SWAP_STEPS - steps,
    {
        // at most MAX_SWAP_STEPS bins are searched
        steps += 1;
        if !(steps <= MAX_SWAP_STEPS) {
            return Err(HandlerError::Program(DlmmErrors::OutOfLiquidity));
        }
        let (i, idx) = match locate_bin(&accounts, &ctx.pool_key, &ctx.program_id, current_bin_id) {
            Ok(loc) => loc,
            Err(e) => return Err(e),
        };
        let bin: Bin = match &accounts[i].data {
            Some(arr) => arr.bins[idx],
            None => return Err(HandlerError::Program(DlmmErrors::BinArrayNotFound)),
        };
        // a bin without both reserves is passed over
        if bin.reserve_x == 0 || bin.reserve_y == 0 {
            let next: i64 = if swap_for_y {
                current_bin_id as i64 + 1
            } else {
                current_bin_id as i64 - 1
            };
            if next < i32::MIN as i64 || next > i32::MAX as i64 {
                return Err(HandlerError::IntegerOverflow);
            }
            current_bin_id = next as i32;
            continue;
        }
        match swap_in_bin(&bin, remaining_input, ctx.pool.fees, swap_for_y) {
            Err(e) => return Err(e),
            Ok((new_bin, amount_out)) => {
                store_bin(&mut accounts, i, idx, new_bin);
                total_output = total_output + amount_out;
                break;
            },
        }
    }
    // slippage check
    if total_output < min_amount_out as u128 {
        return Err(HandlerError::Program(DlmmErrors::SlippageExceeded));
    }
    ctx.pool.active_bin_id = current_bin_id;
    ctx.remaining_accounts = accounts;
    Ok(SwapResult { amount_in, amount_out: total_output as u64 })
}

/// Law: a swap inside a bin never lowers the product of the bin's reserves, never pays
/// out the whole output reserve, and adds to the input reserve exactly the input less
/// the fee.
pub proof fn lemma_swap_in_bin_keeps_product(bin: Bin, input: u128, fees: u16, swap_for_y: bool)
    requires
        bin.reserve_x > 0,
        bin.reserve_y > 0,
        swap_in_bin_spec(bin, input, fees, swap_for_y) is Ok,
    ensures
        ({
            let (new_bin, out) = swap_in_bin_spec(bin, input, fees, swap_for_y).unwrap();
            let (reserve_in, reserve_out) = in_out_reserves(bin, swap_for_y);
            let (new_in, new_out) = in_out_reserves(new_bin, swap_for_y);
            &&& new_bin.reserve_x * new_bin.reserve_y >= bin.reserve_x * bin.reserve_y
            &&& out < reserve_out
            &&& new_out == reserve_out - out
            &&& new_in == reserve_in + input - swap_fee(input, fees)
            &&& new_bin.total_shares == bin.total_shares
        }),
{
    let (new_bin, out) = swap_in_bin_spec(bin, input, fees, swap_for_y).unwrap();
    let (reserve_in, reserve_out) = in_out_reserves(bin, swap_for_y);
    let effective = input - swap_fee(input, fees);
    let d = reserve_in + effective;
    lemma_swap_output_below_reserve(effective, reserve_in as int, reserve_out as int);
    crate::math::lemma_div_bounds(effective * reserve_out, d);
    let q = swap_output(effective, reserve_in as int, reserve_out as int);
    assert(d * (reserve_out - q) >= reserve_in * reserve_out) by (nonlinear_arith)
        requires
            d * q <= effective * reserve_out,
            d == reserve_in + effective,
    ;
    if swap_for_y {
        assert(new_bin.reserve_x * new_bin.reserve_y == d * (reserve_out - q));
        assert(bin.reserve_x * bin.reserve_y == reserve_in * reserve_out);
    } else {
        assert(new_bin.reserve_x * new_bin.reserve_y == (reserve_out - q) * d) ;
        assert((reserve_out - q) * d == d * (reserve_out - q)) by (nonlinear_arith);
        assert(bin.reserve_x * bin.reserve_y == reserve_out * reserve_in);
        assert(reserve_out * reserve_in == reserve_in * reserve_out) by (nonlinear_arith);
    }
}

/// Law: what a swap inside a bin with both reserves gives, for every input. The fee is
/// `input * fees / 10_000`, rounded down, and the effective input is the rest. The swap
/// succeeds exactly when the fee is at most the input, the input reserve plus the
/// effective input fits in 64 bits, and, in a bin with shares, the input token's fee
/// growth plus `fee * 10^12 / total_shares` fits in 128 bits. It then pays out
/// `effective * reserve_out / (reserve_in + effective)`, rounded down, moves the
/// effective input into the input reserve and the output out of the output reserve,
/// adds `fee * 10^12 / total_shares` to the input token's fee growth where the bin has
/// shares, and leaves the shares and the other token's fee growth as they were.
pub proof fn lemma_swap_in_bin_outcome(bin: Bin, input: u128, fees: u16, swap_for_y: bool)
    requires
        bin.reserve_x > 0,
        bin.reserve_y > 0,
    ensures
        ({
            let fee = input * fees / 10_000;
            let effective = input - fee;
            let reserve_in: int = if swap_for_y { bin.reserve_x as int } else { bin.reserve_y as int };
            let reserve_out: int = if swap_for_y { bin.reserve_y as int } else { bin.reserve_x as int };
            let growth_in: int = if swap_for_y { bin.fee_growth_x as int } else { bin.fee_growth_y as int };
            let per_share: int = if bin.total_shares > 0 {
                fee * 1_000_000_000_000 / (bin.total_shares as int)
            } else {
                0
            };
            &&& (swap_in_bin_spec(bin, input, fees, swap_for_y) is Ok <==> fee <= input && reserve_in + effective
                <= u64::MAX && growth_in + per_share <= u128::MAX)
            &&& swap_in_bin_spec(bin, input, fees, swap_for_y) matches Ok((after, out)) ==> {
                &&& out == effective * reserve_out / (reserve_in + effective)
                &&& out < reserve_out
                &&& swap_for_y ==> after.reserve_x == reserve_in + effective && after.reserve_y == reserve_out - out
                    && after.fee_growth_x == growth_in + per_share && after.fee_growth_y == bin.fee_growth_y
                &&& !swap_for_y ==> after.reserve_y == reserve_in + effective && after.reserve_x == reserve_out - out
                    && after.fee_growth_y == growth_in + per_share && after.fee_growth_x == bin.fee_growth_x
                &&& after.total_shares == bin.total_shares
            }
        }),
{
    let fee = input * fees / 10_000;
    if fee <= input {
        let (reserve_in, reserve_out) = in_out_reserves(bin, swap_for_y);
        lemma_swap_output_below_reserve(input - fee, reserve_in as int, reserve_out as int);
    }
}

/// The walk of a swap ends in one bin of `accounts` whose reserves are both positive,
/// and the accounts after it differ from `accounts` in that bin only.
pub open spec fn swap_lands_at(
    plan: SwapPlan,
    accounts: Seq<BinArrayAccount>,
    result: (Seq<BinArrayAccount>, i32, u128),
    i: int,
    idx: int,
) -> bool {
    &&& 0 <= i < accounts.len()
    &&& accounts[i].data is Some
    &&& 0 <= idx < BINS_PER_ARRAY
    &&& bin_at(accounts, i, idx).reserve_x > 0
    &&& bin_at(accounts, i, idx).reserve_y > 0
    &&& array_at(accounts, i).start_bin_id + idx == result.1
    &&& swap_in_bin_spec(bin_at(accounts, i, idx), plan.amount_in as u128, plan.fees, plan.swap_for_y) is Ok
    &&& swap_in_bin_spec(bin_at(accounts, i, idx), plan.amount_in as u128, plan.fees, plan.swap_for_y).unwrap().1
        == result.2
    &&& result.0 == with_bin(
        accounts,
        i,
        idx,
        swap_in_bin_spec(bin_at(accounts, i, idx), plan.amount_in as u128, plan.fees, plan.swap_for_y).unwrap().0,
    )
}

/// A walk that succeeds lands in one bin.
proof fn lemma_swap_walk_lands(plan: SwapPlan, accounts: Seq<BinArrayAccount>, current: i32, steps: nat)
    requires
        swap_walk(plan, accounts, current, steps) is Ok,
    ensures
        exists|i: int, idx: int|
            swap_lands_at(plan, accounts, swap_walk(plan, accounts, current, steps).unwrap(), i, idx),
    decreases MAX_SWAP_STEPS - steps,
{
    lemma_locate_bin_spec_valid(accounts, plan.pool_key, plan.program_id, current);
    let (i, idx) = locate_bin_spec(accounts, plan.pool_key, plan.program_id, current).unwrap();
    let bin = bin_at(accounts, i, idx);
    if bin.reserve_x == 0 || bin.reserve_y == 0 {
        lemma_swap_walk_lands(plan, accounts, next_bin(current, plan.swap_for_y) as i32, steps + 1);
    } else {
        assert(swap_lands_at(plan, accounts, swap_walk(plan, accounts, current, steps).unwrap(), i, idx));
    }
}

/// Law: a swap adds to the pool's bins exactly the input less the fee, in the input
/// token, and takes out of them exactly the output it pays, in the other token; the
/// output is at least `min_amount_out`; and the bin where the swap happened, which
/// becomes the active bin, held both tokens, paid out `effective * reserve_out /
/// (reserve_in + effective)` for the input less the fee, and keeps at least the product
/// of its reserves and its total shares, while every other bin stays as it was.
pub proof fn lemma_swap_moves_reported_amounts(ctx: Swap, amount_in: u64, min_amount_out: u64, swap_for_y: bool)
    requires
        swap_handler_spec(ctx, amount_in, min_amount_out, swap_for_y) is Ok,
    ensures
        ({
            let (pool, accounts, result) = swap_handler_spec(ctx, amount_in, min_amount_out, swap_for_y).unwrap();
            let fee = swap_fee(amount_in as u128, ctx.pool.fees);
            &&& result.amount_in == amount_in
            &&& result.amount_out >= min_amount_out
            &&& swap_for_y ==> total_reserve_x(accounts) == total_reserve_x(ctx.remaining_accounts@) + amount_in - fee
            &&& swap_for_y ==> total_reserve_y(accounts) == total_reserve_y(ctx.remaining_accounts@) - result.amount_out
            &&& !swap_for_y ==> total_reserve_y(accounts) == total_reserve_y(ctx.remaining_accounts@) + amount_in - fee
            &&& !swap_for_y ==> total_reserve_x(accounts) == total_reserve_x(ctx.remaining_accounts@) - result.amount_out
            &&& total_shares_issued(accounts) == total_shares_issued(ctx.remaining_accounts@)
            &&& exists|i: int, idx: int|
                {
                    &&& 0 <= i < accounts.len()
                    &&& accounts[i].data is Some
                    &&& 0 <= idx < BINS_PER_ARRAY
                    &&& array_at(accounts, i).start_bin_id + idx == pool.active_bin_id
                    &&& #[trigger] bin_at(accounts, i, idx).reserve_x * bin_at(accounts, i, idx).reserve_y
                        >= bin_at(ctx.remaining_accounts@, i, idx).reserve_x * bin_at(ctx.remaining_accounts@, i, idx).reserve_y
                    &&& bin_at(accounts, i, idx).total_shares == bin_at(ctx.remaining_accounts@, i, idx).total_shares
                    &&& bin_at(ctx.remaining_accounts@, i, idx).reserve_x > 0
                    &&& bin_at(ctx.remaining_accounts@, i, idx).reserve_y > 0
                    &&& ({
                        let before = bin_at(ctx.remaining_accounts@, i, idx);
                        let effective = amount_in - amount_in * ctx.pool.fees / 10_000;
                        let reserve_in: int = if swap_for_y { before.reserve_x as int } else { before.reserve_y as int };
                        let reserve_out: int = if swap_for_y { before.reserve_y as int } else { before.reserve_x as int };
                        result.amount_out == effective * reserve_out / (reserve_in + effective)
                    })
                    &&& accounts.len() == ctx.remaining_accounts@.len()
                    &&& forall|j: int| 0 <= j < accounts.len() && j != i ==> #[trigger] accounts[j]
                        == ctx.remaining_accounts@[j]
                    &&& forall|k: int| 0 <= k < BINS_PER_ARRAY && k != idx ==> #[trigger] bin_at(accounts, i, k)
                        == bin_at(ctx.remaining_accounts@, i, k)
                }
        }),
{
    let plan = SwapPlan {
        pool_key: ctx.pool_key,
        program_id: ctx.program_id,
        fees: ctx.pool.fees,
        swap_for_y,
        amount_in,
    };
    let accounts0 = ctx.remaining_accounts@;
    let walked = swap_walk(plan, accounts0, ctx.pool.active_bin_id, 0);
    lemma_swap_walk_lands(plan, accounts0, ctx.pool.active_bin_id, 0);
    let (i, idx) = choose|i: int, idx: int| swap_lands_at(plan, accounts0, walked.unwrap(), i, idx);
    let bin = bin_at(accounts0, i, idx);
    let (new_bin, out) = swap_in_bin_spec(bin, amount_in as u128, ctx.pool.fees, swap_for_y).unwrap();
    lemma_swap_in_bin_keeps_product(bin, amount_in as u128, ctx.pool.fees, swap_for_y);
    lemma_swap_in_bin_outcome(bin, amount_in as u128, ctx.pool.fees, swap_for_y);
    lemma_sum_with_bin(accounts0, i, idx, new_bin, reserve_x_fn());
    lemma_sum_with_bin(accounts0, i, idx, new_bin, reserve_y_fn());
    lemma_sum_with_bin(accounts0, i, idx, new_bin, shares_fn());
    lemma_with_bin_frame(accounts0, i, idx, new_bin);
    let accounts = walked.unwrap().0;
    assert(bin_at(accounts, i, idx) == new_bin);
    assert(0 <= i < accounts.len() && accounts[i].data is Some && array_at(accounts, i).start_bin_id + idx
        == walked.unwrap().1);
}

} // verus!
