use vstd::prelude::*;

use crate::constants::{BINS_PER_ARRAY, BPS_DENOMINATOR, FEE_PRECISION, MAX_BINS};
use crate::error::{fail, DlmmErrors, HandlerError};
use crate::instructions::locate::{
    array_at, bin_at, copy_accounts, lemma_locate_bin_for_withdrawal_spec_valid, lemma_locate_bin_id,
    lemma_same_layout_locate, lemma_same_layout_trans, lemma_with_bin_frame, lemma_with_bin_same_layout,
    locate_bin_for_withdrawal, locate_bin_for_withdrawal_spec, same_layout, store_bin, with_bin,
};
use crate::reserves::{
    lemma_position_shares_update, lemma_sum_with_bin, position_shares, reserve_x_fn, reserve_y_fn,
    shares_fn, total_reserve_x, total_reserve_y, total_shares_issued,
};
use crate::instructions::add_liquidity::{
    claim_position, deposit_bins, deposit_covers, deposit_into_bin_spec, deposit_per_bin_spec, deposit_split,
    deposit_step, lemma_deposit_bins_frame, lemma_deposit_bins_track, liquidity_handler_spec, AddLiquidity,
    DepositPlan, DepositState, DepositTally,
};
use crate::instructions::locate::{
    lemma_locate_bin_spec_valid, lemma_locate_for_withdrawal_agrees, locate_bin_spec,
};
use crate::pubkey::Pubkey;
use crate::state::{Bin, BinArrayAccount, Position};

verus! {

/// What a withdrawal needs from the accounts of the instruction.
pub struct RemoveLiquidity {
    /// The id of this program.
    pub program_id: Pubkey,
    /// The address of the pool.
    pub pool_key: Pubkey,
    /// The withdrawer's position for this bin range.
    pub position: Position,
    /// The remaining accounts: the bin arrays the withdrawal may touch.
    pub remaining_accounts: Vec<BinArrayAccount>,
}

/// What a withdrawal pays out: the token amounts to move from the pool's vaults to the
/// owner, and whether the position holds no shares any more (its rent then goes back
/// to the owner).
#[derive(Clone, Copy, Debug, PartialEq, Eq)]
pub struct Withdrawal {
    pub amount_x: u64,
    pub amount_y: u64,
    pub close_position: bool,
}

/// What taking `shares` out of `bin` gives, for a slot whose fee checkpoints are
/// `inside_x` and `inside_y`: the bin after it, the amounts of `X` and `Y` paid out
/// (each reserve times `shares` over the bin's shares, rounded down) and the fees
/// earned (the fee growth since the checkpoint times `shares` over `FEE_PRECISION`,
/// rounded down, then cut to 64 bits).
pub open spec fn withdraw_from_bin_spec(bin: Bin, shares: u128, inside_x: u128, inside_y: u128) -> Result<
    (Bin, u64, u64, u64, u64),
    HandlerError,
> {
    let growth_x = vstd::wrapping::u128_specs::wrapping_sub(bin.fee_growth_x, inside_x);
    let growth_y = vstd::wrapping::u128_specs::wrapping_sub(bin.fee_growth_y, inside_y);
    if bin.total_shares == 0 {
        fail(DlmmErrors::ZeroShares)
    } else if shares * bin.reserve_x > u128::MAX || shares * bin.reserve_y > u128::MAX || growth_x
        * shares > u128::MAX || growth_y * shares > u128::MAX {
        fail(DlmmErrors::MathOverflow)
    } else {
        let amount_x = (shares * bin.reserve_x / (bin.total_shares as int)) as u128;
        let amount_y = (shares * bin.reserve_y / (bin.total_shares as int)) as u128;
        let fee_x = ((growth_x * shares / (FEE_PRECISION as int)) as u128) as u64;
        let fee_y = ((growth_y * shares / (FEE_PRECISION as int)) as u128) as u64;
        if bin.reserve_x < amount_x as u64 || bin.reserve_y < amount_y as u64 || bin.total_shares
            < shares {
            fail(DlmmErrors::MathOverflow)
        } else {
            Ok(
                (
                    Bin {
                        reserve_x: (bin.reserve_x - amount_x as u64) as u64,
                        reserve_y: (bin.reserve_y - amount_y as u64) as u64,
                        total_shares: (bin.total_shares - shares) as u128,
                        ..bin
                    },
                    amount_x as u64,
                    amount_y as u64,
                    fee_x,
                    fee_y,
                ),
            )
        }
    }
}

/// Law: what taking `shares` out of a bin gives, for every input. With each token's
/// fee growth since the slot's checkpoint taken modulo 2^128 (the bin's fee growth minus
/// the checkpoint, plus 2^128 where it went round), the withdrawal succeeds exactly when
/// the bin has shares, `shares` is at most its shares, and `shares` times each reserve
/// and times each fee growth fits in 128 bits. It then pays out `shares * reserve /
/// total_shares` of each token, rounded down, takes that from the reserves and `shares`
/// from the bin's shares, leaves the fee growth as it was, and earns for each token that
/// token's own fee growth times `shares` over 10^12, rounded down and cut to 64 bits.
pub proof fn lemma_withdraw_from_bin_outcome(bin: Bin, shares: u128, inside_x: u128, inside_y: u128)
    ensures
        ({
            let growth_x: int = if bin.fee_growth_x >= inside_x {
                bin.fee_growth_x - inside_x
            } else {
                bin.fee_growth_x - inside_x + 0x1_0000_0000_0000_0000_0000_0000_0000_0000
            };
            let growth_y: int = if bin.fee_growth_y >= inside_y {
                bin.fee_growth_y - inside_y
            } else {
                bin.fee_growth_y - inside_y + 0x1_0000_0000_0000_0000_0000_0000_0000_0000
            };
            let t = bin.total_shares as int;
            &&& (withdraw_from_bin_spec(bin, shares, inside_x, inside_y) is Ok <==> t > 0 && shares <= t && shares
                * bin.reserve_x <= u128::MAX && shares * bin.reserve_y <= u128::MAX && growth_x * shares
                <= u128::MAX && growth_y * shares <= u128::MAX)
            &&& withdraw_from_bin_spec(bin, shares, inside_x, inside_y) matches Ok((after, amount_x, amount_y, fee_x, fee_y))
                ==> {
                &&& amount_x == shares * bin.reserve_x / t
                &&& amount_y == shares * bin.reserve_y / t
                &&& fee_x as int == (growth_x * shares / 1_000_000_000_000) % 0x1_0000_0000_0000_0000
                &&& fee_y as int == (growth_y * shares / 1_000_000_000_000) % 0x1_0000_0000_0000_0000
                &&& after.reserve_x == bin.reserve_x - amount_x
                &&& after.reserve_y == bin.reserve_y - amount_y
                &&& after.total_shares == t - shares
                &&& after.fee_growth_x == bin.fee_growth_x
                &&& after.fee_growth_y == bin.fee_growth_y
            }
        }),
{
    let gx = vstd::wrapping::u128_specs::wrapping_sub(bin.fee_growth_x, inside_x);
    let gy = vstd::wrapping::u128_specs::wrapping_sub(bin.fee_growth_y, inside_y);
    let t = bin.total_shares as int;
    if t > 0 && shares <= t {
        crate::math::lemma_div_bounds(shares * bin.reserve_x, t);
        crate::math::lemma_div_bounds(shares * bin.reserve_y, t);
        let qx = shares * bin.reserve_x / t;
        let qy = shares * bin.reserve_y / t;
        assert(qx <= bin.reserve_x) by (nonlinear_arith)
            requires t * qx <= shares * bin.reserve_x, shares <= t, t > 0, bin.reserve_x >= 0;
        assert(qy <= bin.reserve_y) by (nonlinear_arith)
            requires t * qy <= shares * bin.reserve_y, shares <= t, t > 0, bin.reserve_y >= 0;
        assert(0 <= qx) by { crate::math::lemma_le_div(shares * bin.reserve_x, t, 0); }
        assert(0 <= qy) by { crate::math::lemma_le_div(shares * bin.reserve_y, t, 0); }
        if gx * shares <= u128::MAX && gy * shares <= u128::MAX {
            let fx: u128 = (gx * shares / 1_000_000_000_000) as u128;
            let fy: u128 = (gy * shares / 1_000_000_000_000) as u128;
            assert(0 <= gx * shares) by (nonlinear_arith)
                requires gx >= 0, shares >= 0;
            assert(0 <= gy * shares) by (nonlinear_arith)
                requires gy >= 0, shares >= 0;
            crate::math::lemma_le_div(gx * shares, 1_000_000_000_000, 0);
            crate::math::lemma_le_div(gy * shares, 1_000_000_000_000, 0);
            assert((fx as u64) as int == fx % 0x1_0000_0000_0000_0000) by (bit_vector);
            assert((fy as u64) as int == fy % 0x1_0000_0000_0000_0000) by (bit_vector);
        }
    }
}

/// Takes `shares` out of `bin`, as `withdraw_from_bin_spec` states.
pub fn withdraw_from_bin(bin: &Bin, shares: u128, inside_x: u128, inside_y: u128) -> (r: Result<
    (Bin, u64, u64, u64, u64),
    HandlerError,
>)
    ensures
        r == withdraw_from_bin_spec(*bin, shares, inside_x, inside_y),
{
    if !(bin.total_shares > 0) {
        return Err(HandlerError::Program(DlmmErrors::ZeroShares));
    }
    // calculate the withdraw amounts
    let amount_x = match shares.checked_mul(bin.reserve_x as u128) {
        Some(p) => p / bin.total_shares,
        None => return Err(HandlerError::Program(DlmmErrors::MathOverflow)),
    };
    let amount_y = match shares.checked_mul(bin.reserve_y as u128) {
        Some(p) => p / bin.total_shares,
        None => return Err(HandlerError::Program(DlmmErrors::MathOverflow)),
    };
    // the fee growth since the slot's checkpoint
    let fee_growth_x = bin.fee_growth_x.wrapping_sub(inside_x);
    let fee_growth_y = bin.fee_growth_y.wrapping_sub(inside_y);
    let fee_x = match fee_growth_x.checked_mul(shares) {
        Some(p) => (p / (FEE_PRECISION as u128)) as u64,
        None => return Err(HandlerError::Program(DlmmErrors::MathOverflow)),
    };
    let fee_y = match fee_growth_y.checked_mul(shares) {
        Some(p) => (p / (FEE_PRECISION as u128)) as u64,
        None => return Err(HandlerError::Program(DlmmErrors::MathOverflow)),
    };
    // update the bin reserves
    let reserve_x = match bin.reserve_x.checked_sub(amount_x as u64) {
        Some(v) => v,
        None => return Err(HandlerError::Program(DlmmErrors::MathOverflow)),
    };
    let reserve_y = match bin.reserve_y.checked_sub(amount_y as u64) {
        Some(v) => v,
        None => return Err(HandlerError::Program(DlmmErrors::MathOverflow)),
    };
    let total_shares = match bin.total_shares.checked_sub(shares) {
        Some(v) => v,
        None => return Err(HandlerError::Program(DlmmErrors::MathOverflow)),
    };
    Ok((Bin { reserve_x, reserve_y, total_shares, ..*bin }, amount_x as u64, amount_y as u64, fee_x, fee_y))
}

/// Law: a withdrawal from a bin pays at most the withdrawn shares' part of each
/// reserve, rounding in the pool's favour: `amount * total_shares <= shares * reserve`.
pub proof fn lemma_withdrawal_within_share(bin: Bin, shares: u128, inside_x: u128, inside_y: u128)
    requires
        withdraw_from_bin_spec(bin, shares, inside_x, inside_y) is Ok,
    ensures
        ({
            let (new_bin, amount_x, amount_y, fee_x, fee_y) = withdraw_from_bin_spec(bin, shares, inside_x, inside_y).unwrap();
            &&& amount_x * bin.total_shares <= shares * bin.reserve_x
            &&& amount_y * bin.total_shares <= shares * bin.reserve_y
            &&& new_bin.total_shares == bin.total_shares - shares
        }),
{
    let t = bin.total_shares as int;
    crate::math::lemma_div_bounds(shares * bin.reserve_x, t);
    crate::math::lemma_div_bounds(shares * bin.reserve_y, t);
    let qx = shares * bin.reserve_x / t;
    let qy = shares * bin.reserve_y / t;
    assert(qx * t <= shares * bin.reserve_x) by (nonlinear_arith)
        requires t * qx <= shares * bin.reserve_x;
    assert(qy * t <= shares * bin.reserve_y) by (nonlinear_arith)
        requires t * qy <= shares * bin.reserve_y;
    assert(shares <= t);
    assert(qx <= bin.reserve_x) by (nonlinear_arith)
        requires qx * t <= shares * bin.reserve_x, shares <= t, t > 0, bin.reserve_x >= 0;
    assert(qy <= bin.reserve_y) by (nonlinear_arith)
        requires qy * t <= shares * bin.reserve_y, shares <= t, t > 0, bin.reserve_y >= 0;
    assert(qx >= 0) by { crate::math::lemma_le_div(shares * bin.reserve_x, t, 0); }
    assert(qy >= 0) by { crate::math::lemma_le_div(shares * bin.reserve_y, t, 0); }
}

/// Law: in a bin without shares, withdrawing the shares that a deposit has just minted
/// pays out the bin's whole reserves, the deposit included, and leaves the bin without
/// reserves or shares.
pub proof fn lemma_fresh_bin_round_trip(bin: Bin, dx: u64, dy: u64)
    requires
        bin.total_shares == 0,
        crate::instructions::add_liquidity::deposit_into_bin_spec(bin, dx, dy) is Ok,
        ({
            let (filled, shares) = crate::instructions::add_liquidity::deposit_into_bin_spec(bin, dx, dy).unwrap();
            withdraw_from_bin_spec(filled, shares, filled.fee_growth_x, filled.fee_growth_y) is Ok
        }),
    ensures
        ({
            let (filled, shares) = crate::instructions::add_liquidity::deposit_into_bin_spec(bin, dx, dy).unwrap();
            let (emptied, amount_x, amount_y, fee_x, fee_y) = withdraw_from_bin_spec(
                filled,
                shares,
                filled.fee_growth_x,
                filled.fee_growth_y,
            ).unwrap();
            &&& amount_x == bin.reserve_x + dx
            &&& amount_y == bin.reserve_y + dy
            &&& fee_x == 0
            &&& fee_y == 0
            &&& emptied.reserve_x == 0
            &&& emptied.reserve_y == 0
            &&& emptied.total_shares == 0
        }),
{
    let (filled, shares) = crate::instructions::add_liquidity::deposit_into_bin_spec(bin, dx, dy).unwrap();
    assert(filled.total_shares == shares);
    assert(shares > 0);
    assert(shares * filled.reserve_x / (shares as int) == filled.reserve_x) by {
        vstd::arithmetic::div_mod::lemma_div_multiples_vanish(filled.reserve_x as int, shares as int);
        assert(shares * filled.reserve_x == shares as int * filled.reserve_x as int);
    }
    assert(shares * filled.reserve_y / (shares as int) == filled.reserve_y) by {
        vstd::arithmetic::div_mod::lemma_div_multiples_vanish(filled.reserve_y as int, shares as int);
    }
    assert(vstd::wrapping::u128_specs::wrapping_sub(filled.fee_growth_x, filled.fee_growth_x) == 0);
    assert(vstd::wrapping::u128_specs::wrapping_sub(filled.fee_growth_y, filled.fee_growth_y) == 0);
    assert(0 * shares == 0);
    let (emptied, amount_x, amount_y, fee_x, fee_y) = withdraw_from_bin_spec(
        filled,
        shares,
        filled.fee_growth_x,
        filled.fee_growth_y,
    ).unwrap();
    assert(amount_x == filled.reserve_x);
    assert(amount_y == filled.reserve_y);
    assert(fee_x == 0);
    assert(fee_y == 0);
}

/// A deposit into a bin without reserves or shares, followed by a withdrawal of all the
/// shares it minted at the bin's own fee growth, succeeds, pays out the deposit with no
/// fee, and gives back the bin as it was. The shares fit in 64 bits.
proof fn lemma_fresh_bin_full_withdrawal(bin: Bin, dx: u64, dy: u64)
    requires
        bin.reserve_x == 0,
        bin.reserve_y == 0,
        bin.total_shares == 0,
        crate::instructions::add_liquidity::deposit_into_bin_spec(bin, dx, dy) is Ok,
    ensures
        ({
            let (filled, shares) = crate::instructions::add_liquidity::deposit_into_bin_spec(bin, dx, dy).unwrap();
            &&& shares <= u64::MAX
            &&& filled.fee_growth_x == bin.fee_growth_x
            &&& filled.fee_growth_y == bin.fee_growth_y
            &&& withdraw_from_bin_spec(filled, shares, filled.fee_growth_x, filled.fee_growth_y) == Ok::<
                (Bin, u64, u64, u64, u64),
                HandlerError,
            >((bin, dx, dy, 0, 0))
        }),
{
    let (filled, shares) = crate::instructions::add_liquidity::deposit_into_bin_spec(bin, dx, dy).unwrap();
    if dx > 0 && dy > 0 {
        crate::math::lemma_integer_sqrt_spec(dx * dy);
        let r = crate::math::integer_sqrt_spec(dx * dy);
        assert(r <= u64::MAX) by (nonlinear_arith)
            requires
                0 <= r,
                r * r <= dx * dy,
                dx <= u64::MAX,
                dy <= u64::MAX,
        {
            if r > u64::MAX {
                assert(r * r > u64::MAX * u64::MAX);
                assert(dx * dy <= u64::MAX * u64::MAX);
            }
        }
    }
    assert(shares <= u64::MAX);
    assert(shares * dx <= u128::MAX) by (nonlinear_arith)
        requires shares <= u64::MAX, dx <= u64::MAX;
    assert(shares * dy <= u128::MAX) by (nonlinear_arith)
        requires shares <= u64::MAX, dy <= u64::MAX;
    assert(vstd::wrapping::u128_specs::wrapping_sub(filled.fee_growth_x, filled.fee_growth_x) == 0);
    assert(vstd::wrapping::u128_specs::wrapping_sub(filled.fee_growth_y, filled.fee_growth_y) == 0);
    assert(0 * shares == 0);
    assert(filled.total_shares == shares && shares > 0);
    assert(shares * filled.reserve_x / (shares as int) == filled.reserve_x) by {
        vstd::arithmetic::div_mod::lemma_div_multiples_vanish(filled.reserve_x as int, shares as int);
    }
    assert(shares * filled.reserve_y / (shares as int) == filled.reserve_y) by {
        vstd::arithmetic::div_mod::lemma_div_multiples_vanish(filled.reserve_y as int, shares as int);
    }
    assert(0 * shares / (FEE_PRECISION as int) == 0);
    assert(withdraw_from_bin_spec(filled, shares, filled.fee_growth_x, filled.fee_growth_y) is Ok);
    lemma_fresh_bin_round_trip(bin, dx, dy);
}

/// The fixed inputs of every bin step of a withdrawal.
#[derive(Clone, Copy, Debug, PartialEq, Eq)]
pub struct WithdrawPlan {
    pub pool_key: Pubkey,
    pub program_id: Pubkey,
    pub lower_bin_id: i32,
    pub liquidity_bps: u16,
}

/// The amounts a withdrawal has paid out so far.
#[derive(Clone, Copy, Debug, PartialEq, Eq)]
pub struct WithdrawTally {
    pub total_x: u64,
    pub total_y: u64,
}

/// Where a withdrawal stands between two bins.
pub struct WithdrawState {
    pub position: Position,
    pub accounts: Seq<BinArrayAccount>,
    pub tally: WithdrawTally,
}

/// The position after `shares` leave `slot` and the fees `fee_x` and `fee_y` are
/// credited to it; a slot left without shares has its fee checkpoints cleared.
pub open spec fn debit_slot(position: Position, slot: int, shares: u128, fee_x: u64, fee_y: u64) -> Position {
    let left = (position.liquidity_shares[slot] - shares) as u128;
    Position {
        fee_owned_by_x: (position.fee_owned_by_x + fee_x) as u64,
        fee_owned_by_y: (position.fee_owned_by_y + fee_y) as u64,
        liquidity_shares: vstd::array::spec_array_update(position.liquidity_shares, slot, left),
        fee_growth_inside_x: if left == 0 {
            vstd::array::spec_array_update(position.fee_growth_inside_x, slot, 0)
        } else {
            position.fee_growth_inside_x
        },
        fee_growth_inside_y: if left == 0 {
            vstd::array::spec_array_update(position.fee_growth_inside_y, slot, 0)
        } else {
            position.fee_growth_inside_y
        },
        ..position
    }
}

/// The shares a withdrawal of `liquidity_bps` basis points takes out of a slot that
/// holds `shares`, rounded down; `None` where `shares * liquidity_bps` overflows.
pub open spec fn shares_to_remove_spec(shares: u128, liquidity_bps: u16) -> Option<u128> {
    if shares * liquidity_bps > u128::MAX {
        None
    } else {
        Some((shares * liquidity_bps / (BPS_DENOMINATOR as int)) as u128)
    }
}

/// The withdrawal from bin `bin_id`.
pub open spec fn withdraw_step(plan: WithdrawPlan, s: WithdrawState, bin_id: i32) -> Result<WithdrawState, HandlerError> {
    let slot = bin_id - plan.lower_bin_id;
    if !(0 <= slot < MAX_BINS) {
        fail(DlmmErrors::OutOfBounds)
    } else if s.position.liquidity_shares[slot] == 0 {
        Ok(s)
    } else {
        match shares_to_remove_spec(s.position.liquidity_shares[slot], plan.liquidity_bps) {
            None => fail(DlmmErrors::MathOverflow),
            Some(shares) => if shares == 0 {
                Ok(s)
            } else {
                match locate_bin_for_withdrawal_spec(s.accounts, plan.pool_key, plan.program_id, bin_id) {
                    Err(e) => Err(e),
                    Ok((i, idx)) => match withdraw_from_bin_spec(
                        bin_at(s.accounts, i, idx),
                        shares,
                        s.position.fee_growth_inside_x[slot],
                        s.position.fee_growth_inside_y[slot],
                    ) {
                        Err(e) => Err(e),
                        Ok((bin, amount_x, amount_y, fee_x, fee_y)) => if s.position.fee_owned_by_x + fee_x
                            > u64::MAX || s.position.fee_owned_by_y + fee_y > u64::MAX
                            || s.position.liquidity_shares[slot] < shares || s.tally.total_x + amount_x
                            > u64::MAX || s.tally.total_y + amount_y > u64::MAX {
                            fail(DlmmErrors::MathOverflow)
                        } else {
                            Ok(
                                WithdrawState {
                                    position: debit_slot(s.position, slot, shares, fee_x, fee_y),
                                    accounts: with_bin(s.accounts, i, idx, bin),
                                    tally: WithdrawTally {
                                        total_x: (s.tally.total_x + amount_x) as u64,
                                        total_y: (s.tally.total_y + amount_y) as u64,
                                    },
                                },
                            )
                        },
                    },
                }
            },
        }
    }
}

/// Law: one bin step of a withdrawal, at bin `bin_id`, for every state it succeeds in.
/// The slot of the bin is `bin_id - lower_bin_id`; the shares taken from it are its
/// shares times `liquidity_bps` over 10_000, rounded down. Where none are taken the step
/// changes nothing. Otherwise the bin that the withdrawal's lookup finds gives up those
/// shares as `withdraw_from_bin_spec` says, at the slot's fee checkpoints: the bin is
/// replaced by what is left of it, the slot loses the shares taken and no other slot
/// changes, the amounts paid out are added to the running totals, and the fees earned in
/// `X` and in `Y` are added to what the position is owed in `X` and in `Y`. A slot left
/// without shares has its fee checkpoints cleared; otherwise they stay.
pub proof fn lemma_withdraw_step_outcome(plan: WithdrawPlan, s: WithdrawState, bin_id: i32)
    requires
        withdraw_step(plan, s, bin_id) is Ok,
    ensures
        ({
            let slot = bin_id - plan.lower_bin_id;
            let held = s.position.liquidity_shares[slot];
            let taken = held * plan.liquidity_bps / 10_000;
            let t = withdraw_step(plan, s, bin_id).unwrap();
            &&& 0 <= slot < MAX_BINS
            &&& taken == 0 ==> t == s
            &&& taken > 0 ==> match locate_bin_for_withdrawal_spec(s.accounts, plan.pool_key, plan.program_id, bin_id) {
                Ok((i, idx)) => {
                    let inside_x = s.position.fee_growth_inside_x[slot];
                    let inside_y = s.position.fee_growth_inside_y[slot];
                    match withdraw_from_bin_spec(bin_at(s.accounts, i, idx), taken as u128, inside_x, inside_y) {
                        Ok((after, amount_x, amount_y, fee_x, fee_y)) => {
                            &&& t.accounts == with_bin(s.accounts, i, idx, after)
                            &&& t.position.liquidity_shares[slot] == held - taken
                            &&& forall|u: int|
                                0 <= u < MAX_BINS && u != slot ==> #[trigger] t.position.liquidity_shares[u]
                                    == s.position.liquidity_shares[u]
                            &&& t.position.fee_owned_by_x == s.position.fee_owned_by_x + fee_x
                            &&& t.position.fee_owned_by_y == s.position.fee_owned_by_y + fee_y
                            &&& t.tally.total_x == s.tally.total_x + amount_x
                            &&& t.tally.total_y == s.tally.total_y + amount_y
                            &&& held - taken == 0 ==> t.position.fee_growth_inside_x[slot] == 0
                                && t.position.fee_growth_inside_y[slot] == 0
                            &&& held - taken > 0 ==> t.position.fee_growth_inside_x[slot] == inside_x
                                && t.position.fee_growth_inside_y[slot] == inside_y
                        },
                        Err(_) => false,
                    }
                },
                Err(_) => false,
            }
        }),
{
    let slot = bin_id - plan.lower_bin_id;
    let held = s.position.liquidity_shares[slot];
    let t = withdraw_step(plan, s, bin_id).unwrap();
    if held > 0 {
        let taken = shares_to_remove_spec(held, plan.liquidity_bps).unwrap();
        if taken > 0 {
            let ls = s.position.liquidity_shares;
            vstd::array::axiom_spec_array_update(ls, slot, (held - taken) as u128);
            vstd::array::axiom_spec_array_update(s.position.fee_growth_inside_x, slot, 0);
            vstd::array::axiom_spec_array_update(s.position.fee_growth_inside_y, slot, 0);
        }
    } else {
        assert(held * plan.liquidity_bps == 0) by (nonlinear_arith)
            requires held == 0;
    }
}

/// The withdrawal from the first `k` bins of the range, one after the other.
pub open spec fn withdraw_bins(plan: WithdrawPlan, s0: WithdrawState, k: nat) -> Result<WithdrawState, HandlerError>
    decreases k,
{
    if k == 0 {
        Ok(s0)
    } else {
        match withdraw_bins(plan, s0, (k - 1) as nat) {
            Err(e) => Err(e),
            Ok(s) => withdraw_step(plan, s, (plan.lower_bin_id + k - 1) as i32),
        }
    }
}

/// Once a withdrawal fails at some bin, it fails with that error over every longer run.
pub proof fn lemma_withdraw_bins_stays_failed(plan: WithdrawPlan, s0: WithdrawState, k: nat, n: nat)
    requires
        k <= n,
        withdraw_bins(plan, s0, k) is Err,
    ensures
        withdraw_bins(plan, s0, n) == withdraw_bins(plan, s0, k),
    decreases n - k,
{
    if k < n {
        lemma_withdraw_bins_stays_failed(plan, s0, k, (n - 1) as nat);
    }
}

/// The checks a withdrawal request passes before any bin is touched.
pub open spec fn withdrawal_checks_spec(lower: i32, upper: i32, liquidity_bps: u16) -> Result<(), HandlerError> {
    if !(lower <= upper) {
        fail(DlmmErrors::InvalidBinRange)
    } else if !(upper - lower < MAX_BINS) {
        fail(DlmmErrors::RangeExceedMaxBins)
    } else if !(liquidity_bps > 0 && liquidity_bps <= BPS_DENOMINATOR) {
        fail(DlmmErrors::InvalidTokenAmount)
    } else {
        Ok(())
    }
}

/// The outcome of a withdrawal request: the position and the accounts after it, and
/// what is paid out.
pub open spec fn remove_liquidity_handler_spec(
    ctx: RemoveLiquidity,
    lower: i32,
    upper: i32,
    liquidity_bps: u16,
) -> Result<(Position, Seq<BinArrayAccount>, Withdrawal), HandlerError> {
    match withdrawal_checks_spec(lower, upper, liquidity_bps) {
        Err(e) => Err(e),
        Ok(()) => {
            let plan = WithdrawPlan {
                pool_key: ctx.pool_key,
                program_id: ctx.program_id,
                lower_bin_id: lower,
                liquidity_bps,
            };
            let s0 = WithdrawState {
                position: ctx.position,
                accounts: ctx.remaining_accounts@,
                tally: WithdrawTally { total_x: 0, total_y: 0 },
            };
            match withdraw_bins(plan, s0, (upper - lower + 1) as nat) {
                Err(e) => Err(e),
                Ok(s) => Ok(
                    (
                        s.position,
                        s.accounts,
                        Withdrawal {
                            amount_x: s.tally.total_x,
                            amount_y: s.tally.total_y,
                            close_position: s.position.is_empty(),
                        },
                    ),
                ),
            }
        },
    }
}

/// Withdraws `liquidity_bps` basis points of the position's shares in every bin of
/// `lower_bin_id..=upper_bin_id`: each bin pays out its reserves in proportion to the
/// shares taken, and the fees the shares earned since their checkpoint are credited to
/// the position. Returns the amounts to move from the pool's vaults to the owner. On an
/// error nothing changes.
pub fn remove_liquidity_handler(
    ctx: &mut RemoveLiquidity,
    lower_bin_id: i32,
    upper_bin_id: i32,
    liquidity_bps: u16,
) -> (r: Result<Withdrawal, HandlerError>)
    ensures
        final(ctx).program_id == old(ctx).program_id,
        final(ctx).pool_key == old(ctx).pool_key,
        match remove_liquidity_handler_spec(*old(ctx), lower_bin_id, upper_bin_id, liquidity_bps) {
            Ok((position, accounts, withdrawal)) => {
                &&& r == Ok::<Withdrawal, HandlerError>(withdrawal)
                &&& final(ctx).position == position
                &&& final(ctx).remaining_accounts@ == accounts
            },
            Err(e) => {
                &&& r == Err::<Withdrawal, HandlerError>(e)
                &&& final(ctx).position == old(ctx).position
                &&& final(ctx).remaining_accounts@ == old(ctx).remaining_accounts@
            },
        },
{
    if !(lower_bin_id <= upper_bin_id) {
        return Err(HandlerError::Program(DlmmErrors::InvalidBinRange));
    }
    let width: i64 = upper_bin_id as i64 - lower_bin_id as i64;
    if !(width < MAX_BINS as i64) {
        return Err(HandlerError::Program(DlmmErrors::RangeExceedMaxBins));
    }
    if !(liquidity_bps > 0 && liquidity_bps as u128 <= BPS_DENOMINATOR) {
        return Err(HandlerError::Program(DlmmErrors::InvalidTokenAmount));
    }
    let plan = WithdrawPlan {
        pool_key: ctx.pool_key,
        program_id: ctx.program_id,
        lower_bin_id,
        liquidity_bps,
    };
    let mut position = ctx.position;
    let mut accounts = copy_accounts(&ctx.remaining_accounts);
    let mut tally = WithdrawTally { total_x: 0, total_y: 0 };
    let ghost s0 = WithdrawState { position, accounts: accounts@, tally };
    let count: usize = (width + 1) as usize;
    let mut k: usize = 0;
    while k < count
        invariant
            count == upper_bin_id - lower_bin_id + 1,
            count <= MAX_BINS,
            k <= count,
            plan == (WithdrawPlan {
                pool_key: ctx.pool_key,
                program_id: ctx.program_id,
                lower_bin_id: lower_bin_id,
                liquidity_bps: liquidity_bps,
            }),
            withdrawal_checks_spec(lower_bin_id, upper_bin_id, liquidity_bps) == Ok::<(), HandlerError>(()),
            s0 == (WithdrawState {
                position: ctx.position,
                accounts: ctx.remaining_accounts@,
                tally: WithdrawTally { total_x: 0, total_y: 0 },
            }),
            *ctx == *old(ctx),
            withdraw_bins(plan, s0, k as nat) == Ok::<WithdrawState, HandlerError>(
                WithdrawState { position, accounts: accounts@, tally },
            ),
        decreases count - k,
    {
        let bin_id: i32 = lower_bin_id + k as i32;
        let ghost before = WithdrawState { position, accounts: accounts@, tally };
        assert(withdraw_bins(plan, s0, (k + 1) as nat) == withdraw_step(plan, before, bin_id));
        proof {
            if withdraw_bins(plan, s0, (k + 1) as nat) is Err {
                lemma_withdraw_bins_stays_failed(plan, s0, (k + 1) as nat, count as nat);
            }
        }
        match withdraw_from_next_bin(&plan, &mut position, &mut accounts, &mut tally, bin_id) {
            Ok(()) => {},
            Err(e) => {
                assert(withdraw_bins(plan, s0, count as nat) == Err::<WithdrawState, HandlerError>(e));
                return Err(e);
            },
        }
        k += 1;
    }
    let fully_exited = position.has_no_shares();
    ctx.position = position;
    ctx.remaining_accounts = accounts;
    Ok(Withdrawal { amount_x: tally.total_x, amount_y: tally.total_y, close_position: fully_exited })
}

/// The withdrawal from bin `bin_id`, as `withdraw_step` states it.
fn withdraw_from_next_bin(
    plan: &WithdrawPlan,
    position: &mut Position,
    accounts: &mut Vec<BinArrayAccount>,
    tally: &mut WithdrawTally,
    bin_id: i32,
) -> (r: Result<(), HandlerError>)
    ensures
        match withdraw_step(
            *plan,
            WithdrawState { position: *old(position), accounts: old(accounts)@, tally: *old(tally) },
            bin_id,
        ) {
            Ok(s) => {
                &&& r is Ok
                &&& s == WithdrawState { position: *final(position), accounts: final(accounts)@, tally: *final(tally) }
            },
            Err(e) => r == Err::<(), HandlerError>(e),
        },
{
    let offset: i64 = bin_id as i64 - plan.lower_bin_id as i64;
    if !(0 <= offset && offset < MAX_BINS as i64) {
        return Err(HandlerError::Program(DlmmErrors::OutOfBounds));
    }
    let slot = offset as usize;
    let user_shares = position.liquidity_shares[slot];
    if user_shares == 0 {
        return Ok(());
    }
    // calculate the shares to remove
    let shares_to_remove = match user_shares.checked_mul(plan.liquidity_bps as u128) {
        Some(p) => p / BPS_DENOMINATOR,
        None => return Err(HandlerError::Program(DlmmErrors::MathOverflow)),
    };
    if shares_to_remove == 0 {
        return Ok(());
    }
    // Load the bin array details
    let (i, idx) = match locate_bin_for_withdrawal(accounts, &plan.pool_key, &plan.program_id, bin_id) {
        Ok(loc) => loc,
        Err(e) => return Err(e),
    };
    let bin: Bin = match &accounts[i].data {
        Some(arr) => arr.bins[idx],
        None => return Err(HandlerError::Program(DlmmErrors::BinArrayNotFound)),
    };
    let (new_bin, amount_x, amount_y, fee_x, fee_y) = match withdraw_from_bin(
        &bin,
        shares_to_remove,
        position.fee_growth_inside_x[slot],
        position.fee_growth_inside_y[slot],
    ) {
        Ok(v) => v,
        Err(e) => return Err(e),
    };
    let fee_owned_by_x = match position.fee_owned_by_x.checked_add(fee_x) {
        Some(v) => v,
        None => return Err(HandlerError::Program(DlmmErrors::MathOverflow)),
    };
    let fee_owned_by_y = match position.fee_owned_by_y.checked_add(fee_y) {
        Some(v) => v,
        None => return Err(HandlerError::Program(DlmmErrors::MathOverflow)),
    };
    let slot_shares = match user_shares.checked_sub(shares_to_remove) {
        Some(v) => v,
        None => return Err(HandlerError::Program(DlmmErrors::MathOverflow)),
    };
    let total_x = match tally.total_x.checked_add(amount_x) {
        Some(v) => v,
        None => return Err(HandlerError::Program(DlmmErrors::MathOverflow)),
    };
    let total_y = match tally.total_y.checked_add(amount_y) {
        Some(v) => v,
        None => return Err(HandlerError::Program(DlmmErrors::MathOverflow)),
    };
    store_bin(accounts, i, idx, new_bin);
    position.fee_owned_by_x = fee_owned_by_x;
    position.fee_owned_by_y = fee_owned_by_y;
    position.liquidity_shares[slot] = slot_shares;
    if slot_shares == 0 {
        position.fee_growth_inside_x[slot] = 0;
        position.fee_growth_inside_y[slot] = 0;
    }
    tally.total_x = total_x;
    tally.total_y = total_y;
    Ok(())
}

/// Withdrawing all basis points takes every share of a slot.
proof fn lemma_full_bps_takes_all(shares: u128)
    requires
        shares * 10000 <= u128::MAX,
    ensures
        shares_to_remove_spec(shares, 10000) == Some(shares),
{
    assert((shares * 10000) / 10000 == shares) by {
        vstd::arithmetic::div_mod::lemma_div_multiples_vanish(shares as int, 10000);
        assert(shares * 10000 == 10000 * shares) by (nonlinear_arith);
    }
}

/// Over a full withdrawal, the first `k` slots are emptied and the others kept.
proof fn lemma_full_withdrawal_bins(plan: WithdrawPlan, s0: WithdrawState, k: nat)
    requires
        withdraw_bins(plan, s0, k) is Ok,
        plan.liquidity_bps == 10000,
        k <= MAX_BINS,
        plan.lower_bin_id + k - 1 <= i32::MAX,
    ensures
        forall|j: int|
            0 <= j < MAX_BINS ==> #[trigger] withdraw_bins(plan, s0, k).unwrap().position.liquidity_shares[j]
                == if j < k {
                0
            } else {
                s0.position.liquidity_shares[j]
            },
    decreases k,
{
    if k > 0 {
        lemma_full_withdrawal_bins(plan, s0, (k - 1) as nat);
        let s = withdraw_bins(plan, s0, (k - 1) as nat).unwrap();
        let bin_id = (plan.lower_bin_id + k - 1) as i32;
        let slot = bin_id - plan.lower_bin_id;
        assert(slot == k - 1);
        let t = withdraw_step(plan, s, bin_id).unwrap();
        let user = s.position.liquidity_shares[slot];
        if user != 0 {
            if user * 10000 <= u128::MAX {
                lemma_full_bps_takes_all(user);
                let shares = user;
                lemma_locate_bin_for_withdrawal_spec_valid(s.accounts, plan.pool_key, plan.program_id, bin_id);
                let (i, idx) = locate_bin_for_withdrawal_spec(s.accounts, plan.pool_key, plan.program_id, bin_id).unwrap();
                let (bin, ax, ay, fx, fy) = withdraw_from_bin_spec(
                    bin_at(s.accounts, i, idx),
                    shares,
                    s.position.fee_growth_inside_x[slot],
                    s.position.fee_growth_inside_y[slot],
                ).unwrap();
                let left = vstd::array::spec_array_update(s.position.liquidity_shares, slot, 0u128);
                assert(t.position.liquidity_shares == left);
                vstd::array::axiom_spec_array_update(s.position.liquidity_shares, slot, 0u128);
                vstd::array::array_len_matches_n(&s.position.liquidity_shares);
                assert forall|j: int| 0 <= j < MAX_BINS implies #[trigger] t.position.liquidity_shares[j] == if j < k {
                    0
                } else {
                    s0.position.liquidity_shares[j]
                } by {
                    assert(left@[j] == if j == slot { 0u128 } else { s.position.liquidity_shares@[j] });
                }
            }
        }
    }
}

/// Law: withdrawing all basis points empties the position, where the position holds
/// no shares outside the range; the withdrawal then closes it.
pub proof fn lemma_full_withdrawal_closes_position(ctx: RemoveLiquidity, lower_bin_id: i32, upper_bin_id: i32)
    requires
        remove_liquidity_handler_spec(ctx, lower_bin_id, upper_bin_id, 10000) is Ok,
        forall|j: int|
            upper_bin_id - lower_bin_id < j < MAX_BINS ==> #[trigger] ctx.position.liquidity_shares[j] == 0,
    ensures
        ({
            let (position, accounts, withdrawal) = remove_liquidity_handler_spec(ctx, lower_bin_id, upper_bin_id, 10000).unwrap();
            &&& position.is_empty()
            &&& withdrawal.close_position
        }),
{
    let plan = WithdrawPlan {
        pool_key: ctx.pool_key,
        program_id: ctx.program_id,
        lower_bin_id: lower_bin_id,
        liquidity_bps: 10000,
    };
    let s0 = WithdrawState {
        position: ctx.position,
        accounts: ctx.remaining_accounts@,
        tally: WithdrawTally { total_x: 0, total_y: 0 },
    };
    let k = (upper_bin_id - lower_bin_id + 1) as nat;
    lemma_full_withdrawal_bins(plan, s0, k);
    let position = withdraw_bins(plan, s0, k).unwrap().position;
    assert forall|j: int| 0 <= j < MAX_BINS implies #[trigger] position.liquidity_shares[j] == 0 by {
        assert(position.liquidity_shares[j] == if j < k { 0 } else { s0.position.liquidity_shares[j] });
    }
}

/// Each bin step pays out of the bins exactly what it adds to the running totals, and
/// the bin and the position lose the same shares.
proof fn lemma_withdraw_step_conserves(plan: WithdrawPlan, s: WithdrawState, bin_id: i32)
    requires
        withdraw_step(plan, s, bin_id) is Ok,
    ensures
        ({
            let t = withdraw_step(plan, s, bin_id).unwrap();
            &&& total_reserve_x(t.accounts) + t.tally.total_x == total_reserve_x(s.accounts) + s.tally.total_x
            &&& total_reserve_y(t.accounts) + t.tally.total_y == total_reserve_y(s.accounts) + s.tally.total_y
            &&& total_shares_issued(t.accounts) - position_shares(t.position) == total_shares_issued(s.accounts)
                - position_shares(s.position)
        }),
{
    let slot = bin_id - plan.lower_bin_id;
    if s.position.liquidity_shares[slot] != 0 {
        let shares = shares_to_remove_spec(s.position.liquidity_shares[slot], plan.liquidity_bps).unwrap();
        if shares != 0 {
            lemma_locate_bin_for_withdrawal_spec_valid(s.accounts, plan.pool_key, plan.program_id, bin_id);
            let (i, idx) = locate_bin_for_withdrawal_spec(s.accounts, plan.pool_key, plan.program_id, bin_id).unwrap();
            let (bin, ax, ay, fx, fy) = withdraw_from_bin_spec(
                bin_at(s.accounts, i, idx),
                shares,
                s.position.fee_growth_inside_x[slot],
                s.position.fee_growth_inside_y[slot],
            ).unwrap();
            lemma_sum_with_bin(s.accounts, i, idx, bin, reserve_x_fn());
            lemma_sum_with_bin(s.accounts, i, idx, bin, reserve_y_fn());
            lemma_sum_with_bin(s.accounts, i, idx, bin, shares_fn());
            lemma_position_shares_update(s.position, slot, (s.position.liquidity_shares[slot] - shares) as u128);
        }
    }
}

/// Over any run of bin steps, the tokens paid out of the bins equal the growth of the
/// running totals, and bins and position lose the same shares.
proof fn lemma_withdraw_bins_conserve(plan: WithdrawPlan, s0: WithdrawState, k: nat)
    requires
        withdraw_bins(plan, s0, k) is Ok,
    ensures
        ({
            let s = withdraw_bins(plan, s0, k).unwrap();
            &&& total_reserve_x(s.accounts) + s.tally.total_x == total_reserve_x(s0.accounts) + s0.tally.total_x
            &&& total_reserve_y(s.accounts) + s.tally.total_y == total_reserve_y(s0.accounts) + s0.tally.total_y
            &&& total_shares_issued(s.accounts) - position_shares(s.position) == total_shares_issued(s0.accounts)
                - position_shares(s0.position)
        }),
    decreases k,
{
    if k > 0 {
        lemma_withdraw_bins_conserve(plan, s0, (k - 1) as nat);
        let s = withdraw_bins(plan, s0, (k - 1) as nat).unwrap();
        lemma_withdraw_step_conserves(plan, s, (plan.lower_bin_id + k - 1) as i32);
    }
}

/// Law: a withdrawal takes out of the pool's bins exactly the amounts it pays the
/// owner; the `X` held in all the bins falls by `amount_x` of the result, the `Y` by
/// `amount_y`; and the bins retire exactly the shares that the position gives up.
pub proof fn lemma_withdrawal_moves_reported_amounts(
    ctx: RemoveLiquidity,
    lower_bin_id: i32,
    upper_bin_id: i32,
    liquidity_bps: u16,
)
    requires
        remove_liquidity_handler_spec(ctx, lower_bin_id, upper_bin_id, liquidity_bps) is Ok,
    ensures
        ({
            let (position, accounts, withdrawal) = remove_liquidity_handler_spec(
                ctx,
                lower_bin_id,
                upper_bin_id,
                liquidity_bps,
            ).unwrap();
            &&& total_reserve_x(accounts) == total_reserve_x(ctx.remaining_accounts@) - withdrawal.amount_x
            &&& total_reserve_y(accounts) == total_reserve_y(ctx.remaining_accounts@) - withdrawal.amount_y
            &&& total_shares_issued(ctx.remaining_accounts@) - total_shares_issued(accounts)
                == position_shares(ctx.position) - position_shares(position)
        }),
{
    let plan = WithdrawPlan {
        pool_key: ctx.pool_key,
        program_id: ctx.program_id,
        lower_bin_id: lower_bin_id,
        liquidity_bps,
    };
    let s0 = WithdrawState {
        position: ctx.position,
        accounts: ctx.remaining_accounts@,
        tally: WithdrawTally { total_x: 0, total_y: 0 },
    };
    lemma_withdraw_bins_conserve(plan, s0, (upper_bin_id - lower_bin_id + 1) as nat);
}

/// The reserves per share of `after` are at least those of `before`, for both tokens:
/// `after.reserve * before.total_shares >= before.reserve * after.total_shares`.
pub open spec fn reserves_per_share_kept(before: Bin, after: Bin) -> bool {
    &&& after.reserve_x * before.total_shares >= before.reserve_x * after.total_shares
    &&& after.reserve_y * before.total_shares >= before.reserve_y * after.total_shares
}

/// Bin `k` of account `j` is the bin that the withdrawal's lookup finds for its own bin
/// id, and that id lies among the first `n` bins of the range.
pub open spec fn withdraw_covers(plan: WithdrawPlan, accounts: Seq<BinArrayAccount>, n: int, j: int, k: int) -> bool {
    let b = array_at(accounts, j).start_bin_id + k;
    &&& plan.lower_bin_id <= b < plan.lower_bin_id + n
    &&& locate_bin_for_withdrawal_spec(accounts, plan.pool_key, plan.program_id, b as i32) == Ok::<
        (int, int),
        HandlerError,
    >((j, k))
}

/// After the first `n` bin steps, from `s0` to `s`: the layout of the accounts is kept,
/// the slots from `n` on are untouched, each bin the steps reached has lost the shares
/// that its slot lost, every other bin is as it was, and no bin's reserves per share
/// have fallen.
pub open spec fn withdraw_shares_tracked(plan: WithdrawPlan, s0: WithdrawState, s: WithdrawState, n: int) -> bool {
    &&& same_layout(s0.accounts, s.accounts)
    &&& forall|t: int| n <= t < MAX_BINS ==> #[trigger] s.position.liquidity_shares[t] == s0.position.liquidity_shares[t]
    &&& forall|j: int, k: int|
        0 <= j < s0.accounts.len() && s0.accounts[j].data is Some && 0 <= k < BINS_PER_ARRAY ==> {
            &&& reserves_per_share_kept(bin_at(s0.accounts, j, k), #[trigger] bin_at(s.accounts, j, k))
            &&& if withdraw_covers(plan, s0.accounts, n, j, k) {
                let slot = array_at(s0.accounts, j).start_bin_id + k - plan.lower_bin_id;
                bin_at(s0.accounts, j, k).total_shares - bin_at(s.accounts, j, k).total_shares
                    == s0.position.liquidity_shares[slot] - s.position.liquidity_shares[slot]
            } else {
                bin_at(s.accounts, j, k) == bin_at(s0.accounts, j, k)
            }
        }
}

/// Taking shares out of a bin within their part of the reserves keeps its reserves
/// per share.
proof fn lemma_withdraw_from_bin_keeps_per_share(bin: Bin, shares: u128, inside_x: u128, inside_y: u128)
    requires
        withdraw_from_bin_spec(bin, shares, inside_x, inside_y) is Ok,
    ensures
        reserves_per_share_kept(bin, withdraw_from_bin_spec(bin, shares, inside_x, inside_y).unwrap().0),
        withdraw_from_bin_spec(bin, shares, inside_x, inside_y).unwrap().0.total_shares == bin.total_shares - shares,
{
    lemma_withdrawal_within_share(bin, shares, inside_x, inside_y);
    let (after, ax, ay, fx, fy) = withdraw_from_bin_spec(bin, shares, inside_x, inside_y).unwrap();
    let t = bin.total_shares as int;
    assert(after.reserve_x * t >= bin.reserve_x * after.total_shares) by (nonlinear_arith)
        requires
            after.reserve_x == bin.reserve_x - ax,
            after.total_shares == t - shares,
            ax * t <= shares * bin.reserve_x,
    ;
    assert(after.reserve_y * t >= bin.reserve_y * after.total_shares) by (nonlinear_arith)
        requires
            after.reserve_y == bin.reserve_y - ay,
            after.total_shares == t - shares,
            ay * t <= shares * bin.reserve_y,
    ;
}

/// One more bin step keeps the bookkeeping of `withdraw_shares_tracked`.
proof fn lemma_withdraw_step_tracks(plan: WithdrawPlan, s0: WithdrawState, s: WithdrawState, n: nat)
    requires
        withdraw_shares_tracked(plan, s0, s, n as int),
        plan.lower_bin_id + n <= i32::MAX,
        withdraw_step(plan, s, (plan.lower_bin_id + n) as i32) is Ok,
    ensures
        withdraw_shares_tracked(plan, s0, withdraw_step(plan, s, (plan.lower_bin_id + n) as i32).unwrap(), n + 1 as int),
{
    let bin_id = (plan.lower_bin_id + n) as i32;
    let t = withdraw_step(plan, s, bin_id).unwrap();
    let a0 = s0.accounts;
    let slot = n as int;
    lemma_same_layout_locate(a0, s.accounts, plan.pool_key, plan.program_id, bin_id);
    lemma_locate_bin_id(a0, plan.pool_key, plan.program_id, bin_id);
    if t == s {
        assert forall|j: int, k: int|
            0 <= j < a0.len() && a0[j].data is Some && 0 <= k < BINS_PER_ARRAY implies {
                &&& reserves_per_share_kept(bin_at(a0, j, k), #[trigger] bin_at(t.accounts, j, k))
                &&& if withdraw_covers(plan, a0, n + 1 as int, j, k) {
                    let slot = array_at(a0, j).start_bin_id + k - plan.lower_bin_id;
                    bin_at(a0, j, k).total_shares - bin_at(t.accounts, j, k).total_shares
                        == s0.position.liquidity_shares[slot] - t.position.liquidity_shares[slot]
                } else {
                    bin_at(t.accounts, j, k) == bin_at(a0, j, k)
                }
            } by {
            let b = array_at(a0, j).start_bin_id + k;
            if withdraw_covers(plan, a0, n + 1 as int, j, k) && !withdraw_covers(plan, a0, n as int, j, k) {
                assert(b == bin_id);
                assert(s.position.liquidity_shares[slot] == s0.position.liquidity_shares[slot]);
            }
        }
    } else {
        let shares = shares_to_remove_spec(s.position.liquidity_shares[slot], plan.liquidity_bps).unwrap();
        let (i, idx) = locate_bin_for_withdrawal_spec(s.accounts, plan.pool_key, plan.program_id, bin_id).unwrap();
        lemma_locate_bin_for_withdrawal_spec_valid(s.accounts, plan.pool_key, plan.program_id, bin_id);
        let old_bin = bin_at(s.accounts, i, idx);
        let inside_x = s.position.fee_growth_inside_x[slot];
        let inside_y = s.position.fee_growth_inside_y[slot];
        let (bin, ax, ay, fx, fy) = withdraw_from_bin_spec(old_bin, shares, inside_x, inside_y).unwrap();
        lemma_withdraw_from_bin_keeps_per_share(old_bin, shares, inside_x, inside_y);
        lemma_with_bin_same_layout(s.accounts, i, idx, bin);
        lemma_same_layout_trans(a0, s.accounts, t.accounts);
        lemma_with_bin_frame(s.accounts, i, idx, bin);
        vstd::array::axiom_spec_array_update(
            s.position.liquidity_shares,
            slot,
            (s.position.liquidity_shares[slot] - shares) as u128,
        );
        assert forall|u: int| n + 1 <= u < MAX_BINS implies #[trigger] t.position.liquidity_shares[u]
            == s0.position.liquidity_shares[u] by {
            assert(s.position.liquidity_shares[u] == s0.position.liquidity_shares[u]);
        }
        assert(a0[i].data is Some);
        assert(array_at(a0, i).start_bin_id + idx == bin_id);
        assert(!withdraw_covers(plan, a0, n as int, i, idx));
        assert(bin_at(s.accounts, i, idx) == bin_at(a0, i, idx));
        assert forall|j: int, k: int|
            0 <= j < a0.len() && a0[j].data is Some && 0 <= k < BINS_PER_ARRAY implies {
                &&& reserves_per_share_kept(bin_at(a0, j, k), #[trigger] bin_at(t.accounts, j, k))
                &&& if withdraw_covers(plan, a0, n + 1 as int, j, k) {
                    let slot = array_at(a0, j).start_bin_id + k - plan.lower_bin_id;
                    bin_at(a0, j, k).total_shares - bin_at(t.accounts, j, k).total_shares
                        == s0.position.liquidity_shares[slot] - t.position.liquidity_shares[slot]
                } else {
                    bin_at(t.accounts, j, k) == bin_at(a0, j, k)
                }
            } by {
            let b = array_at(a0, j).start_bin_id + k;
            if j == i && k == idx {
                assert(withdraw_covers(plan, a0, n + 1 as int, j, k));
                assert(s.position.liquidity_shares[slot] == s0.position.liquidity_shares[slot]);
            } else {
                if j != i {
                    assert(t.accounts[j] == s.accounts[j]);
                }
                assert(bin_at(t.accounts, j, k) == bin_at(s.accounts, j, k));
                if withdraw_covers(plan, a0, n + 1 as int, j, k) {
                    assert(b != bin_id);
                    assert(b - plan.lower_bin_id < n);
                }
            }
        }
    }
}

/// Every run of bin steps keeps the bookkeeping of `withdraw_shares_tracked`.
proof fn lemma_withdraw_bins_track(plan: WithdrawPlan, s0: WithdrawState, k: nat)
    requires
        withdraw_bins(plan, s0, k) is Ok,
        plan.lower_bin_id + k - 1 <= i32::MAX,
    ensures
        withdraw_shares_tracked(plan, s0, withdraw_bins(plan, s0, k).unwrap(), k as int),
    decreases k,
{
    if k == 0 {
        assert(same_layout(s0.accounts, s0.accounts));
        assert forall|j: int, k: int|
            0 <= j < s0.accounts.len() && s0.accounts[j].data is Some && 0 <= k < BINS_PER_ARRAY implies
                reserves_per_share_kept(bin_at(s0.accounts, j, k), #[trigger] bin_at(s0.accounts, j, k)) by {
            let b = bin_at(s0.accounts, j, k);
            assert(b.reserve_x * b.total_shares >= b.reserve_x * b.total_shares);
        }
    } else {
        lemma_withdraw_bins_track(plan, s0, (k - 1) as nat);
        let s = withdraw_bins(plan, s0, (k - 1) as nat).unwrap();
        lemma_withdraw_step_tracks(plan, s0, s, (k - 1) as nat);
    }
}

/// Law: a withdrawal changes the total shares of exactly the bins it reaches, each by
/// what the position's slot for that bin loses, and never lowers any bin's reserves per
/// share. For every bin of the remaining accounts whose bin id `b` lies in
/// `lower_bin_id..=upper_bin_id` and that the withdrawal's lookup of `b` finds, the
/// bin's total shares fall by what slot `b - lower_bin_id` of the position falls by;
/// every other bin is as it was, and so is every slot past the range. Since other
/// positions are left alone, a bin's total shares stay the sum of the slots that the
/// positions hold for it.
pub proof fn lemma_withdrawal_shares_per_bin(
    ctx: RemoveLiquidity,
    lower_bin_id: i32,
    upper_bin_id: i32,
    liquidity_bps: u16,
)
    requires
        remove_liquidity_handler_spec(ctx, lower_bin_id, upper_bin_id, liquidity_bps) is Ok,
    ensures
        ({
            let (position, accounts, withdrawal) = remove_liquidity_handler_spec(
                ctx,
                lower_bin_id,
                upper_bin_id,
                liquidity_bps,
            ).unwrap();
            let old_accounts = ctx.remaining_accounts@;
            &&& same_layout(old_accounts, accounts)
            &&& forall|t: int|
                upper_bin_id - lower_bin_id < t < MAX_BINS ==> #[trigger] position.liquidity_shares[t]
                    == ctx.position.liquidity_shares[t]
            &&& forall|j: int, k: int|
                0 <= j < old_accounts.len() && old_accounts[j].data is Some && 0 <= k < BINS_PER_ARRAY ==> {
                    let b = array_at(old_accounts, j).start_bin_id + k;
                    &&& reserves_per_share_kept(bin_at(old_accounts, j, k), #[trigger] bin_at(accounts, j, k))
                    &&& if lower_bin_id <= b <= upper_bin_id && locate_bin_for_withdrawal_spec(
                        old_accounts,
                        ctx.pool_key,
                        ctx.program_id,
                        b as i32,
                    ) == Ok::<(int, int), HandlerError>((j, k)) {
                        bin_at(old_accounts, j, k).total_shares - bin_at(accounts, j, k).total_shares
                            == ctx.position.liquidity_shares[b - lower_bin_id] - position.liquidity_shares[b
                            - lower_bin_id]
                    } else {
                        bin_at(accounts, j, k) == bin_at(old_accounts, j, k)
                    }
                }
        }),
{
    let plan = WithdrawPlan {
        pool_key: ctx.pool_key,
        program_id: ctx.program_id,
        lower_bin_id: lower_bin_id,
        liquidity_bps,
    };
    let s0 = WithdrawState {
        position: ctx.position,
        accounts: ctx.remaining_accounts@,
        tally: WithdrawTally { total_x: 0, total_y: 0 },
    };
    lemma_withdraw_bins_track(plan, s0, (upper_bin_id - lower_bin_id + 1) as nat);
}

/// A bin that holds no reserves and no shares.
pub open spec fn holds_nothing(bin: Bin) -> bool {
    bin.reserve_x == 0 && bin.reserve_y == 0 && bin.total_shares == 0
}

/// Where a full withdrawal `w` of what a deposit (from `sd0` to `sd`) minted stands
/// after its first `n` bin steps: as much has come out as the first `n` deposit steps
/// put in, the first `n` slots are empty and the others as the deposit left them, each
/// bin that the first `n` deposit steps reached is back as it was before the deposit,
/// and every other bin is as the deposit left it.
pub open spec fn round_trip_tracked(pd: DepositPlan, sd0: DepositState, sd: DepositState, w: WithdrawState, n: int) -> bool {
    let dn = deposit_bins(pd, sd0, n as nat).unwrap();
    let a0 = sd0.accounts;
    &&& w.tally.total_x == dn.tally.total_x
    &&& w.tally.total_y == dn.tally.total_y
    &&& same_layout(a0, w.accounts)
    &&& w.position.fee_owned_by_x == sd.position.fee_owned_by_x
    &&& w.position.fee_owned_by_y == sd.position.fee_owned_by_y
    &&& forall|t: int| 0 <= t < n ==> #[trigger] w.position.liquidity_shares[t] == 0
    &&& forall|t: int|
        n <= t < MAX_BINS ==> {
            &&& #[trigger] w.position.liquidity_shares[t] == sd.position.liquidity_shares[t]
            &&& w.position.fee_growth_inside_x[t] == sd.position.fee_growth_inside_x[t]
            &&& w.position.fee_growth_inside_y[t] == sd.position.fee_growth_inside_y[t]
        }
    &&& forall|j: int, k: int|
        0 <= j < a0.len() && a0[j].data is Some && 0 <= k < BINS_PER_ARRAY ==> #[trigger] bin_at(w.accounts, j, k)
            == if deposit_covers(pd, a0, n, j, k) {
            bin_at(a0, j, k)
        } else {
            bin_at(sd.accounts, j, k)
        }
}

/// What the round trip needs of the deposit: a run of `total` bin steps that succeeds,
/// from nothing taken yet and a position without shares, over bins that hold nothing, in bin arrays that end
/// below `i32::MAX`; and a full withdrawal over the same range, pool and program.
pub open spec fn round_trip_setup(pd: DepositPlan, sd0: DepositState, total: nat, pw: WithdrawPlan) -> bool {
    let a0 = sd0.accounts;
    &&& deposit_bins(pd, sd0, total) is Ok
    &&& sd0.tally.total_x == 0
    &&& sd0.tally.total_y == 0
    &&& pd.lower_bin_id + total - 1 + BINS_PER_ARRAY <= i32::MAX
    &&& pw.lower_bin_id == pd.lower_bin_id
    &&& pw.pool_key == pd.pool_key
    &&& pw.program_id == pd.program_id
    &&& pw.liquidity_bps == 10000
    &&& forall|t: int| 0 <= t < MAX_BINS ==> #[trigger] sd0.position.liquidity_shares[t] == 0
    &&& forall|j: int, k: int|
        0 <= j < a0.len() && a0[j].data is Some && 0 <= k < BINS_PER_ARRAY && pd.lower_bin_id <= array_at(
            a0,
            j,
        ).start_bin_id + k < pd.lower_bin_id + total ==> holds_nothing(#[trigger] bin_at(a0, j, k))
}

/// One more bin step of the full withdrawal succeeds and keeps `round_trip_tracked`.
proof fn lemma_round_trip_step(pd: DepositPlan, sd0: DepositState, total: nat, pw: WithdrawPlan, w: WithdrawState, n: nat)
    requires
        n < total,
        round_trip_setup(pd, sd0, total, pw),
        round_trip_tracked(pd, sd0, deposit_bins(pd, sd0, total).unwrap(), w, n as int),
    ensures
        withdraw_step(pw, w, (pd.lower_bin_id + n) as i32) is Ok,
        round_trip_tracked(
            pd,
            sd0,
            deposit_bins(pd, sd0, total).unwrap(),
            withdraw_step(pw, w, (pd.lower_bin_id + n) as i32).unwrap(),
            n + 1 as int,
        ),
{
    let sd = deposit_bins(pd, sd0, total).unwrap();
    let a0 = sd0.accounts;
    let bin_id = (pd.lower_bin_id + n) as i32;
    let slot = n as int;
    lemma_deposit_bins_frame(pd, sd0, n + 1, total);
    lemma_deposit_bins_frame(pd, sd0, n, total);
    lemma_deposit_bins_track(pd, sd0, n);
    lemma_deposit_bins_track(pd, sd0, total);
    let dn = deposit_bins(pd, sd0, n).unwrap();
    let dn1 = deposit_bins(pd, sd0, n + 1).unwrap();
    assert(dn1 == deposit_step(pd, dn, bin_id).unwrap());
    let (dx, dy, rx, ry) = deposit_split(pd, bin_id, dn.tally.remaining_x, dn.tally.remaining_y).unwrap();
    lemma_same_layout_locate(a0, dn.accounts, pd.pool_key, pd.program_id, bin_id);
    lemma_same_layout_locate(a0, w.accounts, pd.pool_key, pd.program_id, bin_id);
    lemma_locate_bin_id(a0, pd.pool_key, pd.program_id, bin_id);
    assert(dn.position.liquidity_shares[slot] == sd0.position.liquidity_shares[slot]);
    assert(w.position.liquidity_shares[slot] == sd.position.liquidity_shares[slot]);
    assert(sd.position.liquidity_shares[slot] == dn1.position.liquidity_shares[slot]);
    if dx == 0 && dy == 0 {
        assert(withdraw_step(pw, w, bin_id) == Ok::<WithdrawState, HandlerError>(w));
        assert(dn1.tally.total_x == dn.tally.total_x);
        assert(dn1.tally.total_y == dn.tally.total_y);
        assert forall|u: int| n + 1 <= u < MAX_BINS implies {
            &&& #[trigger] w.position.liquidity_shares[u] == sd.position.liquidity_shares[u]
            &&& w.position.fee_growth_inside_x[u] == sd.position.fee_growth_inside_x[u]
            &&& w.position.fee_growth_inside_y[u] == sd.position.fee_growth_inside_y[u]
        } by {}
        assert forall|t: int| 0 <= t < n + 1 implies #[trigger] w.position.liquidity_shares[t] == 0 by {
            if t == slot {
                assert(w.position.liquidity_shares[slot] == 0);
            }
        }
        assert forall|j: int, k: int|
            0 <= j < a0.len() && a0[j].data is Some && 0 <= k < BINS_PER_ARRAY implies #[trigger] bin_at(
                w.accounts,
                j,
                k,
            ) == if deposit_covers(pd, a0, n + 1 as int, j, k) {
                bin_at(a0, j, k)
            } else {
                bin_at(sd.accounts, j, k)
            } by {
            if deposit_covers(pd, a0, n + 1 as int, j, k) && !deposit_covers(pd, a0, n as int, j, k) {
                assert(bin_at(sd.accounts, j, k) == bin_at(dn1.accounts, j, k));
                assert(bin_at(dn.accounts, j, k) == bin_at(a0, j, k));
            }
        }
    } else {
        let (i, idx) = locate_bin_spec(dn.accounts, pd.pool_key, pd.program_id, bin_id).unwrap();
        lemma_locate_bin_spec_valid(dn.accounts, pd.pool_key, pd.program_id, bin_id);
        assert(a0[i].data is Some);
        assert(array_at(a0, i).start_bin_id + idx == bin_id);
        assert(!deposit_covers(pd, a0, n as int, i, idx));
        assert(deposit_covers(pd, a0, n + 1 as int, i, idx));
        let z = bin_at(dn.accounts, i, idx);
        assert(z == bin_at(a0, i, idx));
        assert(holds_nothing(bin_at(a0, i, idx)));
        let (filled, sh) = deposit_into_bin_spec(z, dx, dy).unwrap();
        lemma_fresh_bin_full_withdrawal(z, dx, dy);
        lemma_with_bin_frame(dn.accounts, i, idx, filled);
        vstd::array::axiom_spec_array_update(dn.position.liquidity_shares, slot, (0 + sh) as u128);
        vstd::array::axiom_spec_array_update(dn.position.fee_growth_inside_x, slot, filled.fee_growth_x);
        vstd::array::axiom_spec_array_update(dn.position.fee_growth_inside_y, slot, filled.fee_growth_y);
        assert(dn1.position.liquidity_shares[slot] == sh);
        assert(bin_at(dn1.accounts, i, idx) == filled);
        assert(bin_at(sd.accounts, i, idx) == filled);
        assert(w.position.liquidity_shares[slot] == sh);
        assert(w.position.fee_growth_inside_x[slot] == filled.fee_growth_x);
        assert(w.position.fee_growth_inside_y[slot] == filled.fee_growth_y);
        assert(bin_at(w.accounts, i, idx) == filled);
        assert(sh * 10000 <= u128::MAX) by (nonlinear_arith)
            requires sh <= u64::MAX;
        lemma_full_bps_takes_all(sh);
        lemma_locate_for_withdrawal_agrees(a0, pd.pool_key, pd.program_id, bin_id);
        assert(locate_bin_for_withdrawal_spec(w.accounts, pw.pool_key, pw.program_id, bin_id) == Ok::<
            (int, int),
            HandlerError,
        >((i, idx)));
        let t = withdraw_step(pw, w, bin_id).unwrap();
        assert(t.accounts == with_bin(w.accounts, i, idx, z));
        assert(t.tally.total_x == dn1.tally.total_x);
        assert(t.tally.total_y == dn1.tally.total_y);
        lemma_with_bin_same_layout(w.accounts, i, idx, z);
        lemma_same_layout_trans(a0, w.accounts, t.accounts);
        lemma_with_bin_frame(w.accounts, i, idx, z);
        vstd::array::axiom_spec_array_update(w.position.liquidity_shares, slot, (sh - sh) as u128);
        vstd::array::axiom_spec_array_update(w.position.fee_growth_inside_x, slot, 0);
        vstd::array::axiom_spec_array_update(w.position.fee_growth_inside_y, slot, 0);
        assert forall|u: int| 0 <= u < n + 1 implies #[trigger] t.position.liquidity_shares[u] == 0 by {
            if u != slot {
                assert(w.position.liquidity_shares[u] == 0);
            }
        }
        assert forall|u: int| n + 1 <= u < MAX_BINS implies {
            &&& #[trigger] t.position.liquidity_shares[u] == sd.position.liquidity_shares[u]
            &&& t.position.fee_growth_inside_x[u] == sd.position.fee_growth_inside_x[u]
            &&& t.position.fee_growth_inside_y[u] == sd.position.fee_growth_inside_y[u]
        } by {
            assert(w.position.liquidity_shares[u] == sd.position.liquidity_shares[u]);
        }
        assert forall|j: int, k: int|
            0 <= j < a0.len() && a0[j].data is Some && 0 <= k < BINS_PER_ARRAY implies #[trigger] bin_at(
                t.accounts,
                j,
                k,
            ) == if deposit_covers(pd, a0, n + 1 as int, j, k) {
                bin_at(a0, j, k)
            } else {
                bin_at(sd.accounts, j, k)
            } by {
            if !(j == i && k == idx) {
                if j != i {
                    assert(t.accounts[j] == w.accounts[j]);
                }
                assert(bin_at(t.accounts, j, k) == bin_at(w.accounts, j, k));
                if deposit_covers(pd, a0, n + 1 as int, j, k) {
                    assert(array_at(a0, j).start_bin_id + k != bin_id);
                }
            }
        }
    }
}

/// Before any bin step, the full withdrawal is where `round_trip_tracked` starts.
proof fn lemma_round_trip_start(pd: DepositPlan, sd0: DepositState, total: nat, pw: WithdrawPlan)
    requires
        round_trip_setup(pd, sd0, total, pw),
    ensures
        ({
            let sd = deposit_bins(pd, sd0, total).unwrap();
            let w0 = WithdrawState {
                position: sd.position,
                accounts: sd.accounts,
                tally: WithdrawTally { total_x: 0, total_y: 0 },
            };
            &&& withdraw_bins(pw, w0, 0) is Ok
            &&& round_trip_tracked(pd, sd0, sd, withdraw_bins(pw, w0, 0).unwrap(), 0)
        }),
{
    let sd = deposit_bins(pd, sd0, total).unwrap();
    let w0 = WithdrawState { position: sd.position, accounts: sd.accounts, tally: WithdrawTally { total_x: 0, total_y: 0 } };
        lemma_deposit_bins_track(pd, sd0, total);
        assert(deposit_bins(pd, sd0, 0) == Ok::<DepositState, HandlerError>(sd0));
        assert(withdraw_bins(pw, w0, 0) == Ok::<WithdrawState, HandlerError>(w0));
        let a0 = sd0.accounts;
        assert(same_layout(a0, w0.accounts));
        assert forall|t: int| 0 <= t < MAX_BINS implies {
            &&& #[trigger] w0.position.liquidity_shares[t] == sd.position.liquidity_shares[t]
            &&& w0.position.fee_growth_inside_x[t] == sd.position.fee_growth_inside_x[t]
            &&& w0.position.fee_growth_inside_y[t] == sd.position.fee_growth_inside_y[t]
        } by {}
        assert forall|j: int, k: int|
            0 <= j < a0.len() && a0[j].data is Some && 0 <= k < BINS_PER_ARRAY implies #[trigger] bin_at(
                w0.accounts,
                j,
                k,
            ) == if deposit_covers(pd, a0, 0, j, k) {
                bin_at(a0, j, k)
            } else {
                bin_at(sd.accounts, j, k)
            } by {}
}

/// The first `n` bin steps of the full withdrawal succeed and keep `round_trip_tracked`.
proof fn lemma_round_trip_bins(pd: DepositPlan, sd0: DepositState, total: nat, pw: WithdrawPlan, n: nat)
    requires
        n <= total,
        round_trip_setup(pd, sd0, total, pw),
    ensures
        ({
            let sd = deposit_bins(pd, sd0, total).unwrap();
            let w0 = WithdrawState {
                position: sd.position,
                accounts: sd.accounts,
                tally: WithdrawTally { total_x: 0, total_y: 0 },
            };
            &&& withdraw_bins(pw, w0, n) is Ok
            &&& round_trip_tracked(pd, sd0, sd, withdraw_bins(pw, w0, n).unwrap(), n as int)
        }),
    decreases n,
{
    let sd = deposit_bins(pd, sd0, total).unwrap();
    let w0 = WithdrawState { position: sd.position, accounts: sd.accounts, tally: WithdrawTally { total_x: 0, total_y: 0 } };
    if n == 0 {
        lemma_round_trip_start(pd, sd0, total, pw);
    } else {
        lemma_round_trip_bins(pd, sd0, total, pw, (n - 1) as nat);
        let w = withdraw_bins(pw, w0, (n - 1) as nat).unwrap();
        lemma_round_trip_step(pd, sd0, total, pw, w, (n - 1) as nat);
    }
}

/// Law: a deposit into bins that hold nothing, from a position without shares, is undone
/// by a withdrawal of all its basis points over the same range: the withdrawal succeeds,
/// pays out exactly the amounts the deposit took, leaves the position without shares and
/// its owed fees as they were, and gives every bin back as it was before the deposit.
/// Stated where the bin arrays of the range end below `i32::MAX`.
pub proof fn lemma_deposit_then_full_withdrawal(
    ctx: AddLiquidity,
    lower_bin_id: i32,
    upper_bin_id: i32,
    amount_x: u64,
    amount_y: u64,
    withdrawal_ctx: RemoveLiquidity,
)
    requires
        liquidity_handler_spec(ctx, lower_bin_id, upper_bin_id, amount_x, amount_y) is Ok,
        forall|t: int| 0 <= t < MAX_BINS ==> #[trigger] ctx.position.liquidity_shares[t] == 0,
        upper_bin_id + BINS_PER_ARRAY <= i32::MAX,
        forall|j: int, k: int|
            0 <= j < ctx.remaining_accounts@.len() && ctx.remaining_accounts@[j].data is Some && 0 <= k
                < BINS_PER_ARRAY && lower_bin_id <= array_at(ctx.remaining_accounts@, j).start_bin_id + k
                <= upper_bin_id ==> holds_nothing(#[trigger] bin_at(ctx.remaining_accounts@, j, k)),
        withdrawal_ctx.program_id == ctx.program_id,
        withdrawal_ctx.pool_key == ctx.pool_key,
        withdrawal_ctx.position == liquidity_handler_spec(ctx, lower_bin_id, upper_bin_id, amount_x, amount_y).unwrap().0,
        withdrawal_ctx.remaining_accounts@ == liquidity_handler_spec(
            ctx,
            lower_bin_id,
            upper_bin_id,
            amount_x,
            amount_y,
        ).unwrap().1,
    ensures
        remove_liquidity_handler_spec(withdrawal_ctx, lower_bin_id, upper_bin_id, 10000) is Ok,
        ({
            let (position, accounts, deposit) = liquidity_handler_spec(
                ctx,
                lower_bin_id,
                upper_bin_id,
                amount_x,
                amount_y,
            ).unwrap();
            let (after, final_accounts, withdrawal) = remove_liquidity_handler_spec(
                withdrawal_ctx,
                lower_bin_id,
                upper_bin_id,
                10000,
            ).unwrap();
            let old_accounts = ctx.remaining_accounts@;
            &&& withdrawal.amount_x == deposit.amount_x
            &&& withdrawal.amount_y == deposit.amount_y
            &&& forall|t: int| 0 <= t < MAX_BINS ==> #[trigger] after.liquidity_shares[t] == 0
            &&& after.fee_owned_by_x == position.fee_owned_by_x
            &&& after.fee_owned_by_y == position.fee_owned_by_y
            &&& same_layout(old_accounts, final_accounts)
            &&& forall|j: int, k: int|
                0 <= j < old_accounts.len() && old_accounts[j].data is Some && 0 <= k < BINS_PER_ARRAY
                    ==> #[trigger] bin_at(final_accounts, j, k) == bin_at(old_accounts, j, k)
        }),
{
    let (per_bin_x, per_bin_y) = deposit_per_bin_spec(
        ctx.pool.active_bin_id,
        lower_bin_id,
        upper_bin_id,
        amount_x,
        amount_y,
    ).unwrap();
    let pd = DepositPlan {
        pool_key: ctx.pool_key,
        program_id: ctx.program_id,
        active_bin_id: ctx.pool.active_bin_id,
        lower_bin_id: lower_bin_id,
        upper_bin_id: upper_bin_id,
        per_bin_x,
        per_bin_y,
    };
    let sd0 = DepositState {
        position: claim_position(ctx.position, ctx.pool_key, ctx.payer, lower_bin_id, upper_bin_id, ctx.position_bump),
        accounts: ctx.remaining_accounts@,
        tally: DepositTally { total_x: 0, total_y: 0, remaining_x: amount_x, remaining_y: amount_y },
    };
    let total = (upper_bin_id - lower_bin_id + 1) as nat;
    let pw = WithdrawPlan {
        pool_key: withdrawal_ctx.pool_key,
        program_id: withdrawal_ctx.program_id,
        lower_bin_id: lower_bin_id,
        liquidity_bps: 10000,
    };
    assert(sd0.position.liquidity_shares == ctx.position.liquidity_shares);
    assert(round_trip_setup(pd, sd0, total, pw));
    lemma_round_trip_bins(pd, sd0, total, pw, total);
    lemma_deposit_bins_track(pd, sd0, total);
    let sd = deposit_bins(pd, sd0, total).unwrap();
    let w = withdraw_bins(
        pw,
        WithdrawState { position: sd.position, accounts: sd.accounts, tally: WithdrawTally { total_x: 0, total_y: 0 } },
        total,
    ).unwrap();
    assert forall|t: int| 0 <= t < MAX_BINS implies #[trigger] w.position.liquidity_shares[t] == 0 by {
        if t >= total {
            assert(sd.position.liquidity_shares[t] == sd0.position.liquidity_shares[t]);
        }
    }
    let a0 = sd0.accounts;
    assert forall|j: int, k: int|
        0 <= j < a0.len() && a0[j].data is Some && 0 <= k < BINS_PER_ARRAY implies #[trigger] bin_at(w.accounts, j, k)
        == bin_at(a0, j, k) by {
        if !deposit_covers(pd, a0, total as int, j, k) {
            assert(bin_at(sd.accounts, j, k) == bin_at(a0, j, k));
        }
    }
}

} // verus!
