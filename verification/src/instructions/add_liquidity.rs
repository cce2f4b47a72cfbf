use vstd::prelude::*;

use crate::constants::{BINS_PER_ARRAY, MAX_BINS};
use crate::error::{fail, DlmmErrors, HandlerError};
use crate::instructions::locate::{
    array_at, bin_at, copy_accounts, lemma_locate_bin_id, lemma_locate_bin_spec_valid, lemma_same_layout_locate,
    lemma_same_layout_trans, lemma_with_bin_frame, lemma_with_bin_same_layout, locate_bin, locate_bin_spec,
    same_layout, store_bin, with_bin,
};
use crate::reserves::{
    lemma_position_shares_update, lemma_sum_with_bin, position_shares, reserve_x_fn, reserve_y_fn,
    shares_fn, total_reserve_x, total_reserve_y, total_shares_issued,
};
use crate::math::integer_sqrt_spec;
use crate::pubkey::Pubkey;
use crate::state::{Bin, BinArrayAccount, Pool, Position};

pub use crate::math::integer_sqrt;
pub use crate::pda::find_bin_array;

verus! {

/// What a deposit needs from the accounts of the instruction.
pub struct AddLiquidity {
    /// The id of this program.
    pub program_id: Pubkey,
    /// The depositor.
    pub payer: Pubkey,
    /// The address of the pool.
    pub pool_key: Pubkey,
    /// The pool.
    pub pool: Pool,
    /// The depositor's position for this bin range (all zero when it was just created).
    pub position: Position,
    /// The bump seed of the position's address.
    pub position_bump: u8,
    /// The remaining accounts: the bin arrays the deposit may touch.
    pub remaining_accounts: Vec<BinArrayAccount>,
}

/// The token amounts a deposit takes from the depositor.
#[derive(Clone, Copy, Debug, PartialEq, Eq)]
pub struct Deposit {
    pub amount_x: u64,
    pub amount_y: u64,
}

/// The shares `amount` is worth against `reserve` when `total` shares are out,
/// rounded down; `None` where `amount * total` does not fit in a `u128`.
pub open spec fn proportional_shares(amount: u64, total: u128, reserve: u64) -> Option<u128> {
    if reserve > 0 && amount > 0 {
        if amount * total > u128::MAX {
            None
        } else {
            Some(((amount * total) / (reserve as int)) as u128)
        }
    } else {
        Some(0)
    }
}

/// The shares a deposit of `dx` and `dy` into `bin` earns. Into a bin without
/// shares: the integer square root of `dx * dy` when both are positive, else
/// `dx + dy`. Otherwise the smaller of the positive proportional amounts.
pub open spec fn deposit_shares(bin: Bin, dx: u64, dy: u64) -> Result<u128, HandlerError> {
    if bin.total_shares == 0 {
        if dx > 0 && dy > 0 {
            Ok(integer_sqrt_spec(dx * dy) as u128)
        } else {
            Ok((dx + dy) as u128)
        }
    } else {
        match (
            proportional_shares(dx, bin.total_shares, bin.reserve_x),
            proportional_shares(dy, bin.total_shares, bin.reserve_y),
        ) {
            (Some(a), Some(b)) => if a > 0 && b > 0 {
                Ok(if a <= b { a } else { b })
            } else if a > 0 {
                Ok(a)
            } else if b > 0 {
                Ok(b)
            } else {
                fail(DlmmErrors::ZeroShares)
            },
            _ => fail(DlmmErrors::MathOverflow),
        }
    }
}

/// The bin after a deposit of `dx` and `dy`, and the shares the deposit earns.
pub open spec fn deposit_into_bin_spec(bin: Bin, dx: u64, dy: u64) -> Result<(Bin, u128), HandlerError> {
    match deposit_shares(bin, dx, dy) {
        Err(e) => Err(e),
        Ok(shares) => if shares == 0 {
            fail(DlmmErrors::ZeroShares)
        } else if bin.reserve_x + dx > u64::MAX || bin.reserve_y + dy > u64::MAX
            || bin.total_shares + shares > u128::MAX {
            fail(DlmmErrors::MathOverflow)
        } else {
            Ok(
                (
                    Bin {
                        reserve_x: (bin.reserve_x + dx) as u64,
                        reserve_y: (bin.reserve_y + dy) as u64,
                        total_shares: (bin.total_shares + shares) as u128,
                        ..bin
                    },
                    shares,
                ),
            )
        },
    }
}

/// Law: what a deposit of `dx` and `dy` into a bin gives, for every input. Into a bin
/// without shares it mints the integer square root of `dx * dy` (the `s` with
/// `s * s <= dx * dy < (s + 1) * (s + 1)`) when both amounts are positive, else
/// `dx + dy`. Into a bin with `t` shares, each positive amount on a side with a positive
/// reserve is worth `amount * t / reserve` shares, rounded down; the deposit mints the
/// smaller of these worths where both are positive, else the positive one. It succeeds
/// exactly when those products fit in 128 bits, the shares minted are positive, and the
/// new reserves and share count fit; the reserves then grow by the amounts, the share
/// count by the shares minted, and the fee growth stays as it was.
pub proof fn lemma_deposit_into_bin_outcome(bin: Bin, dx: u64, dy: u64)
    ensures
        ({
            let t = bin.total_shares as int;
            let worth_x: int = if bin.reserve_x > 0 && dx > 0 { dx * t / (bin.reserve_x as int) } else { 0 };
            let worth_y: int = if bin.reserve_y > 0 && dy > 0 { dy * t / (bin.reserve_y as int) } else { 0 };
            let fits = (bin.reserve_x > 0 && dx > 0 ==> dx * t <= u128::MAX) && (bin.reserve_y > 0 && dy > 0 ==> dy
                * t <= u128::MAX);
            let minted: int = if worth_x > 0 && worth_y > 0 {
                if worth_x <= worth_y { worth_x } else { worth_y }
            } else if worth_x > 0 {
                worth_x
            } else {
                worth_y
            };
            &&& t == 0 ==> (deposit_into_bin_spec(bin, dx, dy) is Ok <==> (dx > 0 || dy > 0) && bin.reserve_x + dx
                <= u64::MAX && bin.reserve_y + dy <= u64::MAX)
            &&& t > 0 ==> (deposit_into_bin_spec(bin, dx, dy) is Ok <==> fits && minted > 0 && bin.reserve_x + dx
                <= u64::MAX && bin.reserve_y + dy <= u64::MAX && t + minted <= u128::MAX)
            &&& deposit_into_bin_spec(bin, dx, dy) matches Ok((after, shares)) ==> {
                &&& shares > 0
                &&& t == 0 && dx > 0 && dy > 0 ==> shares * shares <= dx * dy < (shares + 1) * (shares + 1)
                &&& t == 0 && !(dx > 0 && dy > 0) ==> shares == dx + dy
                &&& t > 0 ==> shares == minted
                &&& after.reserve_x == bin.reserve_x + dx
                &&& after.reserve_y == bin.reserve_y + dy
                &&& after.total_shares == t + shares
                &&& after.fee_growth_x == bin.fee_growth_x
                &&& after.fee_growth_y == bin.fee_growth_y
            }
        }),
{
    if bin.total_shares == 0 && dx > 0 && dy > 0 {
        crate::math::lemma_integer_sqrt_spec(dx * dy);
        let r = integer_sqrt_spec(dx * dy);
        assert(1 <= dx * dy) by (nonlinear_arith)
            requires dx >= 1, dy >= 1;
        assert(1 <= r <= u64::MAX) by (nonlinear_arith)
            requires
                0 <= r,
                r * r <= dx * dy,
                dx * dy < (r + 1) * (r + 1),
                1 <= dx * dy,
                dx <= u64::MAX,
                dy <= u64::MAX,
        {
            if r > u64::MAX {
                assert(r * r > u64::MAX * u64::MAX);
                assert(dx * dy <= u64::MAX * u64::MAX);
            }
        }
    }
}

/// Law: a deposit into a bin that has shares never mints more shares than it is worth
/// on a side where it is worth at least one share: for each token whose reserve is
/// positive and whose deposit is worth a share (`deposit * total_shares >= reserve`),
/// `shares * reserve <= deposit * total_shares`.
pub proof fn lemma_deposit_shares_within_worth(bin: Bin, dx: u64, dy: u64)
    requires
        bin.total_shares > 0,
        deposit_into_bin_spec(bin, dx, dy) is Ok,
    ensures
        ({
            let shares = deposit_into_bin_spec(bin, dx, dy).unwrap().1;
            &&& bin.reserve_x > 0 && dx * bin.total_shares >= bin.reserve_x ==> shares * bin.reserve_x <= dx
                * bin.total_shares
            &&& bin.reserve_y > 0 && dy * bin.total_shares >= bin.reserve_y ==> shares * bin.reserve_y <= dy
                * bin.total_shares
        }),
{
    let shares = deposit_into_bin_spec(bin, dx, dy).unwrap().1;
    let a = proportional_shares(dx, bin.total_shares, bin.reserve_x).unwrap();
    let b = proportional_shares(dy, bin.total_shares, bin.reserve_y).unwrap();
    assert(shares == a || shares == b);
    assert(a > 0 && b > 0 ==> shares <= a && shares <= b);
    assert(a > 0 && b == 0 ==> shares == a);
    assert(a == 0 && b > 0 ==> shares == b);
    if bin.reserve_x > 0 && dx * bin.total_shares >= bin.reserve_x {
        assert(dx > 0) by {
            if dx == 0 {
                assert(dx * bin.total_shares == 0) by (nonlinear_arith)
                    requires dx == 0;
            }
        }
        lemma_proportional_shares_within_worth(dx, bin.total_shares, bin.reserve_x);
        assert(shares <= a);
        assert(shares * bin.reserve_x <= a * bin.reserve_x) by (nonlinear_arith)
            requires shares <= a, bin.reserve_x >= 0;
    }
    if bin.reserve_y > 0 && dy * bin.total_shares >= bin.reserve_y {
        assert(dy > 0) by {
            if dy == 0 {
                assert(dy * bin.total_shares == 0) by (nonlinear_arith)
                    requires dy == 0;
            }
        }
        lemma_proportional_shares_within_worth(dy, bin.total_shares, bin.reserve_y);
        assert(shares <= b);
        assert(shares * bin.reserve_y <= b * bin.reserve_y) by (nonlinear_arith)
            requires shares <= b, bin.reserve_y >= 0;
    }
}

/// Proportional shares are worth at most the amount: `shares * reserve <= amount * total`.
proof fn lemma_proportional_shares_within_worth(amount: u64, total: u128, reserve: u64)
    requires
        amount > 0,
        reserve > 0,
        proportional_shares(amount, total, reserve) is Some,
    ensures
        proportional_shares(amount, total, reserve).unwrap() * reserve <= amount * total,
        proportional_shares(amount, total, reserve).unwrap() > 0 || amount * total < reserve,
{
    let p = amount * total;
    let r = reserve as int;
    crate::math::lemma_div_bounds(p, r);
    crate::math::lemma_le_div(p, r, 0);
    let q = p / r;
    assert(q <= p) by (nonlinear_arith)
        requires r * q <= p, r >= 1, q >= 0;
    assert(q * r <= p) by (nonlinear_arith)
        requires r * q <= p;
    if q == 0 {
        assert(p < r);
    }
}

/// Adds `deposit_x` and `deposit_y` to `bin` and mints shares for them.
pub fn deposit_into_bin(bin: &Bin, deposit_x: u64, deposit_y: u64) -> (r: Result<(Bin, u128), HandlerError>)
    ensures
        r == deposit_into_bin_spec(*bin, deposit_x, deposit_y),
{
    let shares: u128 = if bin.total_shares == 0 {
        if deposit_x > 0 && deposit_y > 0 {
            assert(deposit_x * deposit_y <= u128::MAX) by (nonlinear_arith)
                requires
                    deposit_x <= u64::MAX,
                    deposit_y <= u64::MAX,
            ;
            let product = match (deposit_x as u128).checked_mul(deposit_y as u128) {
                Some(p) => p,
                None => return Err(HandlerError::Program(DlmmErrors::MathOverflow)),
            };
            assert(product < u128::MAX) by (nonlinear_arith)
                requires
                    product == deposit_x * deposit_y,
                    deposit_x <= u64::MAX,
                    deposit_y <= u64::MAX,
            ;
            integer_sqrt(product)
        } else {
            match (deposit_x as u128).checked_add(deposit_y as u128) {
                Some(s) => s,
                None => return Err(HandlerError::Program(DlmmErrors::MathOverflow)),
            }
        }
    } else {
        let shares_per_x: u128 = if bin.reserve_x > 0 && deposit_x > 0 {
            match (deposit_x as u128).checked_mul(bin.total_shares) {
                Some(p) => p / (bin.reserve_x as u128),
                None => return Err(HandlerError::Program(DlmmErrors::MathOverflow)),
            }
        } else {
            0
        };
        let shares_per_y: u128 = if bin.reserve_y > 0 && deposit_y > 0 {
            match (deposit_y as u128).checked_mul(bin.total_shares) {
                Some(p) => p / (bin.reserve_y as u128),
                None => return Err(HandlerError::Program(DlmmErrors::MathOverflow)),
            }
        } else {
            0
        };
        if shares_per_x > 0 && shares_per_y > 0 {
            if shares_per_x <= shares_per_y {
                shares_per_x
            } else {
                shares_per_y
            }
        } else if shares_per_x > 0 {
            shares_per_x
        } else if shares_per_y > 0 {
            shares_per_y
        } else {
            return Err(HandlerError::Program(DlmmErrors::ZeroShares));
        }
    };
    if shares == 0 {
        return Err(HandlerError::Program(DlmmErrors::ZeroShares));
    }
    let reserve_x = match bin.reserve_x.checked_add(deposit_x) {
        Some(v) => v,
        None => return Err(HandlerError::Program(DlmmErrors::MathOverflow)),
    };
    let reserve_y = match bin.reserve_y.checked_add(deposit_y) {
        Some(v) => v,
        None => return Err(HandlerError::Program(DlmmErrors::MathOverflow)),
    };
    let total_shares = match bin.total_shares.checked_add(shares) {
        Some(v) => v,
        None => return Err(HandlerError::Program(DlmmErrors::MathOverflow)),
    };
    Ok((Bin { reserve_x, reserve_y, total_shares, ..*bin }, shares))
}

/// The fixed inputs of every bin step of a deposit.
#[derive(Clone, Copy, Debug, PartialEq, Eq)]
pub struct DepositPlan {
    pub pool_key: Pubkey,
    pub program_id: Pubkey,
    pub active_bin_id: i32,
    pub lower_bin_id: i32,
    pub upper_bin_id: i32,
    pub per_bin_x: u64,
    pub per_bin_y: u64,
}

/// The running amounts of a deposit: what has gone into bins so far and what the
/// per-bin shares may still draw on.
#[derive(Clone, Copy, Debug, PartialEq, Eq)]
pub struct DepositTally {
    pub total_x: u64,
    pub total_y: u64,
    pub remaining_x: u64,
    pub remaining_y: u64,
}

/// Where a deposit stands between two bins.
pub struct DepositState {
    pub position: Position,
    pub accounts: Seq<BinArrayAccount>,
    pub tally: DepositTally,
}

/// The checks a deposit request passes before any bin is touched, and the amount of
/// `X` each bin above the active one and of `Y` each bin below it receives: the
/// amount divided by the number of bins from the active one to the far end.
pub open spec fn deposit_per_bin_spec(
    active: i32,
    lower: i32,
    upper: i32,
    amount_x: u64,
    amount_y: u64,
) -> Result<(u64, u64), HandlerError> {
    if !(lower <= upper) {
        fail(DlmmErrors::InvalidBinRange)
    } else if !(upper - lower < MAX_BINS) {
        fail(DlmmErrors::RangeExceedMaxBins)
    } else if !(amount_x > 0 || amount_y > 0) {
        fail(DlmmErrors::ZeroAmount)
    } else if lower > active && amount_y != 0 {
        fail(DlmmErrors::InvalidTokenAmount)
    } else if upper < active && amount_x != 0 {
        fail(DlmmErrors::InvalidTokenAmount)
    } else if (upper > active && upper - active > i32::MAX) || (active > lower && active - lower
        > i32::MAX) {
        Err(HandlerError::IntegerOverflow)
    } else {
        let above: int = if upper > active {
            upper - active
        } else {
            0
        };
        let below: int = if active > lower {
            active - lower
        } else {
            0
        };
        Ok(
            (
                if above > 0 {
                    (amount_x as int / above) as u64
                } else {
                    0
                },
                if below > 0 {
                    (amount_y as int / below) as u64
                } else {
                    0
                },
            ),
        )
    }
}

/// The `X` that the active bin leaves for the bins above it in the range: the per-bin
/// share times the number of those bins.
pub open spec fn deposit_reserved_x(plan: DepositPlan) -> int {
    if plan.upper_bin_id > plan.active_bin_id {
        plan.per_bin_x * (plan.upper_bin_id - plan.active_bin_id)
    } else {
        0
    }
}

/// The amounts of `X` and `Y` that go into bin `bin_id` and the remaining amounts
/// after it: bins below the active one take `Y`, bins above it take `X`, the active
/// bin takes all that remains of `Y` and what remains of `X` beyond the shares of the
/// bins above it. `None` where a remaining amount would go negative.
pub open spec fn deposit_split(plan: DepositPlan, bin_id: i32, remaining_x: u64, remaining_y: u64) -> Option<
    (u64, u64, u64, u64),
> {
    if bin_id < plan.active_bin_id {
        if remaining_y < plan.per_bin_y {
            None
        } else {
            Some((0, plan.per_bin_y, remaining_x, (remaining_y - plan.per_bin_y) as u64))
        }
    } else if bin_id > plan.active_bin_id {
        if remaining_x < plan.per_bin_x {
            None
        } else {
            Some((plan.per_bin_x, 0, (remaining_x - plan.per_bin_x) as u64, remaining_y))
        }
    } else if remaining_x < deposit_reserved_x(plan) {
        None
    } else {
        Some(
            (
                (remaining_x - deposit_reserved_x(plan)) as u64,
                remaining_y,
                deposit_reserved_x(plan) as u64,
                remaining_y,
            ),
        )
    }
}

/// The position after `shares` more shares in `slot`; a slot that held none starts
/// its fee checkpoints at the bin's fee growth.
pub open spec fn credit_slot(position: Position, slot: int, shares: u128, bin: Bin) -> Position {
    let fresh = position.liquidity_shares[slot] == 0;
    Position {
        liquidity_shares: vstd::array::spec_array_update(
            position.liquidity_shares,
            slot,
            (position.liquidity_shares[slot] + shares) as u128,
        ),
        fee_growth_inside_x: if fresh {
            vstd::array::spec_array_update(position.fee_growth_inside_x, slot, bin.fee_growth_x)
        } else {
            position.fee_growth_inside_x
        },
        fee_growth_inside_y: if fresh {
            vstd::array::spec_array_update(position.fee_growth_inside_y, slot, bin.fee_growth_y)
        } else {
            position.fee_growth_inside_y
        },
        ..position
    }
}

/// The deposit into bin `bin_id`.
pub open spec fn deposit_step(plan: DepositPlan, s: DepositState, bin_id: i32) -> Result<DepositState, HandlerError> {
    let slot = bin_id - plan.lower_bin_id;
    if !(0 <= slot < MAX_BINS) {
        fail(DlmmErrors::OutOfBounds)
    } else {
        match deposit_split(plan, bin_id, s.tally.remaining_x, s.tally.remaining_y) {
            None => fail(DlmmErrors::MathOverflow),
            Some((dx, dy, rx, ry)) => if dx == 0 && dy == 0 {
                Ok(DepositState { tally: DepositTally { remaining_x: rx, remaining_y: ry, ..s.tally }, ..s })
            } else {
                match locate_bin_spec(s.accounts, plan.pool_key, plan.program_id, bin_id) {
                    Err(e) => Err(e),
                    Ok((i, idx)) => match deposit_into_bin_spec(bin_at(s.accounts, i, idx), dx, dy) {
                        Err(e) => Err(e),
                        Ok((bin, shares)) => if s.position.liquidity_shares[slot] + shares > u128::MAX
                            || s.tally.total_x + dx > u64::MAX || s.tally.total_y + dy > u64::MAX {
                            fail(DlmmErrors::MathOverflow)
                        } else {
                            Ok(
                                DepositState {
                                    position: credit_slot(s.position, slot, shares, bin),
                                    accounts: with_bin(s.accounts, i, idx, bin),
                                    tally: DepositTally {
                                        total_x: (s.tally.total_x + dx) as u64,
                                        total_y: (s.tally.total_y + dy) as u64,
                                        remaining_x: rx,
                                        remaining_y: ry,
                                    },
                                },
                            )
                        },
                    },
                }
            },
        }
    }
}

/// Law: one bin step of a deposit, at bin `bin_id`, for every state it succeeds in. The
/// amounts `dx` and `dy` for the bin are those of `deposit_split`, and they are added to
/// the running totals. Where both are zero the bins and the position stay as they were.
/// Otherwise the bin that the deposit's lookup finds takes them as
/// `deposit_into_bin_spec` says: the bin is replaced by the bin after the deposit, slot
/// `bin_id - lower_bin_id` of the position gains the shares minted and no other slot
/// changes, and a slot that held no shares starts its fee checkpoints at the bin's fee
/// growth in `X` and in `Y`, while a slot that held some keeps them.
pub proof fn lemma_deposit_step_outcome(plan: DepositPlan, s: DepositState, bin_id: i32)
    requires
        deposit_step(plan, s, bin_id) is Ok,
    ensures
        ({
            let slot = bin_id - plan.lower_bin_id;
            let t = deposit_step(plan, s, bin_id).unwrap();
            let (dx, dy, rx, ry) = deposit_split(plan, bin_id, s.tally.remaining_x, s.tally.remaining_y).unwrap();
            &&& 0 <= slot < MAX_BINS
            &&& t.tally.total_x == s.tally.total_x + dx
            &&& t.tally.total_y == s.tally.total_y + dy
            &&& dx == 0 && dy == 0 ==> t.position == s.position && t.accounts == s.accounts
            &&& !(dx == 0 && dy == 0) ==> match locate_bin_spec(s.accounts, plan.pool_key, plan.program_id, bin_id) {
                Ok((i, idx)) => match deposit_into_bin_spec(bin_at(s.accounts, i, idx), dx, dy) {
                    Ok((after, shares)) => {
                        let held = s.position.liquidity_shares[slot];
                        &&& t.accounts == with_bin(s.accounts, i, idx, after)
                        &&& t.position.liquidity_shares[slot] == held + shares
                        &&& forall|u: int|
                            0 <= u < MAX_BINS && u != slot ==> #[trigger] t.position.liquidity_shares[u]
                                == s.position.liquidity_shares[u]
                        &&& held == 0 ==> t.position.fee_growth_inside_x[slot] == bin_at(s.accounts, i, idx).fee_growth_x
                            && t.position.fee_growth_inside_y[slot] == bin_at(s.accounts, i, idx).fee_growth_y
                        &&& held > 0 ==> t.position.fee_growth_inside_x[slot] == s.position.fee_growth_inside_x[slot]
                            && t.position.fee_growth_inside_y[slot] == s.position.fee_growth_inside_y[slot]
                    },
                    Err(_) => false,
                },
                Err(_) => false,
            }
        }),
{
    let slot = bin_id - plan.lower_bin_id;
    let (dx, dy, rx, ry) = deposit_split(plan, bin_id, s.tally.remaining_x, s.tally.remaining_y).unwrap();
    if !(dx == 0 && dy == 0) {
        let (i, idx) = locate_bin_spec(s.accounts, plan.pool_key, plan.program_id, bin_id).unwrap();
        let old_bin = bin_at(s.accounts, i, idx);
        let (after, shares) = deposit_into_bin_spec(old_bin, dx, dy).unwrap();
        let ls = s.position.liquidity_shares;
        vstd::array::axiom_spec_array_update(ls, slot, (ls[slot] + shares) as u128);
        vstd::array::axiom_spec_array_update(s.position.fee_growth_inside_x, slot, after.fee_growth_x);
        vstd::array::axiom_spec_array_update(s.position.fee_growth_inside_y, slot, after.fee_growth_y);
    }
}

/// The deposit into the first `k` bins of the range, one after the other.
pub open spec fn deposit_bins(plan: DepositPlan, s0: DepositState, k: nat) -> Result<DepositState, HandlerError>
    decreases k,
{
    if k == 0 {
        Ok(s0)
    } else {
        match deposit_bins(plan, s0, (k - 1) as nat) {
            Err(e) => Err(e),
            Ok(s) => deposit_step(plan, s, (plan.lower_bin_id + k - 1) as i32),
        }
    }
}

/// Once a deposit fails at some bin, it fails with that error over every longer run.
pub proof fn lemma_deposit_bins_stays_failed(plan: DepositPlan, s0: DepositState, k: nat, n: nat)
    requires
        k <= n,
        deposit_bins(plan, s0, k) is Err,
    ensures
        deposit_bins(plan, s0, n) == deposit_bins(plan, s0, k),
    decreases n - k,
{
    if k < n {
        lemma_deposit_bins_stays_failed(plan, s0, k, (n - 1) as nat);
    }
}

/// A position that holds no shares is taken over for this pool, owner and range.
pub open spec fn claim_position(
    position: Position,
    pool_key: Pubkey,
    payer: Pubkey,
    lower: i32,
    upper: i32,
    bump: u8,
) -> Position {
    if position.is_empty() {
        Position {
            pool: pool_key,
            owner: payer,
            lower_bin_id: lower,
            upper_bin_id: upper,
            bump: bump,
            ..position
        }
    } else {
        position
    }
}

/// The outcome of a deposit request: the position and the accounts after it, and the
/// amounts taken from the depositor.
pub open spec fn liquidity_handler_spec(
    ctx: AddLiquidity,
    lower: i32,
    upper: i32,
    amount_x: u64,
    amount_y: u64,
) -> Result<(Position, Seq<BinArrayAccount>, Deposit), HandlerError> {
    match deposit_per_bin_spec(ctx.pool.active_bin_id, lower, upper, amount_x, amount_y) {
        Err(e) => Err(e),
        Ok((per_bin_x, per_bin_y)) => {
            let plan = DepositPlan {
                pool_key: ctx.pool_key,
                program_id: ctx.program_id,
                active_bin_id: ctx.pool.active_bin_id,
                lower_bin_id: lower,
                upper_bin_id: upper,
                per_bin_x,
                per_bin_y,
            };
            let s0 = DepositState {
                position: claim_position(ctx.position, ctx.pool_key, ctx.payer, lower, upper, ctx.position_bump),
                accounts: ctx.remaining_accounts@,
                tally: DepositTally { total_x: 0, total_y: 0, remaining_x: amount_x, remaining_y: amount_y },
            };
            match deposit_bins(plan, s0, (upper - lower + 1) as nat) {
                Err(e) => Err(e),
                Ok(s) => Ok((s.position, s.accounts, Deposit { amount_x: s.tally.total_x, amount_y: s.tally.total_y })),
            }
        },
    }
}

/// Deposits `amount_x` and `amount_y` over the bins `lower_bin_id..=upper_bin_id`:
/// bins below the pool's active bin take `Y`, bins above take `X`, the active bin takes
/// what remains of both once the bins above have their shares, so no more than the
/// amounts asked is ever taken. The depositor's shares are recorded per bin in the
/// position. Returns the amounts to move from the depositor to the pool's vaults. On an
/// error nothing changes.
pub fn liquidity_handler(
    ctx: &mut AddLiquidity,
    lower_bin_id: i32,
    upper_bin_id: i32,
    amount_x: u64,
    amount_y: u64,
) -> (r: Result<Deposit, HandlerError>)
    ensures
        final(ctx).program_id == old(ctx).program_id,
        final(ctx).payer == old(ctx).payer,
        final(ctx).pool_key == old(ctx).pool_key,
        final(ctx).pool == old(ctx).pool,
        final(ctx).position_bump == old(ctx).position_bump,
        r matches Ok(deposit) ==> deposit.amount_x <= amount_x && deposit.amount_y <= amount_y,
        match liquidity_handler_spec(*old(ctx), lower_bin_id, upper_bin_id, amount_x, amount_y) {
            Ok((position, accounts, deposit)) => {
                &&& r == Ok::<Deposit, HandlerError>(deposit)
                &&& final(ctx).position == position
                &&& final(ctx).remaining_accounts@ == accounts
            },
            Err(e) => {
                &&& r == Err::<Deposit, HandlerError>(e)
                &&& final(ctx).position == old(ctx).position
                &&& final(ctx).remaining_accounts@ == old(ctx).remaining_accounts@
            },
        },
{
    // validation checks
    if !(lower_bin_id <= upper_bin_id) {
        return Err(HandlerError::Program(DlmmErrors::InvalidBinRange));
    }
    let width: i64 = upper_bin_id as i64 - lower_bin_id as i64;
    if !(width < MAX_BINS as i64) {
        return Err(HandlerError::Program(DlmmErrors::RangeExceedMaxBins));
    }
    if !(amount_x > 0 || amount_y > 0) {
        return Err(HandlerError::Program(DlmmErrors::ZeroAmount));
    }
    let active_bin_id = ctx.pool.active_bin_id;
    // Based on the bin range, validate the token amounts
    if lower_bin_id > active_bin_id && amount_y != 0 {
        return Err(HandlerError::Program(DlmmErrors::InvalidTokenAmount));
    }
    if upper_bin_id < active_bin_id && amount_x != 0 {
        return Err(HandlerError::Program(DlmmErrors::InvalidTokenAmount));
    }
    // Bin counts
    let bins_above: u64 = if upper_bin_id > active_bin_id {
        let d: i64 = upper_bin_id as i64 - active_bin_id as i64;
        if d > i32::MAX as i64 {
            return Err(HandlerError::IntegerOverflow);
        }
        d as u64
    } else {
        0
    };
    let bins_below: u64 = if active_bin_id > lower_bin_id {
        let d: i64 = active_bin_id as i64 - lower_bin_id as i64;
        if d > i32::MAX as i64 {
            return Err(HandlerError::IntegerOverflow);
        }
        d as u64
    } else {
        0
    };
    // bins below get Y, bins above get X, the active bin gets both
    let amount_x_per_bin: u64 = if bins_above > 0 {
        amount_x / bins_above
    } else {
        0
    };
    let amount_y_per_bin: u64 = if bins_below > 0 {
        amount_y / bins_below
    } else {
        0
    };
    let plan = DepositPlan {
        pool_key: ctx.pool_key,
        program_id: ctx.program_id,
        active_bin_id,
        lower_bin_id,
        upper_bin_id: upper_bin_id,
        per_bin_x: amount_x_per_bin,
        per_bin_y: amount_y_per_bin,
    };
    assert(deposit_per_bin_spec(active_bin_id, lower_bin_id, upper_bin_id, amount_x, amount_y) == Ok::<
        (u64, u64),
        HandlerError,
    >((amount_x_per_bin, amount_y_per_bin)));

    let mut position = ctx.position;
    if position.has_no_shares() {
        position.pool = ctx.pool_key;
        position.owner = ctx.payer;
        position.lower_bin_id = lower_bin_id;
        position.upper_bin_id = upper_bin_id;
        position.bump = ctx.position_bump;
    }
    let mut accounts = copy_accounts(&ctx.remaining_accounts);
    let mut tally = DepositTally { total_x: 0, total_y: 0, remaining_x: amount_x, remaining_y: amount_y };
    let ghost s0 = DepositState { position: position, accounts: accounts@, tally: tally };
    assert(s0.position == claim_position(
        ctx.position,
        ctx.pool_key,
        ctx.payer,
        lower_bin_id,
        upper_bin_id,
        ctx.position_bump,
    ));
    let count: usize = (width + 1) as usize;
    let mut k: usize = 0;
    while k < count
        invariant
            count == upper_bin_id - lower_bin_id + 1,
            count <= MAX_BINS,
            k <= count,
            plan.lower_bin_id == lower_bin_id,
            plan == (DepositPlan {
                pool_key: ctx.pool_key,
                program_id: ctx.program_id,
                active_bin_id: ctx.pool.active_bin_id,
                lower_bin_id: lower_bin_id,
                upper_bin_id: upper_bin_id,
                per_bin_x: plan.per_bin_x,
                per_bin_y: plan.per_bin_y,
            }),
            deposit_per_bin_spec(ctx.pool.active_bin_id, lower_bin_id, upper_bin_id, amount_x, amount_y)
                == Ok::<(u64, u64), HandlerError>((plan.per_bin_x, plan.per_bin_y)),
            s0 == (DepositState {
                position: claim_position(
                    ctx.position,
                    ctx.pool_key,
                    ctx.payer,
                    lower_bin_id,
                    upper_bin_id,
                    ctx.position_bump,
                ),
                accounts: ctx.remaining_accounts@,
                tally: DepositTally { total_x: 0, total_y: 0, remaining_x: amount_x, remaining_y: amount_y },
            }),
            *ctx == *old(ctx),
            deposit_bins(plan, s0, k as nat) == Ok::<DepositState, HandlerError>(
                DepositState { position, accounts: accounts@, tally },
            ),
        decreases count - k,
    {
        let bin_id: i32 = lower_bin_id + k as i32;
        let ghost before = DepositState { position, accounts: accounts@, tally };
        assert(deposit_bins(plan, s0, (k + 1) as nat) == deposit_step(plan, before, bin_id));
        proof {
            if deposit_bins(plan, s0, (k + 1) as nat) is Err {
                lemma_deposit_bins_stays_failed(plan, s0, (k + 1) as nat, count as nat);
            }
        }
        match deposit_into_next_bin(&plan, &mut position, &mut accounts, &mut tally, bin_id) {
            Ok(()) => {},
            Err(e) => {
                assert(deposit_bins(plan, s0, count as nat) == Err::<DepositState, HandlerError>(e));
                return Err(e);
            },
        }
        k += 1;
    }
    proof {
        lemma_deposit_amounts(*ctx, lower_bin_id, upper_bin_id, amount_x, amount_y);
    }
    ctx.position = position;
    ctx.remaining_accounts = accounts;
    Ok(Deposit { amount_x: tally.total_x, amount_y: tally.total_y })
}

/// The deposit into bin `bin_id`, as `deposit_step` states it.
fn deposit_into_next_bin(
    plan: &DepositPlan,
    position: &mut Position,
    accounts: &mut Vec<BinArrayAccount>,
    tally: &mut DepositTally,
    bin_id: i32,
) -> (r: Result<(), HandlerError>)
    ensures
        match deposit_step(
            *plan,
            DepositState { position: *old(position), accounts: old(accounts)@, tally: *old(tally) },
            bin_id,
        ) {
            Ok(s) => {
                &&& r is Ok
                &&& s == DepositState { position: *final(position), accounts: final(accounts)@, tally: *final(tally) }
            },
            Err(e) => r == Err::<(), HandlerError>(e),
        },
{
    // here each slot corresponds to a bin in the range
    let offset: i64 = bin_id as i64 - plan.lower_bin_id as i64;
    if !(0 <= offset && offset < MAX_BINS as i64) {
        return Err(HandlerError::Program(DlmmErrors::OutOfBounds));
    }
    let slot = offset as usize;
    let (deposit_x, deposit_y): (u64, u64) = if bin_id < plan.active_bin_id {
        if tally.remaining_y < plan.per_bin_y {
            return Err(HandlerError::Program(DlmmErrors::MathOverflow));
        }
        tally.remaining_y = tally.remaining_y - plan.per_bin_y;
        (0, plan.per_bin_y)
    } else if bin_id > plan.active_bin_id {
        if tally.remaining_x < plan.per_bin_x {
            return Err(HandlerError::Program(DlmmErrors::MathOverflow));
        }
        tally.remaining_x = tally.remaining_x - plan.per_bin_x;
        (plan.per_bin_x, 0)
    } else {
        // the active bin leaves the shares of the bins above it
        let reserved_x: u128 = if plan.upper_bin_id > plan.active_bin_id {
            let above: u128 = (plan.upper_bin_id as i64 - plan.active_bin_id as i64) as u128;
            assert(plan.per_bin_x * above <= u128::MAX) by (nonlinear_arith)
                requires plan.per_bin_x <= u64::MAX, above <= 0x1_0000_0000_0000_0000u128;
            plan.per_bin_x as u128 * above
        } else {
            0
        };
        if (tally.remaining_x as u128) < reserved_x {
            return Err(HandlerError::Program(DlmmErrors::MathOverflow));
        }
        let deposit_x = tally.remaining_x - reserved_x as u64;
        tally.remaining_x = reserved_x as u64;
        (deposit_x, tally.remaining_y)
    };
    if deposit_x == 0 && deposit_y == 0 {
        return Ok(());
    }
    // Loading the bin array account details
    let (i, idx) = match locate_bin(accounts, &plan.pool_key, &plan.program_id, bin_id) {
        Ok(loc) => loc,
        Err(e) => return Err(e),
    };
    let bin: Bin = match &accounts[i].data {
        Some(arr) => arr.bins[idx],
        None => return Err(HandlerError::Program(DlmmErrors::BinArrayNotFound)),
    };
    let (new_bin, shares) = match deposit_into_bin(&bin, deposit_x, deposit_y) {
        Ok(v) => v,
        Err(e) => return Err(e),
    };
    let is_fresh_slot = position.liquidity_shares[slot] == 0;
    let slot_shares = match position.liquidity_shares[slot].checked_add(shares) {
        Some(v) => v,
        None => return Err(HandlerError::Program(DlmmErrors::MathOverflow)),
    };
    let total_x = match tally.total_x.checked_add(deposit_x) {
        Some(v) => v,
        None => return Err(HandlerError::Program(DlmmErrors::MathOverflow)),
    };
    let total_y = match tally.total_y.checked_add(deposit_y) {
        Some(v) => v,
        None => return Err(HandlerError::Program(DlmmErrors::MathOverflow)),
    };
    store_bin(accounts, i, idx, new_bin);
    position.liquidity_shares[slot] = slot_shares;
    if is_fresh_slot {
        position.fee_growth_inside_x[slot] = new_bin.fee_growth_x;
        position.fee_growth_inside_y[slot] = new_bin.fee_growth_y;
    }
    tally.total_x = total_x;
    tally.total_y = total_y;
    Ok(())
}

/// `after` holds the same accounts as `before`, and in every bin below `active` the
/// same `X`, in every bin above it the same `Y`.
pub open spec fn token_sides_kept(before: Seq<BinArrayAccount>, after: Seq<BinArrayAccount>, active: i32) -> bool {
    &&& after.len() == before.len()
    &&& forall|i: int|
        0 <= i < before.len() ==> {
            &&& (#[trigger] after[i]).key == before[i].key
            &&& (after[i].data is Some <==> before[i].data is Some)
            &&& before[i].data is Some ==> array_at(after, i).start_bin_id == array_at(before, i).start_bin_id
        }
    &&& forall|i: int, idx: int|
        0 <= i < before.len() && before[i].data is Some && 0 <= idx < BINS_PER_ARRAY ==> {
            &&& array_at(before, i).start_bin_id + idx < active ==> (#[trigger] bin_at(after, i, idx)).reserve_x
                == bin_at(before, i, idx).reserve_x
            &&& array_at(before, i).start_bin_id + idx > active ==> bin_at(after, i, idx).reserve_y
                == bin_at(before, i, idx).reserve_y
        }
}

/// One bin step keeps the token sides.
proof fn lemma_deposit_step_sides(plan: DepositPlan, s: DepositState, bin_id: i32)
    requires
        deposit_step(plan, s, bin_id) is Ok,
    ensures
        token_sides_kept(s.accounts, deposit_step(plan, s, bin_id).unwrap().accounts, plan.active_bin_id),
{
    let t = deposit_step(plan, s, bin_id).unwrap();
    let (dx, dy, rx, ry) = deposit_split(plan, bin_id, s.tally.remaining_x, s.tally.remaining_y).unwrap();
    if !(dx == 0 && dy == 0) {
        lemma_locate_bin_spec_valid(s.accounts, plan.pool_key, plan.program_id, bin_id);
        let (i, idx) = locate_bin_spec(s.accounts, plan.pool_key, plan.program_id, bin_id).unwrap();
        let (bin, shares) = deposit_into_bin_spec(bin_at(s.accounts, i, idx), dx, dy).unwrap();
        lemma_with_bin_frame(s.accounts, i, idx, bin);
        assert forall|j: int, k: int|
            0 <= j < s.accounts.len() && s.accounts[j].data is Some && 0 <= k < BINS_PER_ARRAY implies {
                &&& array_at(s.accounts, j).start_bin_id + k < plan.active_bin_id ==> (#[trigger] bin_at(
                    t.accounts,
                    j,
                    k,
                )).reserve_x == bin_at(s.accounts, j, k).reserve_x
                &&& array_at(s.accounts, j).start_bin_id + k > plan.active_bin_id ==> bin_at(
                    t.accounts,
                    j,
                    k,
                ).reserve_y == bin_at(s.accounts, j, k).reserve_y
            } by {
            if j != i {
                assert(t.accounts[j] == s.accounts[j]);
            }
        }
    }
}

/// Keeping the token sides is transitive.
proof fn lemma_token_sides_kept_trans(
    a: Seq<BinArrayAccount>,
    b: Seq<BinArrayAccount>,
    c: Seq<BinArrayAccount>,
    active: i32,
)
    requires
        token_sides_kept(a, b, active),
        token_sides_kept(b, c, active),
    ensures
        token_sides_kept(a, c, active),
{
    assert forall|i: int| 0 <= i < a.len() implies {
        &&& (#[trigger] c[i]).key == a[i].key
        &&& (c[i].data is Some <==> a[i].data is Some)
        &&& a[i].data is Some ==> array_at(c, i).start_bin_id == array_at(a, i).start_bin_id
    } by {
        assert(b[i].key == a[i].key);
        assert(c[i].key == b[i].key);
    }
    assert forall|i: int, idx: int|
        0 <= i < a.len() && a[i].data is Some && 0 <= idx < BINS_PER_ARRAY implies {
            &&& array_at(a, i).start_bin_id + idx < active ==> (#[trigger] bin_at(c, i, idx)).reserve_x
                == bin_at(a, i, idx).reserve_x
            &&& array_at(a, i).start_bin_id + idx > active ==> bin_at(c, i, idx).reserve_y == bin_at(
                a,
                i,
                idx,
            ).reserve_y
        } by {
        assert(b[i].key == a[i].key);
    }
}

/// Every run of bin steps keeps the token sides.
proof fn lemma_deposit_bins_sides(plan: DepositPlan, s0: DepositState, k: nat)
    requires
        deposit_bins(plan, s0, k) is Ok,
    ensures
        token_sides_kept(s0.accounts, deposit_bins(plan, s0, k).unwrap().accounts, plan.active_bin_id),
    decreases k,
{
    if k == 0 {
        assert forall|i: int| 0 <= i < s0.accounts.len() implies {
            &&& (#[trigger] s0.accounts[i]).key == s0.accounts[i].key
            &&& (s0.accounts[i].data is Some <==> s0.accounts[i].data is Some)
            &&& s0.accounts[i].data is Some ==> array_at(s0.accounts, i).start_bin_id == array_at(
                s0.accounts,
                i,
            ).start_bin_id
        } by {}
    } else {
        lemma_deposit_bins_sides(plan, s0, (k - 1) as nat);
        let s = deposit_bins(plan, s0, (k - 1) as nat).unwrap();
        lemma_deposit_step_sides(plan, s, (plan.lower_bin_id + k - 1) as i32);
        lemma_token_sides_kept_trans(
            s0.accounts,
            s.accounts,
            deposit_bins(plan, s0, k).unwrap().accounts,
            plan.active_bin_id,
        );
    }
}

/// Law: a deposit puts only `Y` into bins below the pool's active bin and only `X` into
/// bins above it: in every bin array, the `X` of each bin below the active bin and the
/// `Y` of each bin above it are as they were.
pub proof fn lemma_deposit_token_sides(
    ctx: AddLiquidity,
    lower_bin_id: i32,
    upper_bin_id: i32,
    amount_x: u64,
    amount_y: u64,
)
    requires
        liquidity_handler_spec(ctx, lower_bin_id, upper_bin_id, amount_x, amount_y) is Ok,
    ensures
        token_sides_kept(
            ctx.remaining_accounts@,
            liquidity_handler_spec(ctx, lower_bin_id, upper_bin_id, amount_x, amount_y).unwrap().1,
            ctx.pool.active_bin_id,
        ),
{
    let (per_bin_x, per_bin_y) = deposit_per_bin_spec(
        ctx.pool.active_bin_id,
        lower_bin_id,
        upper_bin_id,
        amount_x,
        amount_y,
    ).unwrap();
    let plan = DepositPlan {
        pool_key: ctx.pool_key,
        program_id: ctx.program_id,
        active_bin_id: ctx.pool.active_bin_id,
        lower_bin_id: lower_bin_id,
        upper_bin_id: upper_bin_id,
        per_bin_x,
        per_bin_y,
    };
    let s0 = DepositState {
        position: claim_position(ctx.position, ctx.pool_key, ctx.payer, lower_bin_id, upper_bin_id, ctx.position_bump),
        accounts: ctx.remaining_accounts@,
        tally: DepositTally { total_x: 0, total_y: 0, remaining_x: amount_x, remaining_y: amount_y },
    };
    lemma_deposit_bins_sides(plan, s0, (upper_bin_id - lower_bin_id + 1) as nat);
}

/// How the running amounts of a deposit stand once the bins up to `last` are done.
pub open spec fn deposit_tally_inv(plan: DepositPlan, amount_x: u64, amount_y: u64, t: DepositTally, last: int) -> bool {
    let active = plan.active_bin_id;
    if last < active {
        &&& t.total_x == 0
        &&& t.remaining_x == amount_x
        &&& t.total_y + t.remaining_y == amount_y
    } else if active < plan.lower_bin_id {
        &&& t.total_x + t.remaining_x == amount_x
        &&& t.total_y == 0
        &&& t.remaining_y == amount_y
    } else {
        &&& t.total_y == amount_y
        &&& t.total_x + t.remaining_x == amount_x
        &&& t.remaining_x + plan.per_bin_x * (last - active) == deposit_reserved_x(plan)
    }
}

/// One bin step keeps `deposit_tally_inv`.
proof fn lemma_deposit_step_tally(plan: DepositPlan, amount_x: u64, amount_y: u64, s: DepositState, bin_id: i32)
    requires
        deposit_step(plan, s, bin_id) is Ok,
        deposit_tally_inv(plan, amount_x, amount_y, s.tally, bin_id - 1),
        plan.lower_bin_id <= bin_id,
    ensures
        deposit_tally_inv(plan, amount_x, amount_y, deposit_step(plan, s, bin_id).unwrap().tally, bin_id as int),
{
    let active = plan.active_bin_id;
    let t = deposit_step(plan, s, bin_id).unwrap();
    let (dx, dy, rx, ry) = deposit_split(plan, bin_id, s.tally.remaining_x, s.tally.remaining_y).unwrap();
    if !(dx == 0 && dy == 0) {
        lemma_locate_bin_spec_valid(s.accounts, plan.pool_key, plan.program_id, bin_id);
        let (i, idx) = locate_bin_spec(s.accounts, plan.pool_key, plan.program_id, bin_id).unwrap();
        let (bin, shares) = deposit_into_bin_spec(bin_at(s.accounts, i, idx), dx, dy).unwrap();
        assert(t.tally.total_x == s.tally.total_x + dx);
        assert(t.tally.total_y == s.tally.total_y + dy);
    } else {
        assert(t.tally.total_x == s.tally.total_x);
        assert(t.tally.total_y == s.tally.total_y);
    }
    assert(t.tally.remaining_x == rx && t.tally.remaining_y == ry);
    if bin_id > active && active >= plan.lower_bin_id {
        let n = bin_id - 1 - active;
        assert(plan.per_bin_x * (n + 1) == plan.per_bin_x * n + plan.per_bin_x) by (nonlinear_arith);
    }
}

/// Every run of bin steps keeps `deposit_tally_inv`.
proof fn lemma_deposit_bins_tally(plan: DepositPlan, s0: DepositState, amount_x: u64, amount_y: u64, k: nat)
    requires
        deposit_bins(plan, s0, k) is Ok,
        s0.tally == (DepositTally { total_x: 0, total_y: 0, remaining_x: amount_x, remaining_y: amount_y }),
        plan.lower_bin_id + k - 1 <= i32::MAX,
    ensures
        deposit_tally_inv(plan, amount_x, amount_y, deposit_bins(plan, s0, k).unwrap().tally, plan.lower_bin_id + k - 1),
    decreases k,
{
    if k > 0 {
        lemma_deposit_bins_tally(plan, s0, amount_x, amount_y, (k - 1) as nat);
        let s = deposit_bins(plan, s0, (k - 1) as nat).unwrap();
        lemma_deposit_step_tally(plan, amount_x, amount_y, s, (plan.lower_bin_id + k - 1) as i32);
    }
}

/// Law: a deposit never takes more than was asked: at most `amount_x` of `X` and at
/// most `amount_y` of `Y`. Where the active bin lies in the range it takes exactly
/// both amounts; where the range lies below the active bin it takes no `X`, and where
/// it lies above, no `Y`.
pub proof fn lemma_deposit_amounts(
    ctx: AddLiquidity,
    lower_bin_id: i32,
    upper_bin_id: i32,
    amount_x: u64,
    amount_y: u64,
)
    requires
        liquidity_handler_spec(ctx, lower_bin_id, upper_bin_id, amount_x, amount_y) is Ok,
    ensures
        ({
            let deposit = liquidity_handler_spec(ctx, lower_bin_id, upper_bin_id, amount_x, amount_y).unwrap().2;
            let active = ctx.pool.active_bin_id;
            &&& deposit.amount_x <= amount_x
            &&& deposit.amount_y <= amount_y
            &&& lower_bin_id <= active <= upper_bin_id ==> deposit.amount_x == amount_x && deposit.amount_y
                == amount_y
            &&& upper_bin_id < active ==> deposit.amount_x == 0
            &&& active < lower_bin_id ==> deposit.amount_y == 0
        }),
{
    let (per_bin_x, per_bin_y) = deposit_per_bin_spec(
        ctx.pool.active_bin_id,
        lower_bin_id,
        upper_bin_id,
        amount_x,
        amount_y,
    ).unwrap();
    let plan = DepositPlan {
        pool_key: ctx.pool_key,
        program_id: ctx.program_id,
        active_bin_id: ctx.pool.active_bin_id,
        lower_bin_id: lower_bin_id,
        upper_bin_id: upper_bin_id,
        per_bin_x,
        per_bin_y,
    };
    let s0 = DepositState {
        position: claim_position(ctx.position, ctx.pool_key, ctx.payer, lower_bin_id, upper_bin_id, ctx.position_bump),
        accounts: ctx.remaining_accounts@,
        tally: DepositTally { total_x: 0, total_y: 0, remaining_x: amount_x, remaining_y: amount_y },
    };
    lemma_deposit_bins_tally(plan, s0, amount_x, amount_y, (upper_bin_id - lower_bin_id + 1) as nat);
}

/// Each bin step moves into the bins exactly what it adds to the running totals.
proof fn lemma_deposit_step_conserves(plan: DepositPlan, s: DepositState, bin_id: i32)
    requires
        deposit_step(plan, s, bin_id) is Ok,
    ensures
        ({
            let t = deposit_step(plan, s, bin_id).unwrap();
            &&& total_reserve_x(t.accounts) - t.tally.total_x == total_reserve_x(s.accounts) - s.tally.total_x
            &&& total_reserve_y(t.accounts) - t.tally.total_y == total_reserve_y(s.accounts) - s.tally.total_y
            &&& total_shares_issued(t.accounts) - position_shares(t.position) == total_shares_issued(s.accounts)
                - position_shares(s.position)
        }),
{
    let slot = bin_id - plan.lower_bin_id;
    let (dx, dy, rx, ry) = deposit_split(plan, bin_id, s.tally.remaining_x, s.tally.remaining_y).unwrap();
    if !(dx == 0 && dy == 0) {
        lemma_locate_bin_spec_valid(s.accounts, plan.pool_key, plan.program_id, bin_id);
        let (i, idx) = locate_bin_spec(s.accounts, plan.pool_key, plan.program_id, bin_id).unwrap();
        let (bin, shares) = deposit_into_bin_spec(bin_at(s.accounts, i, idx), dx, dy).unwrap();
        lemma_sum_with_bin(s.accounts, i, idx, bin, reserve_x_fn());
        lemma_sum_with_bin(s.accounts, i, idx, bin, reserve_y_fn());
        lemma_sum_with_bin(s.accounts, i, idx, bin, shares_fn());
        lemma_position_shares_update(s.position, slot, (s.position.liquidity_shares[slot] + shares) as u128);
    }
}

/// Over any run of bin steps, the tokens moved into the bins equal the growth of the
/// running totals.
proof fn lemma_deposit_bins_conserve(plan: DepositPlan, s0: DepositState, k: nat)
    requires
        deposit_bins(plan, s0, k) is Ok,
    ensures
        ({
            let s = deposit_bins(plan, s0, k).unwrap();
            &&& total_reserve_x(s.accounts) - s.tally.total_x == total_reserve_x(s0.accounts) - s0.tally.total_x
            &&& total_reserve_y(s.accounts) - s.tally.total_y == total_reserve_y(s0.accounts) - s0.tally.total_y
            &&& total_shares_issued(s.accounts) - position_shares(s.position) == total_shares_issued(s0.accounts)
                - position_shares(s0.position)
        }),
    decreases k,
{
    if k > 0 {
        lemma_deposit_bins_conserve(plan, s0, (k - 1) as nat);
        let s = deposit_bins(plan, s0, (k - 1) as nat).unwrap();
        lemma_deposit_step_conserves(plan, s, (plan.lower_bin_id + k - 1) as i32);
    }
}

/// Law: a deposit adds to the pool's bins exactly the amounts it takes from the
/// depositor; the `X` held in all the bins grows by `amount_x` of the result, the `Y`
/// by `amount_y`; and the bins issue exactly the shares that the position gains.
pub proof fn lemma_deposit_moves_reported_amounts(
    ctx: AddLiquidity,
    lower_bin_id: i32,
    upper_bin_id: i32,
    amount_x: u64,
    amount_y: u64,
)
    requires
        liquidity_handler_spec(ctx, lower_bin_id, upper_bin_id, amount_x, amount_y) is Ok,
    ensures
        ({
            let (position, accounts, deposit) = liquidity_handler_spec(
                ctx,
                lower_bin_id,
                upper_bin_id,
                amount_x,
                amount_y,
            ).unwrap();
            &&& total_reserve_x(accounts) == total_reserve_x(ctx.remaining_accounts@) + deposit.amount_x
            &&& total_reserve_y(accounts) == total_reserve_y(ctx.remaining_accounts@) + deposit.amount_y
            &&& total_shares_issued(accounts) - total_shares_issued(ctx.remaining_accounts@)
                == position_shares(position) - position_shares(ctx.position)
        }),
{
    let (per_bin_x, per_bin_y) = deposit_per_bin_spec(
        ctx.pool.active_bin_id,
        lower_bin_id,
        upper_bin_id,
        amount_x,
        amount_y,
    ).unwrap();
    let plan = DepositPlan {
        pool_key: ctx.pool_key,
        program_id: ctx.program_id,
        active_bin_id: ctx.pool.active_bin_id,
        lower_bin_id: lower_bin_id,
        upper_bin_id: upper_bin_id,
        per_bin_x,
        per_bin_y,
    };
    let s0 = DepositState {
        position: claim_position(ctx.position, ctx.pool_key, ctx.payer, lower_bin_id, upper_bin_id, ctx.position_bump),
        accounts: ctx.remaining_accounts@,
        tally: DepositTally { total_x: 0, total_y: 0, remaining_x: amount_x, remaining_y: amount_y },
    };
    lemma_deposit_bins_conserve(plan, s0, (upper_bin_id - lower_bin_id + 1) as nat);
}

/// Bin `k` of account `j` is the bin that the deposit's lookup finds for its own bin
/// id, and that id lies among the first `n` bins of the range.
pub open spec fn deposit_covers(plan: DepositPlan, accounts: Seq<BinArrayAccount>, n: int, j: int, k: int) -> bool {
    let b = array_at(accounts, j).start_bin_id + k;
    &&& plan.lower_bin_id <= b < plan.lower_bin_id + n
    &&& locate_bin_spec(accounts, plan.pool_key, plan.program_id, b as i32) == Ok::<(int, int), HandlerError>((j, k))
}

/// After the first `n` bin steps, from `s0` to `s`: the layout of the accounts is kept,
/// the slots from `n` on are untouched, each bin the steps reached has gained the shares
/// that its slot gained, and every other bin is as it was.
pub open spec fn deposit_shares_tracked(plan: DepositPlan, s0: DepositState, s: DepositState, n: int) -> bool {
    &&& same_layout(s0.accounts, s.accounts)
    &&& forall|t: int| n <= t < MAX_BINS ==> #[trigger] s.position.liquidity_shares[t] == s0.position.liquidity_shares[t]
    &&& forall|j: int, k: int|
        0 <= j < s0.accounts.len() && s0.accounts[j].data is Some && 0 <= k < BINS_PER_ARRAY ==> if deposit_covers(
            plan,
            s0.accounts,
            n,
            j,
            k,
        ) {
            let slot = array_at(s0.accounts, j).start_bin_id + k - plan.lower_bin_id;
            &&& (#[trigger] bin_at(s.accounts, j, k)).total_shares - bin_at(s0.accounts, j, k).total_shares
                == s.position.liquidity_shares[slot] - s0.position.liquidity_shares[slot]
            &&& s.position.liquidity_shares[slot] == s0.position.liquidity_shares[slot] ==> bin_at(s.accounts, j, k)
                == bin_at(s0.accounts, j, k)
        } else {
            bin_at(s.accounts, j, k) == bin_at(s0.accounts, j, k)
        }
}

/// One more bin step keeps the share bookkeeping of `deposit_shares_tracked`.
proof fn lemma_deposit_step_tracks(plan: DepositPlan, s0: DepositState, s: DepositState, n: nat)
    requires
        deposit_shares_tracked(plan, s0, s, n as int),
        plan.lower_bin_id + n <= i32::MAX,
        deposit_step(plan, s, (plan.lower_bin_id + n) as i32) is Ok,
    ensures
        deposit_shares_tracked(plan, s0, deposit_step(plan, s, (plan.lower_bin_id + n) as i32).unwrap(), n + 1 as int),
{
    let bin_id = (plan.lower_bin_id + n) as i32;
    let t = deposit_step(plan, s, bin_id).unwrap();
    let (dx, dy, rx, ry) = deposit_split(plan, bin_id, s.tally.remaining_x, s.tally.remaining_y).unwrap();
    let a0 = s0.accounts;
    lemma_same_layout_locate(a0, s.accounts, plan.pool_key, plan.program_id, bin_id);
    lemma_locate_bin_id(a0, plan.pool_key, plan.program_id, bin_id);
    if dx == 0 && dy == 0 {
        assert forall|j: int, k: int|
            0 <= j < a0.len() && a0[j].data is Some && 0 <= k < BINS_PER_ARRAY implies if deposit_covers(
                plan,
                a0,
                n + 1 as int,
                j,
                k,
            ) {
                let slot = array_at(a0, j).start_bin_id + k - plan.lower_bin_id;
                &&& (#[trigger] bin_at(t.accounts, j, k)).total_shares - bin_at(a0, j, k).total_shares
                    == t.position.liquidity_shares[slot] - s0.position.liquidity_shares[slot]
                &&& t.position.liquidity_shares[slot] == s0.position.liquidity_shares[slot] ==> bin_at(
                    t.accounts,
                    j,
                    k,
                ) == bin_at(a0, j, k)
            } else {
                bin_at(t.accounts, j, k) == bin_at(a0, j, k)
            } by {
            let b = array_at(a0, j).start_bin_id + k;
            if deposit_covers(plan, a0, n + 1 as int, j, k) && !deposit_covers(plan, a0, n as int, j, k) {
                assert(b == bin_id);
                assert(s.position.liquidity_shares[n as int] == s0.position.liquidity_shares[n as int]);
            }
        }
    } else {
        let (i, idx) = locate_bin_spec(s.accounts, plan.pool_key, plan.program_id, bin_id).unwrap();
        lemma_locate_bin_spec_valid(s.accounts, plan.pool_key, plan.program_id, bin_id);
        let old_bin = bin_at(s.accounts, i, idx);
        let (bin, shares) = deposit_into_bin_spec(old_bin, dx, dy).unwrap();
        lemma_with_bin_same_layout(s.accounts, i, idx, bin);
        lemma_same_layout_trans(a0, s.accounts, t.accounts);
        lemma_with_bin_frame(s.accounts, i, idx, bin);
        let slot = n as int;
        vstd::array::axiom_spec_array_update(s.position.liquidity_shares, slot, (s.position.liquidity_shares[slot] + shares) as u128);
        assert forall|u: int| n + 1 <= u < MAX_BINS implies #[trigger] t.position.liquidity_shares[u]
            == s0.position.liquidity_shares[u] by {
            assert(s.position.liquidity_shares[u] == s0.position.liquidity_shares[u]);
        }
        assert(a0[i].data is Some);
        assert(array_at(a0, i).start_bin_id + idx == bin_id);
        assert(!deposit_covers(plan, a0, n as int, i, idx));
        assert(bin_at(s.accounts, i, idx) == bin_at(a0, i, idx));
        assert forall|j: int, k: int|
            0 <= j < a0.len() && a0[j].data is Some && 0 <= k < BINS_PER_ARRAY implies if deposit_covers(
                plan,
                a0,
                n + 1 as int,
                j,
                k,
            ) {
                let slot = array_at(a0, j).start_bin_id + k - plan.lower_bin_id;
                &&& (#[trigger] bin_at(t.accounts, j, k)).total_shares - bin_at(a0, j, k).total_shares
                    == t.position.liquidity_shares[slot] - s0.position.liquidity_shares[slot]
                &&& t.position.liquidity_shares[slot] == s0.position.liquidity_shares[slot] ==> bin_at(
                    t.accounts,
                    j,
                    k,
                ) == bin_at(a0, j, k)
            } else {
                bin_at(t.accounts, j, k) == bin_at(a0, j, k)
            } by {
            let b = array_at(a0, j).start_bin_id + k;
            if j == i && k == idx {
                assert(deposit_covers(plan, a0, n + 1 as int, j, k));
                assert(s.position.liquidity_shares[slot] == s0.position.liquidity_shares[slot]);
            } else {
                if j != i {
                    assert(t.accounts[j] == s.accounts[j]);
                }
                assert(bin_at(t.accounts, j, k) == bin_at(s.accounts, j, k));
                if deposit_covers(plan, a0, n + 1 as int, j, k) {
                    assert(b != bin_id);
                    assert(b - plan.lower_bin_id < n);
                }
            }
        }
    }
}

/// Every run of bin steps keeps the share bookkeeping of `deposit_shares_tracked`.
pub(crate) proof fn lemma_deposit_bins_track(plan: DepositPlan, s0: DepositState, k: nat)
    requires
        deposit_bins(plan, s0, k) is Ok,
        plan.lower_bin_id + k - 1 <= i32::MAX,
    ensures
        deposit_shares_tracked(plan, s0, deposit_bins(plan, s0, k).unwrap(), k as int),
    decreases k,
{
    if k == 0 {
        assert(same_layout(s0.accounts, s0.accounts));
    } else {
        lemma_deposit_bins_track(plan, s0, (k - 1) as nat);
        let s = deposit_bins(plan, s0, (k - 1) as nat).unwrap();
        lemma_deposit_step_tracks(plan, s0, s, (k - 1) as nat);
    }
}

/// Law: a deposit changes the total shares of exactly the bins it reaches, each by what
/// the position's slot for that bin gains. For every bin of the remaining accounts whose
/// bin id `b` lies in `lower_bin_id..=upper_bin_id` and that the lookup of `b` finds,
/// the bin's total shares grow by what slot `b - lower_bin_id` of the position grows by,
/// and the bin is as it was where the slot gained nothing; every other bin is as it was,
/// and so is every slot past the range. Since other
/// positions are left alone, a bin's total shares stay the sum of the slots that the
/// positions hold for it.
pub proof fn lemma_deposit_shares_per_bin(
    ctx: AddLiquidity,
    lower_bin_id: i32,
    upper_bin_id: i32,
    amount_x: u64,
    amount_y: u64,
)
    requires
        liquidity_handler_spec(ctx, lower_bin_id, upper_bin_id, amount_x, amount_y) is Ok,
    ensures
        ({
            let (position, accounts, deposit) = liquidity_handler_spec(
                ctx,
                lower_bin_id,
                upper_bin_id,
                amount_x,
                amount_y,
            ).unwrap();
            let old_accounts = ctx.remaining_accounts@;
            &&& same_layout(old_accounts, accounts)
            &&& forall|t: int|
                upper_bin_id - lower_bin_id < t < MAX_BINS ==> #[trigger] position.liquidity_shares[t]
                    == ctx.position.liquidity_shares[t]
            &&& forall|j: int, k: int|
                0 <= j < old_accounts.len() && old_accounts[j].data is Some && 0 <= k < BINS_PER_ARRAY ==> {
                    let b = array_at(old_accounts, j).start_bin_id + k;
                    if lower_bin_id <= b <= upper_bin_id && locate_bin_spec(
                        old_accounts,
                        ctx.pool_key,
                        ctx.program_id,
                        b as i32,
                    ) == Ok::<(int, int), HandlerError>((j, k)) {
                        &&& (#[trigger] bin_at(accounts, j, k)).total_shares - bin_at(old_accounts, j, k).total_shares
                            == position.liquidity_shares[b - lower_bin_id] - ctx.position.liquidity_shares[b
                            - lower_bin_id]
                        &&& position.liquidity_shares[b - lower_bin_id] == ctx.position.liquidity_shares[b
                            - lower_bin_id] ==> bin_at(accounts, j, k) == bin_at(old_accounts, j, k)
                    } else {
                        bin_at(accounts, j, k) == bin_at(old_accounts, j, k)
                    }
                }
        }),
{
    let (per_bin_x, per_bin_y) = deposit_per_bin_spec(
        ctx.pool.active_bin_id,
        lower_bin_id,
        upper_bin_id,
        amount_x,
        amount_y,
    ).unwrap();
    let plan = DepositPlan {
        pool_key: ctx.pool_key,
        program_id: ctx.program_id,
        active_bin_id: ctx.pool.active_bin_id,
        lower_bin_id: lower_bin_id,
        upper_bin_id: upper_bin_id,
        per_bin_x,
        per_bin_y,
    };
    let s0 = DepositState {
        position: claim_position(ctx.position, ctx.pool_key, ctx.payer, lower_bin_id, upper_bin_id, ctx.position_bump),
        accounts: ctx.remaining_accounts@,
        tally: DepositTally { total_x: 0, total_y: 0, remaining_x: amount_x, remaining_y: amount_y },
    };
    let n = (upper_bin_id - lower_bin_id + 1) as nat;
    lemma_deposit_bins_track(plan, s0, n);
    assert(s0.position.liquidity_shares == ctx.position.liquidity_shares);
}

/// Later bin steps of a deposit leave alone the bins and the slots of earlier steps.
pub(crate) proof fn lemma_deposit_bins_frame(plan: DepositPlan, s0: DepositState, m: nat, n: nat)
    requires
        m <= n,
        deposit_bins(plan, s0, n) is Ok,
        plan.lower_bin_id + n - 1 <= i32::MAX,
    ensures
        deposit_bins(plan, s0, m) is Ok,
        ({
            let sm = deposit_bins(plan, s0, m).unwrap();
            let sn = deposit_bins(plan, s0, n).unwrap();
            &&& forall|t: int|
                0 <= t < m ==> {
                    &&& #[trigger] sn.position.liquidity_shares[t] == sm.position.liquidity_shares[t]
                    &&& sn.position.fee_growth_inside_x[t] == sm.position.fee_growth_inside_x[t]
                    &&& sn.position.fee_growth_inside_y[t] == sm.position.fee_growth_inside_y[t]
                }
            &&& forall|j: int, k: int|
                0 <= j < s0.accounts.len() && s0.accounts[j].data is Some && 0 <= k < BINS_PER_ARRAY
                    && deposit_covers(plan, s0.accounts, m as int, j, k) ==> #[trigger] bin_at(sn.accounts, j, k)
                    == bin_at(sm.accounts, j, k)
        }),
    decreases n - m,
{
    if deposit_bins(plan, s0, m) is Err {
        lemma_deposit_bins_stays_failed(plan, s0, m, n);
    }
    if m < n {
        lemma_deposit_bins_frame(plan, s0, m, (n - 1) as nat);
        let sm = deposit_bins(plan, s0, m).unwrap();
        let s = deposit_bins(plan, s0, (n - 1) as nat).unwrap();
        let sn = deposit_bins(plan, s0, n).unwrap();
        let bin_id = (plan.lower_bin_id + n - 1) as i32;
        let slot = n - 1;
        lemma_deposit_bins_track(plan, s0, (n - 1) as nat);
        lemma_same_layout_locate(s0.accounts, s.accounts, plan.pool_key, plan.program_id, bin_id);
        let (dx, dy, rx, ry) = deposit_split(plan, bin_id, s.tally.remaining_x, s.tally.remaining_y).unwrap();
        if !(dx == 0 && dy == 0) {
            let (i, idx) = locate_bin_spec(s.accounts, plan.pool_key, plan.program_id, bin_id).unwrap();
            lemma_locate_bin_spec_valid(s.accounts, plan.pool_key, plan.program_id, bin_id);
            let (bin, shares) = deposit_into_bin_spec(bin_at(s.accounts, i, idx), dx, dy).unwrap();
            lemma_with_bin_frame(s.accounts, i, idx, bin);
            let ls = s.position.liquidity_shares;
            vstd::array::axiom_spec_array_update(ls, slot, (ls[slot] + shares) as u128);
            vstd::array::axiom_spec_array_update(s.position.fee_growth_inside_x, slot, bin.fee_growth_x);
            vstd::array::axiom_spec_array_update(s.position.fee_growth_inside_y, slot, bin.fee_growth_y);
            assert forall|t: int| 0 <= t < m implies {
                &&& #[trigger] sn.position.liquidity_shares[t] == sm.position.liquidity_shares[t]
                &&& sn.position.fee_growth_inside_x[t] == sm.position.fee_growth_inside_x[t]
                &&& sn.position.fee_growth_inside_y[t] == sm.position.fee_growth_inside_y[t]
            } by {
                assert(s.position.liquidity_shares[t] == sm.position.liquidity_shares[t]);
            }
            assert forall|j: int, k: int|
                0 <= j < s0.accounts.len() && s0.accounts[j].data is Some && 0 <= k < BINS_PER_ARRAY
                    && deposit_covers(plan, s0.accounts, m as int, j, k) implies #[trigger] bin_at(sn.accounts, j, k)
                == bin_at(sm.accounts, j, k) by {
                assert(bin_at(s.accounts, j, k) == bin_at(sm.accounts, j, k));
                if j == i && k == idx {
                    assert(array_at(s0.accounts, i).start_bin_id + idx == bin_id);
                    assert(false);
                }
                if j != i {
                    assert(sn.accounts[j] == s.accounts[j]);
                }
            }
        } else {
            assert forall|j: int, k: int|
                0 <= j < s0.accounts.len() && s0.accounts[j].data is Some && 0 <= k < BINS_PER_ARRAY
                    && deposit_covers(plan, s0.accounts, m as int, j, k) implies #[trigger] bin_at(sn.accounts, j, k)
                == bin_at(sm.accounts, j, k) by {
                assert(bin_at(s.accounts, j, k) == bin_at(sm.accounts, j, k));
            }
            assert forall|t: int| 0 <= t < m implies {
                &&& #[trigger] sn.position.liquidity_shares[t] == sm.position.liquidity_shares[t]
                &&& sn.position.fee_growth_inside_x[t] == sm.position.fee_growth_inside_x[t]
                &&& sn.position.fee_growth_inside_y[t] == sm.position.fee_growth_inside_y[t]
            } by {
                assert(s.position.liquidity_shares[t] == sm.position.liquidity_shares[t]);
            }
        }
    }
}

} // verus!
