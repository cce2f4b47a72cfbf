use vstd::prelude::*;

use crate::constants::{BINS_PER_ARRAY, MAX_BINS};
use crate::instructions::locate::{array_at, with_bin};
use crate::state::{Bin, BinArrayAccount, Position};

verus! {

/// The sum of `f` over the elements of `s`.
pub open spec fn sum_of<A>(s: Seq<A>, f: spec_fn(A) -> int) -> int
    decreases s.len(),
{
    if s.len() == 0 {
        0
    } else {
        sum_of(s.drop_last(), f) + f(s.last())
    }
}

/// The sum of `f` over the bins of `bins`.
pub open spec fn sum_bins(bins: Seq<Bin>, f: spec_fn(Bin) -> int) -> int {
    sum_of(bins, f)
}

/// A share count as an integer, as a function.
pub open spec fn share_value_fn() -> spec_fn(u128) -> int {
    |v: u128| v as int
}

/// The shares a position holds over all its slots.
pub open spec fn position_shares(position: Position) -> int {
    sum_of(position.liquidity_shares@, share_value_fn())
}

/// The sum of `f` over every bin of every account of `accounts` that holds a bin array.
pub open spec fn sum_accounts(accounts: Seq<BinArrayAccount>, f: spec_fn(Bin) -> int) -> int
    decreases accounts.len(),
{
    if accounts.len() == 0 {
        0
    } else {
        sum_accounts(accounts.drop_last(), f) + match accounts.last().data {
            Some(arr) => sum_bins(arr.bins@, f),
            None => 0,
        }
    }
}

/// The reserve of `X` of a bin, as a function.
pub open spec fn reserve_x_fn() -> spec_fn(Bin) -> int {
    |b: Bin| b.reserve_x as int
}

/// The reserve of `Y` of a bin, as a function.
pub open spec fn reserve_y_fn() -> spec_fn(Bin) -> int {
    |b: Bin| b.reserve_y as int
}

/// The shares issued by a bin, as a function.
pub open spec fn shares_fn() -> spec_fn(Bin) -> int {
    |b: Bin| b.total_shares as int
}

/// All the `X` held in the bins of `accounts`.
pub open spec fn total_reserve_x(accounts: Seq<BinArrayAccount>) -> int {
    sum_accounts(accounts, reserve_x_fn())
}

/// All the `Y` held in the bins of `accounts`.
pub open spec fn total_reserve_y(accounts: Seq<BinArrayAccount>) -> int {
    sum_accounts(accounts, reserve_y_fn())
}

/// All the shares issued by the bins of `accounts`.
pub open spec fn total_shares_issued(accounts: Seq<BinArrayAccount>) -> int {
    sum_accounts(accounts, shares_fn())
}

/// Replacing one element changes a sum by the difference of the two elements' values.
pub proof fn lemma_sum_of_update<A>(s: Seq<A>, idx: int, a: A, f: spec_fn(A) -> int)
    requires
        0 <= idx < s.len(),
    ensures
        sum_of(s.update(idx, a), f) == sum_of(s, f) - f(s[idx]) + f(a),
    decreases s.len(),
{
    let updated = s.update(idx, a);
    if idx == s.len() - 1 {
        assert(updated.drop_last() =~= s.drop_last());
    } else {
        lemma_sum_of_update(s.drop_last(), idx, a, f);
        assert(updated.drop_last() =~= s.drop_last().update(idx, a));
    }
}

/// Setting the shares of one slot changes the position's shares by the difference.
pub proof fn lemma_position_shares_update(position: Position, slot: int, value: u128)
    requires
        0 <= slot < MAX_BINS,
    ensures
        position_shares(Position { liquidity_shares: vstd::array::spec_array_update(position.liquidity_shares, slot, value), ..position })
            == position_shares(position) - position.liquidity_shares[slot] + value,
{
    vstd::array::axiom_spec_array_update(position.liquidity_shares, slot, value);
    vstd::array::array_len_matches_n(&position.liquidity_shares);
    lemma_sum_of_update(position.liquidity_shares@, slot, value, share_value_fn());
}

/// Replacing one account changes a sum over accounts by the difference of the two
/// accounts' sums.
proof fn lemma_sum_accounts_update(
    accounts: Seq<BinArrayAccount>,
    i: int,
    account: BinArrayAccount,
    f: spec_fn(Bin) -> int,
)
    requires
        0 <= i < accounts.len(),
    ensures
        sum_accounts(accounts.update(i, account), f) == sum_accounts(accounts, f) - match accounts[i].data {
            Some(arr) => sum_bins(arr.bins@, f),
            None => 0,
        } + match account.data {
            Some(arr) => sum_bins(arr.bins@, f),
            None => 0,
        },
    decreases accounts.len(),
{
    let updated = accounts.update(i, account);
    if i == accounts.len() - 1 {
        assert(updated.drop_last() =~= accounts.drop_last());
    } else {
        lemma_sum_accounts_update(accounts.drop_last(), i, account, f);
        assert(updated.drop_last() =~= accounts.drop_last().update(i, account));
    }
}

/// Replacing one bin of one bin array changes a sum over all accounts by the
/// difference of the two bins' values.
pub proof fn lemma_sum_with_bin(accounts: Seq<BinArrayAccount>, i: int, idx: int, bin: Bin, f: spec_fn(Bin) -> int)
    requires
        0 <= i < accounts.len(),
        0 <= idx < BINS_PER_ARRAY,
        accounts[i].data is Some,
    ensures
        sum_accounts(with_bin(accounts, i, idx, bin), f) == sum_accounts(accounts, f) - f(
            array_at(accounts, i).bins[idx],
        ) + f(bin),
{
    let arr = array_at(accounts, i);
    let new_bins = vstd::array::spec_array_update(arr.bins, idx, bin);
    assert(new_bins@ == arr.bins@.update(idx, bin)) by {
        vstd::array::axiom_spec_array_update(arr.bins, idx, bin);
    }
    assert(arr.bins@.len() == BINS_PER_ARRAY) by {
        vstd::array::array_len_matches_n(&arr.bins);
    }
    lemma_sum_of_update(arr.bins@, idx, bin, f);
    lemma_sum_accounts_update(
        accounts,
        i,
        BinArrayAccount { key: accounts[i].key, data: Some(crate::state::BinArray { bins: new_bins, ..arr }) },
        f,
    );
}

} // verus!
