use vstd::prelude::*;

use crate::constants::BINS_PER_ARRAY;
use crate::error::{fail, DlmmErrors, HandlerError};
use crate::pda::{
    bin_array_seeds, bin_array_start_spec, find_bin_array, find_bin_array_spec, first_match, is_first_match,
    lemma_find_bin_array_spec_valid, lemma_first_match_unique, try_program_address,
};
use crate::pubkey::Pubkey;
use crate::state::{Bin, BinArray, BinArrayAccount};

verus! {

/// The bin array data of the account at `i`.
pub open spec fn array_at(accounts: Seq<BinArrayAccount>, i: int) -> BinArray {
    accounts[i].data.unwrap()
}

/// The bin at index `idx` of the bin array held by the account at `i`.
pub open spec fn bin_at(accounts: Seq<BinArrayAccount>, i: int, idx: int) -> Bin {
    array_at(accounts, i).bins[idx]
}

/// `accounts` with bin `idx` of the bin array held by account `i` replaced by `bin`.
pub open spec fn with_bin(accounts: Seq<BinArrayAccount>, i: int, idx: int, bin: Bin) -> Seq<BinArrayAccount> {
    let arr = array_at(accounts, i);
    accounts.update(
        i,
        BinArrayAccount {
            key: accounts[i].key,
            data: Some(BinArray { bins: vstd::array::spec_array_update(arr.bins, idx, bin), ..arr }),
        },
    )
}

/// Replacing one bin leaves every account's address, pool and first bin id, and every
/// other bin, as they were.
pub proof fn lemma_with_bin_frame(accounts: Seq<BinArrayAccount>, i: int, idx: int, bin: Bin)
    requires
        0 <= i < accounts.len(),
        0 <= idx < BINS_PER_ARRAY,
        accounts[i].data is Some,
    ensures
        with_bin(accounts, i, idx, bin).len() == accounts.len(),
        forall|j: int|
            0 <= j < accounts.len() ==> {
                &&& (#[trigger] with_bin(accounts, i, idx, bin)[j]).key == accounts[j].key
                &&& (with_bin(accounts, i, idx, bin)[j].data is Some <==> accounts[j].data is Some)
                &&& j != i ==> with_bin(accounts, i, idx, bin)[j] == accounts[j]
            },
        array_at(with_bin(accounts, i, idx, bin), i).start_bin_id == array_at(accounts, i).start_bin_id,
        array_at(with_bin(accounts, i, idx, bin), i).pool == array_at(accounts, i).pool,
        bin_at(with_bin(accounts, i, idx, bin), i, idx) == bin,
        forall|k: int|
            0 <= k < BINS_PER_ARRAY && k != idx ==> #[trigger] bin_at(with_bin(accounts, i, idx, bin), i, k)
                == bin_at(accounts, i, k),
{
    let arr = array_at(accounts, i);
    vstd::array::axiom_spec_array_update(arr.bins, idx, bin);
    vstd::array::array_len_matches_n(&arr.bins);
    let new_bins = vstd::array::spec_array_update(arr.bins, idx, bin);
    assert forall|k: int| 0 <= k < BINS_PER_ARRAY && k != idx implies #[trigger] bin_at(
        with_bin(accounts, i, idx, bin),
        i,
        k,
    ) == bin_at(accounts, i, k) by {
        assert(new_bins@[k] == arr.bins@[k]);
    }
}

/// Where the bin `bin_id` of the pool lives among `accounts`, as the deposit and swap
/// handlers look it up: the account index and the index within its bin array.
pub open spec fn locate_bin_spec(
    accounts: Seq<BinArrayAccount>,
    pool_key: Pubkey,
    program_id: Pubkey,
    bin_id: i32,
) -> Result<(int, int), HandlerError> {
    match find_bin_array_spec(accounts, pool_key@, bin_id, program_id@) {
        Err(e) => Err(e),
        Ok(i) => {
            let arr = array_at(accounts, i);
            let offset = bin_id - arr.start_bin_id;
            if arr.pool@ != pool_key@ {
                fail(DlmmErrors::InvalidBinArray)
            } else if !(i32::MIN <= offset <= i32::MAX) {
                Err(HandlerError::IntegerOverflow)
            } else if !(0 <= offset < BINS_PER_ARRAY) {
                fail(DlmmErrors::InvalidBinIndex)
            } else {
                Ok((i, offset))
            }
        },
    }
}

/// A bin that `locate_bin_spec` finds lies inside `accounts`, in an account that holds
/// a bin array of the pool, at the index of `bin_id` within that array.
pub proof fn lemma_locate_bin_spec_valid(
    accounts: Seq<BinArrayAccount>,
    pool_key: Pubkey,
    program_id: Pubkey,
    bin_id: i32,
)
    requires
        locate_bin_spec(accounts, pool_key, program_id, bin_id) is Ok,
    ensures
        ({
            let (i, idx) = locate_bin_spec(accounts, pool_key, program_id, bin_id).unwrap();
            &&& 0 <= i < accounts.len()
            &&& accounts[i].data is Some
            &&& 0 <= idx < BINS_PER_ARRAY
            &&& array_at(accounts, i).pool@ == pool_key@
            &&& array_at(accounts, i).start_bin_id + idx == bin_id
        }),
{
    lemma_find_bin_array_spec_valid(accounts, pool_key@, bin_id, program_id@);
}

/// A bin that `locate_bin_for_withdrawal_spec` finds lies inside `accounts`, in an
/// account that holds a bin array of the pool, at the index of `bin_id` within it.
pub proof fn lemma_locate_bin_for_withdrawal_spec_valid(
    accounts: Seq<BinArrayAccount>,
    pool_key: Pubkey,
    program_id: Pubkey,
    bin_id: i32,
)
    requires
        locate_bin_for_withdrawal_spec(accounts, pool_key, program_id, bin_id) is Ok,
    ensures
        ({
            let (i, idx) = locate_bin_for_withdrawal_spec(accounts, pool_key, program_id, bin_id).unwrap();
            &&& 0 <= i < accounts.len()
            &&& accounts[i].data is Some
            &&& 0 <= idx < BINS_PER_ARRAY
            &&& array_at(accounts, i).pool@ == pool_key@
            &&& array_at(accounts, i).start_bin_id + idx == bin_id
        }),
{
    lemma_find_bin_array_spec_valid(accounts, pool_key@, bin_id, program_id@);
}

/// Looks up the bin `bin_id` of the pool among `accounts` as the deposit and swap
/// handlers do: the bin array must belong to the pool and hold the bin.
pub fn locate_bin(
    accounts: &Vec<BinArrayAccount>,
    pool_key: &Pubkey,
    program_id: &Pubkey,
    bin_id: i32,
) -> (r: Result<(usize, usize), HandlerError>)
    ensures
        match locate_bin_spec(accounts@, *pool_key, *program_id, bin_id) {
            Ok((i, idx)) => r == Ok::<(usize, usize), HandlerError>((i as usize, idx as usize)),
            Err(e) => r == Err::<(usize, usize), HandlerError>(e),
        },
        r matches Ok((i, idx)) ==> i < accounts.len() && idx < BINS_PER_ARRAY && accounts@[i as int].data is Some,
{
    let i = match find_bin_array(accounts, pool_key, bin_id, program_id) {
        Ok(i) => i,
        Err(e) => return Err(e),
    };
    let arr = match &accounts[i].data {
        Some(a) => a,
        None => return Err(HandlerError::Program(DlmmErrors::BinArrayNotFound)),
    };
    if !arr.pool.equals(pool_key) {
        return Err(HandlerError::Program(DlmmErrors::InvalidBinArray));
    }
    let offset: i64 = bin_id as i64 - arr.start_bin_id as i64;
    if offset < i32::MIN as i64 || offset > i32::MAX as i64 {
        return Err(HandlerError::IntegerOverflow);
    }
    if offset < 0 || offset >= BINS_PER_ARRAY as i64 {
        return Err(HandlerError::Program(DlmmErrors::InvalidBinIndex));
    }
    Ok((i, offset as usize))
}

/// Where the bin `bin_id` of the pool lives among `accounts`, as the withdrawal
/// handler looks it up: the account index and the index within its bin array.
pub open spec fn locate_bin_for_withdrawal_spec(
    accounts: Seq<BinArrayAccount>,
    pool_key: Pubkey,
    program_id: Pubkey,
    bin_id: i32,
) -> Result<(int, int), HandlerError> {
    match find_bin_array_spec(accounts, pool_key@, bin_id, program_id@) {
        Err(e) => Err(e),
        Ok(i) => {
            let arr = array_at(accounts, i);
            let max_bin = arr.start_bin_id + BINS_PER_ARRAY;
            if arr.pool@ != pool_key@ {
                fail(DlmmErrors::InvalidPool)
            } else if max_bin > i32::MAX {
                Err(HandlerError::IntegerOverflow)
            } else if !(bin_id >= arr.start_bin_id && bin_id < max_bin) {
                fail(DlmmErrors::InvalidBinArray)
            } else {
                Ok((i, bin_id - arr.start_bin_id))
            }
        },
    }
}

/// Looks up the bin `bin_id` of the pool among `accounts` as the withdrawal handler
/// does: the bin array must belong to the pool and its range of bins must hold the bin.
pub fn locate_bin_for_withdrawal(
    accounts: &Vec<BinArrayAccount>,
    pool_key: &Pubkey,
    program_id: &Pubkey,
    bin_id: i32,
) -> (r: Result<(usize, usize), HandlerError>)
    ensures
        match locate_bin_for_withdrawal_spec(accounts@, *pool_key, *program_id, bin_id) {
            Ok((i, idx)) => r == Ok::<(usize, usize), HandlerError>((i as usize, idx as usize)),
            Err(e) => r == Err::<(usize, usize), HandlerError>(e),
        },
        r matches Ok((i, idx)) ==> i < accounts.len() && idx < BINS_PER_ARRAY && accounts@[i as int].data is Some,
{
    let i = match find_bin_array(accounts, pool_key, bin_id, program_id) {
        Ok(i) => i,
        Err(e) => return Err(e),
    };
    let arr = match &accounts[i].data {
        Some(a) => a,
        None => return Err(HandlerError::Program(DlmmErrors::BinArrayNotFound)),
    };
    if !arr.pool.equals(pool_key) {
        return Err(HandlerError::Program(DlmmErrors::InvalidPool));
    }
    let max_bin: i64 = arr.start_bin_id as i64 + BINS_PER_ARRAY as i64;
    if max_bin > i32::MAX as i64 {
        return Err(HandlerError::IntegerOverflow);
    }
    // Bins range validation
    if !(bin_id as i64 >= arr.start_bin_id as i64 && (bin_id as i64) < max_bin) {
        return Err(HandlerError::Program(DlmmErrors::InvalidBinArray));
    }
    let bin_index = (bin_id as i64 - arr.start_bin_id as i64) as usize;
    if !(bin_index < BINS_PER_ARRAY) {
        return Err(HandlerError::Program(DlmmErrors::InvalidBinIndex));
    }
    Ok((i, bin_index))
}

/// A copy of the accounts list.
pub fn copy_accounts(accounts: &Vec<BinArrayAccount>) -> (r: Vec<BinArrayAccount>)
    ensures
        r@ == accounts@,
{
    let mut r: Vec<BinArrayAccount> = Vec::new();
    let mut i: usize = 0;
    while i < accounts.len()
        invariant
            i <= accounts.len(),
            r@ == accounts@.take(i as int),
        decreases accounts.len() - i,
    {
        r.push(accounts[i]);
        i += 1;
        assert(r@ =~= accounts@.take(i as int));
    }
    assert(accounts@.take(accounts.len() as int) =~= accounts@);
    r
}

/// Replaces bin `idx` of the bin array held by account `i`.
pub fn store_bin(accounts: &mut Vec<BinArrayAccount>, i: usize, idx: usize, bin: Bin)
    requires
        i < old(accounts).len(),
        idx < BINS_PER_ARRAY,
        old(accounts)@[i as int].data is Some,
    ensures
        final(accounts)@ == with_bin(old(accounts)@, i as int, idx as int, bin),
{
    let mut account = accounts[i];
    let mut arr = match account.data {
        Some(a) => a,
        None => return,
    };
    arr.bins[idx] = bin;
    account.data = Some(arr);
    accounts.set(i, account);
    assert(accounts@ =~= with_bin(old(accounts)@, i as int, idx as int, bin));
}

/// Law: a bin array that was created for the pool with a first bin id `start`, a
/// multiple of 32, and that is held by the first of `accounts` at the address derived
/// from its seeds (`b"bin_array"`, the pool's address and `start`), is the bin array
/// that the lookup of each bin from `start` to `start + 31` finds, with the bin at
/// `bin_id - start` in it; the withdrawal's lookup finds it too, unless the array is the
/// last one below `i32::MAX`.
pub proof fn lemma_created_bin_array_is_found(
    accounts: Seq<BinArrayAccount>,
    pool_key: Pubkey,
    program_id: Pubkey,
    start: i32,
    bin_id: i32,
    i: int,
)
    requires
        start % 32 == 0,
        start <= bin_id < start + BINS_PER_ARRAY,
        0 <= i < accounts.len(),
        try_program_address(bin_array_seeds(pool_key@, start), program_id@) matches Some(found)
            && accounts[i].key@ == found.0,
        forall|j: int| 0 <= j < i ==> #[trigger] accounts[j].key@ != accounts[i].key@,
        accounts[i].data matches Some(arr) && arr.pool == pool_key && arr.start_bin_id == start,
    ensures
        find_bin_array_spec(accounts, pool_key@, bin_id, program_id@) == Ok::<int, HandlerError>(i),
        locate_bin_spec(accounts, pool_key, program_id, bin_id) == Ok::<(int, int), HandlerError>(
            (i, bin_id - start),
        ),
        start + BINS_PER_ARRAY <= i32::MAX ==> locate_bin_for_withdrawal_spec(accounts, pool_key, program_id, bin_id)
            == Ok::<(int, int), HandlerError>((i, bin_id - start)),
{
    crate::math::lemma_div_bounds(bin_id as int, 32);
    crate::math::lemma_div_bounds(start as int, 32);
    assert(bin_array_start_spec(bin_id as int) == start as int) by (nonlinear_arith)
        requires
            32 * (bin_id / 32) <= bin_id < 32 * (bin_id / 32) + 32,
            32 * (start / 32) <= start < 32 * (start / 32) + 32,
            start % 32 == 0,
            start == 32 * (start / 32) + start % 32,
            start <= bin_id < start + 32,
            bin_array_start_spec(bin_id as int) == (bin_id / 32) * 32,
    ;
    let address = accounts[i].key@;
    assert(is_first_match(accounts, address, i));
    let k = choose|k: int| #[trigger] is_first_match(accounts, address, k);
    lemma_first_match_unique(accounts, address, i, k);
    assert(first_match(accounts, address) == Some(i));
}

/// Two lists of accounts agree in every address, in which accounts hold a bin array,
/// and in each bin array's pool and first bin id: they differ in bin contents only.
pub open spec fn same_layout(a: Seq<BinArrayAccount>, b: Seq<BinArrayAccount>) -> bool {
    &&& a.len() == b.len()
    &&& forall|j: int|
        0 <= j < a.len() ==> {
            &&& (#[trigger] a[j]).key == b[j].key
            &&& (a[j].data is Some <==> b[j].data is Some)
            &&& a[j].data is Some ==> array_at(a, j).pool == array_at(b, j).pool && array_at(a, j).start_bin_id
                == array_at(b, j).start_bin_id
        }
}

/// Replacing a bin keeps the layout.
pub proof fn lemma_with_bin_same_layout(accounts: Seq<BinArrayAccount>, i: int, idx: int, bin: Bin)
    requires
        0 <= i < accounts.len(),
        0 <= idx < BINS_PER_ARRAY,
        accounts[i].data is Some,
    ensures
        same_layout(accounts, with_bin(accounts, i, idx, bin)),
{
    lemma_with_bin_frame(accounts, i, idx, bin);
    let b = with_bin(accounts, i, idx, bin);
    assert forall|j: int| 0 <= j < accounts.len() implies {
        &&& (#[trigger] accounts[j]).key == b[j].key
        &&& (accounts[j].data is Some <==> b[j].data is Some)
        &&& accounts[j].data is Some ==> array_at(accounts, j).pool == array_at(b, j).pool && array_at(
            accounts,
            j,
        ).start_bin_id == array_at(b, j).start_bin_id
    } by {
        assert(b[j].key == accounts[j].key);
    }
}

/// The layout relation is transitive.
pub proof fn lemma_same_layout_trans(a: Seq<BinArrayAccount>, b: Seq<BinArrayAccount>, c: Seq<BinArrayAccount>)
    requires
        same_layout(a, b),
        same_layout(b, c),
    ensures
        same_layout(a, c),
{
    assert forall|j: int| 0 <= j < a.len() implies {
        &&& (#[trigger] a[j]).key == c[j].key
        &&& (a[j].data is Some <==> c[j].data is Some)
        &&& a[j].data is Some ==> array_at(a, j).pool == array_at(c, j).pool && array_at(a, j).start_bin_id
            == array_at(c, j).start_bin_id
    } by {
        assert(a[j].key == b[j].key);
        assert(b[j].key == c[j].key);
    }
}

/// The lookups of a bin give the same answer on two lists of accounts with the same
/// layout.
pub proof fn lemma_same_layout_locate(
    a: Seq<BinArrayAccount>,
    b: Seq<BinArrayAccount>,
    pool_key: Pubkey,
    program_id: Pubkey,
    bin_id: i32,
)
    requires
        same_layout(a, b),
    ensures
        find_bin_array_spec(a, pool_key@, bin_id, program_id@) == find_bin_array_spec(b, pool_key@, bin_id, program_id@),
        locate_bin_spec(a, pool_key, program_id, bin_id) == locate_bin_spec(b, pool_key, program_id, bin_id),
        locate_bin_for_withdrawal_spec(a, pool_key, program_id, bin_id) == locate_bin_for_withdrawal_spec(
            b,
            pool_key,
            program_id,
            bin_id,
        ),
{
    if let Some(address) = crate::pda::bin_array_address(pool_key@, bin_id, program_id@) {
        assert forall|j: int| #![trigger a[j].key@] #![trigger b[j].key@] 0 <= j < a.len() implies a[j].key@
            == b[j].key@ by {
            assert(a[j].key == b[j].key);
        }
        assert forall|i: int| #[trigger] is_first_match(a, address, i) <==> is_first_match(b, address, i) by {
            if is_first_match(a, address, i) {
                assert(a[i].key@ == b[i].key@);
            }
            if is_first_match(b, address, i) {
                assert(a[i].key@ == b[i].key@);
            }
        }
        if exists|i: int| #[trigger] is_first_match(a, address, i) {
            let ia = choose|i: int| #[trigger] is_first_match(a, address, i);
            let ib = choose|i: int| #[trigger] is_first_match(b, address, i);
            assert(is_first_match(b, address, ia));
            lemma_first_match_unique(b, address, ia, ib);
            assert(first_match(a, address) == first_match(b, address));
            assert(a[ia].data is Some <==> b[ia].data is Some);
        } else {
            assert forall|i: int| !(#[trigger] is_first_match(b, address, i)) by {
                assert(is_first_match(a, address, i) <==> is_first_match(b, address, i));
            }
        }
    }
}

/// A lookup lands on one bin per bin id: the bin it finds for `bin_id` has that id.
pub proof fn lemma_locate_bin_id(accounts: Seq<BinArrayAccount>, pool_key: Pubkey, program_id: Pubkey, bin_id: i32)
    ensures
        locate_bin_spec(accounts, pool_key, program_id, bin_id) matches Ok((j, k)) ==> array_at(accounts, j).start_bin_id
            + k == bin_id,
        locate_bin_for_withdrawal_spec(accounts, pool_key, program_id, bin_id) matches Ok((j, k)) ==> array_at(
            accounts,
            j,
        ).start_bin_id + k == bin_id,
{
    if locate_bin_spec(accounts, pool_key, program_id, bin_id) is Ok {
        lemma_locate_bin_spec_valid(accounts, pool_key, program_id, bin_id);
    }
    if locate_bin_for_withdrawal_spec(accounts, pool_key, program_id, bin_id) is Ok {
        lemma_locate_bin_for_withdrawal_spec_valid(accounts, pool_key, program_id, bin_id);
    }
}

/// Where the deposit's lookup finds a bin in an array that ends below `i32::MAX`, the
/// withdrawal's lookup finds the same bin.
pub proof fn lemma_locate_for_withdrawal_agrees(
    accounts: Seq<BinArrayAccount>,
    pool_key: Pubkey,
    program_id: Pubkey,
    bin_id: i32,
)
    requires
        locate_bin_spec(accounts, pool_key, program_id, bin_id) is Ok,
        array_at(accounts, locate_bin_spec(accounts, pool_key, program_id, bin_id).unwrap().0).start_bin_id
            + BINS_PER_ARRAY <= i32::MAX,
    ensures
        locate_bin_for_withdrawal_spec(accounts, pool_key, program_id, bin_id) == locate_bin_spec(
            accounts,
            pool_key,
            program_id,
            bin_id,
        ),
{
    lemma_locate_bin_spec_valid(accounts, pool_key, program_id, bin_id);
}

} // verus!
