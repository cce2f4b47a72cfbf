use vstd::prelude::*;

use crate::constants::{bin_array_seed, bin_array_seed_spec};
use crate::error::{fail, DlmmErrors, HandlerError};
use crate::pubkey::Pubkey;
use crate::state::BinArrayAccount;

verus! {

/// The program derived address and bump seed that `Pubkey::try_find_program_address`
/// gives for these seeds under this program id, or `None` where it finds none.
pub uninterp spec fn try_program_address(seeds: Seq<Seq<u8>>, program_id: Seq<u8>) -> Option<(Seq<u8>, u8)>;

/// Calls `try_find_program_address` of the address type that anchor_lang exports as
/// `Pubkey` (crate solana-address). Claimed: the result, address and bump seed, is
/// `try_program_address` of the seeds and the program id, a function of these alone,
/// and `None` exactly where that name is `None`. The call does not panic: too many
/// seeds, an over-long seed, or no bump seed from 255 down to 1 that gives an address
/// off the curve all end in `None`. Which seeds give `None` is left unsaid here.
#[verifier::external_body]
fn try_find_program_address(seeds: &Vec<Vec<u8>>, program_id: &Pubkey) -> (r: Option<(Pubkey, u8)>)
    ensures
        r matches Some(p) ==> try_program_address(seeds@.map_values(|s: Vec<u8>| s@), program_id@)
            == Some((p.0@, p.1)),
        r is None ==> try_program_address(seeds@.map_values(|s: Vec<u8>| s@), program_id@) is None,
{
    let slices: Vec<&[u8]> = seeds.iter().map(|s| s.as_slice()).collect();
    let program = anchor_lang::prelude::Pubkey::new_from_array(program_id.0);
    match anchor_lang::prelude::Pubkey::try_find_program_address(&slices, &program) {
        Some((address, bump)) => Some((Pubkey(address.to_bytes()), bump)),
        None => None,
    }
}

/// The first bin id of the bin array that holds `bin_id`: the largest multiple of 32
/// not above it.
pub open spec fn bin_array_start_spec(bin_id: int) -> int {
    (bin_id / 32) * 32
}

/// The first bin id of the bin array that holds `bin_id`.
pub fn bin_array_start(bin_id: i32) -> (r: i32)
    ensures
        r == bin_array_start_spec(bin_id as int),
        r <= bin_id < r + 32,
        r % 32 == 0,
{
    let q: i32 = match bin_id.checked_div_euclid(32) {
        Some(q) => q,
        None => 0,
    };
    proof {
        crate::math::lemma_div_bounds(bin_id as int, 32);
    }
    q * 32
}

/// The little-endian bytes of a 32-bit signed integer.
pub open spec fn i32_le_bytes(v: i32) -> Seq<u8> {
    let u = v as u32;
    seq![(u % 256) as u8, ((u / 256) % 256) as u8, ((u / 65536) % 256) as u8, (u / 16777216) as u8]
}

/// The little-endian bytes of a 32-bit signed integer.
pub fn i32_to_le_bytes(v: i32) -> (r: Vec<u8>)
    ensures
        r@ == i32_le_bytes(v),
{
    let u = v as u32;
    let r = vec![(u % 256) as u8, ((u / 256) % 256) as u8, ((u / 65536) % 256) as u8, (u / 16777216) as u8];
    assert(r@ =~= i32_le_bytes(v));
    r
}

/// The bytes of an address, in a vector.
pub fn pubkey_bytes(key: &Pubkey) -> (r: Vec<u8>)
    ensures
        r@ == key@,
{
    let mut r: Vec<u8> = Vec::new();
    let mut i: usize = 0;
    while i < 32
        invariant
            i <= 32,
            key@.len() == 32,
            r@ == key@.take(i as int),
        decreases 32 - i,
    {
        r.push(key.0[i]);
        i += 1;
        assert(r@ =~= key@.take(i as int));
    }
    assert(key@.take(32) =~= key@);
    r
}

/// The seeds of the bin array that starts at `start`: `b"bin_array"`, the pool's
/// address and the little-endian bytes of `start`.
pub open spec fn bin_array_seeds(pool_key: Seq<u8>, start: i32) -> Seq<Seq<u8>> {
    seq![bin_array_seed_spec(), pool_key, i32_le_bytes(start)]
}

/// The address at which the bin array holding `bin_id` lives, where one can be derived.
pub open spec fn bin_array_address(pool_key: Seq<u8>, bin_id: i32, program_id: Seq<u8>) -> Option<Seq<u8>> {
    match try_program_address(bin_array_seeds(pool_key, bin_array_start_spec(bin_id as int) as i32), program_id) {
        Some(found) => Some(found.0),
        None => None,
    }
}

/// The address of the bin array account that holds `bin_id` in the pool `pool_key`,
/// or `None` where no bump seed gives one.
pub fn expected_bin_array_address(pool_key: &Pubkey, bin_id: i32, program_id: &Pubkey) -> (r: Option<Pubkey>)
    ensures
        r matches Some(a) ==> bin_array_address(pool_key@, bin_id, program_id@) == Some(a@),
        r is None ==> bin_array_address(pool_key@, bin_id, program_id@) is None,
{
    let start = bin_array_start(bin_id);
    let seeds = vec![bin_array_seed(), pubkey_bytes(pool_key), i32_to_le_bytes(start)];
    assert(seeds@.map_values(|s: Vec<u8>| s@) =~= bin_array_seeds(pool_key@, start));
    match try_find_program_address(&seeds, program_id) {
        Some((address, _bump)) => Some(address),
        None => None,
    }
}

/// `i` is the first index of `accounts` whose address is `address`.
pub open spec fn is_first_match(accounts: Seq<BinArrayAccount>, address: Seq<u8>, i: int) -> bool {
    &&& 0 <= i < accounts.len()
    &&& accounts[i].key@ == address
    &&& forall|j: int| 0 <= j < i ==> #[trigger] accounts[j].key@ != address
}

/// The first index of `accounts` whose address is `address`, if there is one.
pub open spec fn first_match(accounts: Seq<BinArrayAccount>, address: Seq<u8>) -> Option<int> {
    if exists|i: int| #[trigger] is_first_match(accounts, address, i) {
        Some(choose|i: int| #[trigger] is_first_match(accounts, address, i))
    } else {
        None
    }
}

/// Only one index is the first match.
pub proof fn lemma_first_match_unique(accounts: Seq<BinArrayAccount>, address: Seq<u8>, i: int, j: int)
    requires
        is_first_match(accounts, address, i),
        is_first_match(accounts, address, j),
    ensures
        i == j,
{
    if i < j {
        assert(accounts[i].key@ != address);
    } else if j < i {
        assert(accounts[j].key@ != address);
    }
}

/// The first index of `accounts` whose address is `address`.
pub fn find_account(accounts: &Vec<BinArrayAccount>, address: &Pubkey) -> (r: Option<usize>)
    ensures
        r matches Some(i) ==> first_match(accounts@, address@) == Some(i as int),
        r is None ==> first_match(accounts@, address@) is None,
        r is None <==> forall|i: int| 0 <= i < accounts.len() ==> #[trigger] accounts@[i].key@ != address@,
{
    let mut i: usize = 0;
    while i < accounts.len()
        invariant
            i <= accounts.len(),
            forall|j: int| 0 <= j < i ==> #[trigger] accounts@[j].key@ != address@,
        decreases accounts.len() - i,
    {
        if accounts[i].key.equals(address) {
            assert(is_first_match(accounts@, address@, i as int));
            proof {
                let k = choose|k: int| #[trigger] is_first_match(accounts@, address@, k);
                lemma_first_match_unique(accounts@, address@, i as int, k);
            }
            return Some(i);
        }
        i += 1;
    }
    assert forall|k: int| !(#[trigger] is_first_match(accounts@, address@, k)) by {
        if 0 <= k < accounts.len() {
            assert(accounts@[k].key@ != address@);
        }
    }
    None
}

/// What looking up the bin array that holds `bin_id` gives: the index of the first
/// account at its address where that account loads as a bin array.
pub open spec fn find_bin_array_spec(
    accounts: Seq<BinArrayAccount>,
    pool_key: Seq<u8>,
    bin_id: i32,
    program_id: Seq<u8>,
) -> Result<int, HandlerError> {
    match bin_array_address(pool_key, bin_id, program_id) {
        None => Err(HandlerError::NoProgramAddress),
        Some(address) => match first_match(accounts, address) {
            None => fail(DlmmErrors::BinArrayNotFound),
            Some(i) => if accounts[i].data is Some {
                Ok(i)
            } else {
                Err(HandlerError::AccountNotLoadable(i as usize))
            },
        },
    }
}

/// An index that `find_bin_array_spec` gives lies inside `accounts` and holds a bin array.
pub proof fn lemma_find_bin_array_spec_valid(
    accounts: Seq<BinArrayAccount>,
    pool_key: Seq<u8>,
    bin_id: i32,
    program_id: Seq<u8>,
)
    requires
        find_bin_array_spec(accounts, pool_key, bin_id, program_id) is Ok,
    ensures
        ({
            let i = find_bin_array_spec(accounts, pool_key, bin_id, program_id).unwrap();
            &&& 0 <= i < accounts.len()
            &&& accounts[i].data is Some
            &&& bin_array_address(pool_key, bin_id, program_id) == Some(accounts[i].key@)
        }),
{
    let address = bin_array_address(pool_key, bin_id, program_id).unwrap();
    let i = choose|i: int| #[trigger] is_first_match(accounts, address, i);
    assert(is_first_match(accounts, address, i));
}

/// Finds among `remaining_accounts` the bin array that holds `bin_id`: the first
/// account at the address derived from the pool and the array's first bin id. Where no
/// address can be derived from those seeds, the lookup stops with `NoProgramAddress`.
pub fn find_bin_array(
    remaining_accounts: &Vec<BinArrayAccount>,
    pool_key: &Pubkey,
    bin_id: i32,
    program_id: &Pubkey,
) -> (r: Result<usize, HandlerError>)
    ensures
        match find_bin_array_spec(remaining_accounts@, pool_key@, bin_id, program_id@) {
            Ok(i) => r == Ok::<usize, HandlerError>(i as usize),
            Err(e) => r == Err::<usize, HandlerError>(e),
        },
        r matches Ok(i) ==> i < remaining_accounts.len() && remaining_accounts@[i as int].data is Some,
{
    let expected = match expected_bin_array_address(pool_key, bin_id, program_id) {
        Some(address) => address,
        None => return Err(HandlerError::NoProgramAddress),
    };
    match find_account(remaining_accounts, &expected) {
        Some(i) => {
            if remaining_accounts[i].data.is_some() {
                Ok(i)
            } else {
                Err(HandlerError::AccountNotLoadable(i))
            }
        },
        None => Err(HandlerError::Program(DlmmErrors::BinArrayNotFound)),
    }
}

} // verus!
