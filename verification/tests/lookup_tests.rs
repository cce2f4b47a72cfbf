use dlmm::constants::bin_array_seed;
use dlmm::pda::{bin_array_start, expected_bin_array_address, find_account, i32_to_le_bytes, pubkey_bytes};
use dlmm::instructions::locate::{locate_bin, locate_bin_for_withdrawal};
use dlmm::{
    bin_array_handler, find_bin_array, Bin, BinArray, BinArrayAccount, DlmmErrors, HandlerError, InitializeBinArray,
    Pubkey,
};

fn key(byte: u8) -> Pubkey {
    Pubkey([byte; 32])
}

fn empty_array(pool: Pubkey, start: i32) -> BinArray {
    let bin = Bin { reserve_x: 0, reserve_y: 0, total_shares: 0, fee_growth_x: 0, fee_growth_y: 0 };
    BinArray { pool, start_bin_id: start, bump: 0, padding: [0; 11], bins: [bin; 32] }
}

#[test]
fn bin_array_start_rounds_down_to_multiples_of_32() {
    assert_eq!(bin_array_start(0), 0);
    assert_eq!(bin_array_start(31), 0);
    assert_eq!(bin_array_start(32), 32);
    assert_eq!(bin_array_start(100), 96);
    assert_eq!(bin_array_start(-1), -32);
    assert_eq!(bin_array_start(-32), -32);
    assert_eq!(bin_array_start(-33), -64);
    assert_eq!(bin_array_start(i32::MIN), i32::MIN);
    assert_eq!(bin_array_start(i32::MAX), 2147483616);
}

#[test]
fn bin_array_start_matches_div_euclid() {
    for bin_id in [-1000, -65, -64, -63, -1, 0, 1, 63, 64, 65, 1000, 123456] {
        assert_eq!(bin_array_start(bin_id), bin_id.div_euclid(32) * 32);
    }
}

#[test]
fn seed_bytes_are_the_documented_ones() {
    assert_eq!(bin_array_seed(), b"bin_array".to_vec());
    for v in [0i32, 1, -1, 32, -32, i32::MIN, i32::MAX, 0x01020304] {
        assert_eq!(i32_to_le_bytes(v), v.to_le_bytes().to_vec());
    }
    assert_eq!(pubkey_bytes(&key(7)), vec![7u8; 32]);
}

#[test]
fn pubkey_equality_is_bytewise() {
    let a = key(1);
    let mut b = key(1);
    assert!(a.equals(&b));
    b.0[31] = 2;
    assert!(!a.equals(&b));
    assert!(Pubkey::zeroed().equals(&key(0)));
}

#[test]
fn expected_address_is_the_program_derived_address() {
    let pool = key(3);
    let program = key(9);
    let start: i32 = -64;
    let seeds: [&[u8]; 3] = [b"bin_array", &pool.0, &start.to_le_bytes()];
    let (pda, _bump) = anchor_lang::prelude::Pubkey::find_program_address(
        &seeds,
        &anchor_lang::prelude::Pubkey::new_from_array(program.0),
    );
    let ours = expected_bin_array_address(&pool, -40, &program).unwrap();
    assert_eq!(ours.0, pda.to_bytes());
    // any bin of the same array gives the same address, another array another one
    assert_eq!(expected_bin_array_address(&pool, -64, &program), Some(ours));
    assert_eq!(expected_bin_array_address(&pool, -33, &program), Some(ours));
    assert_ne!(expected_bin_array_address(&pool, -32, &program), Some(ours));
    // the address is not one of its inputs
    assert_ne!(ours, pool);
    assert_ne!(ours, program);
}

#[test]
fn find_account_returns_the_first_match() {
    let accounts = vec![
        BinArrayAccount { key: key(1), data: None },
        BinArrayAccount { key: key(2), data: None },
        BinArrayAccount { key: key(2), data: None },
    ];
    assert_eq!(find_account(&accounts, &key(2)), Some(1));
    assert_eq!(find_account(&accounts, &key(1)), Some(0));
    assert_eq!(find_account(&accounts, &key(5)), None);
}

#[test]
fn find_bin_array_outcomes() {
    let pool = key(3);
    let program = key(9);
    let address = expected_bin_array_address(&pool, 5, &program).unwrap();
    let loaded = BinArrayAccount { key: address, data: Some(empty_array(pool, 0)) };
    let unloadable = BinArrayAccount { key: address, data: None };
    let other = BinArrayAccount { key: key(4), data: Some(empty_array(pool, 0)) };

    assert_eq!(
        find_bin_array(&vec![other], &pool, 5, &program),
        Err(HandlerError::Program(DlmmErrors::BinArrayNotFound))
    );
    assert_eq!(find_bin_array(&vec![other, loaded], &pool, 5, &program), Ok(1));
    assert_eq!(find_bin_array(&vec![other, loaded], &pool, 31, &program), Ok(1));
    assert_eq!(
        find_bin_array(&vec![other, loaded], &pool, 32, &program),
        Err(HandlerError::Program(DlmmErrors::BinArrayNotFound))
    );
    assert_eq!(
        find_bin_array(&vec![other, unloadable, loaded], &pool, 5, &program),
        Err(HandlerError::AccountNotLoadable(1))
    );
    assert_eq!(find_bin_array(&vec![loaded, unloadable], &pool, 5, &program), Ok(0));
}

#[test]
fn created_bin_array_is_found_law() {
    let pool = key(3);
    let program = key(9);
    let start: i32 = -96;
    let created = bin_array_handler(&InitializeBinArray { pool_key: pool, bin_array_bump: 251 }, start);
    let address = expected_bin_array_address(&pool, start, &program).unwrap();
    let accounts = vec![
        BinArrayAccount { key: key(4), data: Some(empty_array(pool, 0)) },
        BinArrayAccount { key: address, data: Some(created) },
    ];
    for bin_id in start..start + 32 {
        assert_eq!(find_bin_array(&accounts, &pool, bin_id, &program), Ok(1));
        assert_eq!(locate_bin(&accounts, &pool, &program, bin_id), Ok((1, (bin_id - start) as usize)));
        assert_eq!(
            locate_bin_for_withdrawal(&accounts, &pool, &program, bin_id),
            Ok((1, (bin_id - start) as usize))
        );
    }
    // a bin array created at a start that is not a multiple of 32 is not found
    let odd = bin_array_handler(&InitializeBinArray { pool_key: pool, bin_array_bump: 251 }, 5);
    let odd_start: i32 = 5;
    let seeds: [&[u8]; 3] = [b"bin_array", &pool.0, &odd_start.to_le_bytes()];
    let (derived, _bump) = anchor_lang::prelude::Pubkey::find_program_address(
        &seeds,
        &anchor_lang::prelude::Pubkey::new_from_array(program.0),
    );
    let odd_address = Pubkey(derived.to_bytes());
    let accounts = vec![BinArrayAccount { key: odd_address, data: Some(odd) }];
    assert_eq!(
        find_bin_array(&accounts, &pool, 5, &program),
        Err(HandlerError::Program(DlmmErrors::BinArrayNotFound))
    );
}
