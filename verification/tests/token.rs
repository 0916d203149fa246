//! Transfer fees of mints.

use archer_jup::pubkey::{Pubkey, ARCHER_PROGRAM_ID, SPL_TOKEN_PROGRAM, TOKEN_2022_PROGRAM};
use archer_jup::token::{
    token_program_for_mint, transfer_fee_atoms, transfer_fee_given, TransferFee, TransferFees,
};
use spl_token_2022::extension::transfer_fee::TransferFeeConfig;
use spl_token_2022::extension::{
    BaseStateWithExtensionsMut, ExtensionType, StateWithExtensionsMut,
};
use spl_token_2022::state::Mint;
use std::str::FromStr;

fn key(bytes: [u8; 32]) -> Pubkey {
    Pubkey::new_from_array(bytes)
}

/// A mint with a transfer fee: 1% up to 1000 before epoch 10, 2% up to 7 from
/// then on.
fn fee_mint() -> Vec<u8> {
    let len = ExtensionType::try_calculate_account_len::<Mint>(&[ExtensionType::TransferFeeConfig])
        .unwrap();
    let mut data = vec![0u8; len];
    let mut state = StateWithExtensionsMut::<Mint>::unpack_uninitialized(&mut data).unwrap();
    let config = state.init_extension::<TransferFeeConfig>(true).unwrap();
    config.older_transfer_fee.epoch = 3.into();
    config.older_transfer_fee.maximum_fee = 1000.into();
    config.older_transfer_fee.transfer_fee_basis_points = 100.into();
    config.newer_transfer_fee.epoch = 10.into();
    config.newer_transfer_fee.maximum_fee = 7.into();
    config.newer_transfer_fee.transfer_fee_basis_points = 200.into();
    state.base = Mint { decimals: 6, is_initialized: true, ..Default::default() };
    state.pack_base();
    state.init_account_type().unwrap();
    data
}

#[test]
fn program_addresses_are_what_they_say() {
    let text = |bytes: [u8; 32]| solana_pubkey::Pubkey::new_from_array(bytes).to_string();
    assert_eq!(text(ARCHER_PROGRAM_ID), "Archer8kgiavM61GyusMzaaS2ft5sALtNsD1HxkUPMhy");
    assert_eq!(text(SPL_TOKEN_PROGRAM), "TokenkegQfeZyiNwAJbNbGKPFXCWuBvf9Ss623VQ5DA");
    assert_eq!(text(TOKEN_2022_PROGRAM), "TokenzQdBNbLqP5VEhdkAS6EPFLC1PHnBqCXEpPxuEb");
    let parsed = solana_pubkey::Pubkey::from_str("TokenzQdBNbLqP5VEhdkAS6EPFLC1PHnBqCXEpPxuEb");
    assert_eq!(parsed.unwrap().to_bytes(), TOKEN_2022_PROGRAM);
}

#[test]
fn token_program_follows_the_owner() {
    assert_eq!(token_program_for_mint(&key(TOKEN_2022_PROGRAM)), key(TOKEN_2022_PROGRAM));
    assert_eq!(token_program_for_mint(&key(SPL_TOKEN_PROGRAM)), key(SPL_TOKEN_PROGRAM));
    assert_eq!(token_program_for_mint(&key([9; 32])), key(SPL_TOKEN_PROGRAM));
}

#[test]
fn fee_of_a_mint_depends_on_the_epoch() {
    let mint = fee_mint();
    let program = key(TOKEN_2022_PROGRAM);
    // 1% of 1001, rounded up.
    assert_eq!(transfer_fee_atoms(&mint, &program, 1_001, 9).unwrap(), 11);
    // 1% of a million is more than the maximum.
    assert_eq!(transfer_fee_atoms(&mint, &program, 1_000_000, 0).unwrap(), 1_000);
    // From epoch 10 on: 2%, at most 7.
    assert_eq!(transfer_fee_atoms(&mint, &program, 101, 10).unwrap(), 3);
    assert_eq!(transfer_fee_atoms(&mint, &program, 1_001, 10).unwrap(), 7);
    assert_eq!(transfer_fee_atoms(&mint, &program, 0, 10).unwrap(), 0);
}

#[test]
fn no_fee_without_extension_program_or_bytes() {
    let mint = fee_mint();
    assert_eq!(transfer_fee_atoms(&mint, &key(SPL_TOKEN_PROGRAM), 1_001, 0).unwrap(), 0);
    assert_eq!(transfer_fee_atoms(&[], &key(TOKEN_2022_PROGRAM), 1_001, 0).unwrap(), 0);
    // A mint that is nothing but its base part.
    let mut bare = vec![0u8; 82];
    bare[45] = 1;
    assert_eq!(transfer_fee_atoms(&bare, &key(TOKEN_2022_PROGRAM), 1_001, 0).unwrap(), 0);
}

#[test]
fn bytes_that_are_no_mint_are_refused() {
    let program = key(TOKEN_2022_PROGRAM);
    let short = transfer_fee_atoms(&[1; 81], &program, 5, 0).unwrap_err();
    assert_eq!(short.to_text(), "mint unpack: An account's data contents was invalid");
    let blank = transfer_fee_atoms(&[0; 82], &program, 5, 0).unwrap_err();
    assert_eq!(
        blank.to_text(),
        "mint unpack: An attempt to operate on an account that hasn't been initialized"
    );
}

#[test]
fn fee_given_the_rates() {
    let older = TransferFee { epoch: 0, maximum_fee: u64::MAX, transfer_fee_basis_points: 65_535 };
    let newer = TransferFee { epoch: 5, maximum_fee: 10, transfer_fee_basis_points: 1 };
    let fees = TransferFees { older, newer };
    assert_eq!(transfer_fee_given(None, 1_000, 0).unwrap(), 0);
    assert_eq!(transfer_fee_given(Some(fees), 10_000, 4).unwrap(), 65_535);
    assert_eq!(transfer_fee_given(Some(fees), 10_000, 5).unwrap(), 1);
    assert_eq!(transfer_fee_given(Some(fees), 10_001, 5).unwrap(), 2);
    assert_eq!(transfer_fee_given(Some(fees), 10_000_000, 6).unwrap(), 10);
    // 6.5535 times the whole range does not fit.
    let overflow = transfer_fee_given(Some(fees), u64::MAX, 0).unwrap_err();
    assert_eq!(overflow.to_text(), "transfer fee overflow");
}
