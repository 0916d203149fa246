//! What a router hands to a market and gets back from it.

use vstd::prelude::*;

use crate::pubkey::Pubkey;

verus! {

/// What an account holds.
#[derive(Debug)]
pub struct Account {
    pub owner: Pubkey,
    pub data: Vec<u8>,
}

/// An account with its address.
#[derive(Debug)]
pub struct KeyedAccount {
    pub key: Pubkey,
    pub account: Account,
}

/// The chain's clock, as far as it matters here.
#[derive(Debug, Clone, Copy)]
pub struct Clock {
    pub slot: u64,
    pub epoch: u64,
}

/// Which side of a swap is fixed.
#[derive(Debug, Clone, Copy, PartialEq, Eq, Structural)]
pub enum SwapMode {
    ExactIn,
    ExactOut,
}

/// A question for a quote.
#[derive(Debug, Clone, Copy)]
pub struct QuoteParams {
    pub amount: u64,
    pub input_mint: Pubkey,
    pub output_mint: Pubkey,
    pub swap_mode: SwapMode,
}

/// The answer to a [`QuoteParams`], in atoms.
#[derive(Debug, Clone, Copy)]
pub struct Quote {
    pub in_amount: u64,
    pub out_amount: u64,
    pub fee_amount: u64,
    pub fee_mint: Pubkey,
    pub fee_pct: rust_decimal::Decimal,
}

/// Who swaps, and between which token accounts.
#[derive(Debug, Clone, Copy)]
pub struct SwapParams {
    pub source_mint: Pubkey,
    pub destination_mint: Pubkey,
    pub source_token_account: Pubkey,
    pub destination_token_account: Pubkey,
    pub token_transfer_authority: Pubkey,
}

/// An account that an instruction touches.
#[derive(Debug, Clone, Copy)]
pub struct AccountMeta {
    pub pubkey: Pubkey,
    pub is_signer: bool,
    pub is_writable: bool,
}

/// The kind of swap instruction.
#[derive(Debug, Clone, Copy, PartialEq, Eq, Structural)]
pub enum Swap {
    Archer,
}

/// A swap instruction with the accounts it touches.
#[derive(Debug)]
pub struct SwapAndAccountMetas {
    pub swap: Swap,
    pub account_metas: Vec<AccountMeta>,
}

/// An account that is written to.
pub open spec fn writable(pubkey: Pubkey) -> AccountMeta {
    AccountMeta { pubkey, is_signer: false, is_writable: true }
}

/// An account that is only read.
pub open spec fn readonly(pubkey: Pubkey) -> AccountMeta {
    AccountMeta { pubkey, is_signer: false, is_writable: false }
}

impl AccountMeta {
    /// An account that is written to.
    pub fn new(pubkey: Pubkey, is_signer: bool) -> (meta: AccountMeta)
        ensures
            meta == (AccountMeta { pubkey, is_signer, is_writable: true }),
    {
        AccountMeta { pubkey, is_signer, is_writable: true }
    }

    /// An account that is only read.
    pub fn new_readonly(pubkey: Pubkey, is_signer: bool) -> (meta: AccountMeta)
        ensures
            meta == (AccountMeta { pubkey, is_signer, is_writable: false }),
    {
        AccountMeta { pubkey, is_signer, is_writable: false }
    }
}

/// The first of the accounts at an address.
pub open spec fn found(accounts: Seq<KeyedAccount>, key: Pubkey) -> Option<Account>
    decreases accounts.len(),
{
    if accounts.len() == 0 {
        None
    } else if accounts.first().key == key {
        Some(accounts.first().account)
    } else {
        found(accounts.drop_first(), key)
    }
}

/// Looks up the account at an address.
pub fn find_account<'a>(accounts: &'a [KeyedAccount], key: &Pubkey) -> (r: Option<&'a Account>)
    ensures
        match r {
            Some(account) => found(accounts@, *key) == Some(*account),
            None => found(accounts@, *key) is None,
        },
{
    let mut i: usize = 0;
    assert(accounts@.skip(0) =~= accounts@);
    while i < accounts.len()
        invariant
            i <= accounts.len(),
            found(accounts@.skip(i as int), *key) == found(accounts@, *key),
        decreases accounts.len() - i,
    {
        assert(accounts@.skip(i as int).drop_first() =~= accounts@.skip(i + 1));
        if accounts[i].key == *key {
            return Some(&accounts[i].account);
        }
        i = i + 1;
    }
    None
}

} // verus!
