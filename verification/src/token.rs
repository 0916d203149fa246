//! Token programs, and the fee that a mint may charge on every transfer.

use spl_token_2022::extension::BaseStateWithExtensions;
use vstd::prelude::*;

use crate::error::{AmmError, amm_error, amm_error_because, amm_outcome};
use crate::lots::ceil_div;
use crate::pubkey::{Pubkey, SPL_TOKEN_PROGRAM, TOKEN_2022_PROGRAM};

verus! {

/// A transfer fee rate, and the first epoch in which it holds.
#[derive(Debug, Clone, Copy, PartialEq, Eq, Structural)]
pub struct TransferFee {
    pub epoch: u64,
    pub maximum_fee: u64,
    pub transfer_fee_basis_points: u16,
}

/// The two fee rates of a mint: the newer one holds from its epoch on, the
/// older one before.
#[derive(Debug, Clone, Copy, PartialEq, Eq, Structural)]
pub struct TransferFees {
    pub older: TransferFee,
    pub newer: TransferFee,
}

impl TransferFee {
    /// The fee as epoch, maximum and basis points.
    pub open spec fn parts(self) -> (u64, u64, u16) {
        (self.epoch, self.maximum_fee, self.transfer_fee_basis_points)
    }

    /// The fee on an amount: its basis points rounded up, at most the maximum.
    /// There is none where that leaves `u64` before the maximum is applied.
    pub open spec fn on(self, amount: u64) -> Option<u64> {
        let raw = ceil_div(amount * self.transfer_fee_basis_points, 10_000);
        if self.transfer_fee_basis_points == 0 || amount == 0 {
            Some(0)
        } else if raw > u64::MAX {
            None
        } else if raw <= self.maximum_fee {
            Some(raw as u64)
        } else {
            Some(self.maximum_fee)
        }
    }
}

impl TransferFees {
    /// The rate that holds in an epoch.
    pub open spec fn in_epoch(self, epoch: u64) -> TransferFee {
        if epoch >= self.newer.epoch {
            self.newer
        } else {
            self.older
        }
    }
}

/// The text with which `spl_token_2022`'s `StateWithExtensions::<Mint>::unpack`
/// refuses these bytes; none where it accepts them.
pub uninterp spec fn mint_refusal(data: Seq<u8>) -> Option<Seq<char>>;

/// The older and newer transfer fee, each as epoch, maximum and basis points,
/// that `spl_token_2022`'s `get_extension::<TransferFeeConfig>` finds in the
/// mint that these bytes unpack to; none where it finds no such extension or
/// the bytes do not unpack.
pub uninterp spec fn mint_fees(data: Seq<u8>) -> Option<((u64, u64, u16), (u64, u64, u16))>;

/// Calls `spl_token_2022`'s `StateWithExtensions::<Mint>::unpack` and keeps
/// what it says of the bytes.
///
/// Claimed of it: whether it accepts the bytes, and the text of its error,
/// depend on the bytes alone; it refuses fewer bytes than a mint takes.
#[verifier::external_body]
fn unpack_mint(data: &[u8]) -> (r: Result<(), String>)
    ensures
        match r {
            Ok(_) => mint_refusal(data@) is None,
            Err(text) => mint_refusal(data@) == Some(text@),
        },
        data@.len() < 82 ==> r is Err,
{
    spl_token_2022::extension::StateWithExtensions::<spl_token_2022::state::Mint>::unpack(data)
        .map(|_| ())
        .map_err(|e| e.to_string())
}

/// Calls `spl_token_2022`'s `get_extension::<TransferFeeConfig>` on an unpacked
/// mint.
///
/// Claimed of it: whether it finds the extension, and the fees in it, depend on
/// the bytes alone; a mint that is nothing but its base part has no extension.
#[verifier::external_body]
fn transfer_fee_extension(data: &[u8]) -> (r: Option<TransferFees>)
    ensures
        match r {
            Some(fees) => mint_fees(data@) == Some((fees.older.parts(), fees.newer.parts())),
            None => mint_fees(data@) is None,
        },
        data@.len() <= 82 ==> r is None,
{
    let mint = spl_token_2022::extension::StateWithExtensions::<spl_token_2022::state::Mint>::unpack(data).ok()?;
    let config = mint.get_extension::<spl_token_2022::extension::transfer_fee::TransferFeeConfig>().ok()?;
    let plain = |f: &spl_token_2022::extension::transfer_fee::TransferFee| TransferFee {
        epoch: f.epoch.into(),
        maximum_fee: f.maximum_fee.into(),
        transfer_fee_basis_points: f.transfer_fee_basis_points.into(),
    };
    Some(TransferFees { older: plain(&config.older_transfer_fee), newer: plain(&config.newer_transfer_fee) })
}

/// Calls `spl_token_2022`'s `TransferFeeConfig::calculate_epoch_fee`.
///
/// Claimed of it: the newer rate holds from its epoch on and the older one
/// before; a rate or an amount of zero costs nothing; otherwise the fee is the
/// amount's basis points rounded up, where that fits in `u64`, and at most the
/// maximum.
#[verifier::external_body]
fn epoch_fee(fees: &TransferFees, epoch: u64, amount: u64) -> (r: Option<u64>)
    ensures
        r == fees.in_epoch(epoch).on(amount),
{
    let pod = |f: &TransferFee| spl_token_2022::extension::transfer_fee::TransferFee {
        epoch: f.epoch.into(),
        maximum_fee: f.maximum_fee.into(),
        transfer_fee_basis_points: f.transfer_fee_basis_points.into(),
    };
    let config = spl_token_2022::extension::transfer_fee::TransferFeeConfig {
        older_transfer_fee: pod(&fees.older),
        newer_transfer_fee: pod(&fees.newer),
        ..Default::default()
    };
    config.calculate_epoch_fee(epoch, amount)
}

/// The token program that moves a mint owned by `owner`: the one with
/// extensions where that is the owner, and the plain one otherwise.
pub open spec fn token_program_of(owner: Pubkey) -> Pubkey {
    if owner.bytes == TOKEN_2022_PROGRAM {
        Pubkey { bytes: TOKEN_2022_PROGRAM }
    } else {
        Pubkey { bytes: SPL_TOKEN_PROGRAM }
    }
}

/// The token program that moves a mint owned by `owner`.
pub fn token_program_for_mint(owner: &Pubkey) -> (program: Pubkey)
    ensures
        program == token_program_of(*owner),
{
    let extended: Pubkey = Pubkey::new_from_array(TOKEN_2022_PROGRAM);
    if *owner == extended {
        extended
    } else {
        Pubkey::new_from_array(SPL_TOKEN_PROGRAM)
    }
}

/// The fee on a transfer of `amount`, given the fees of the mint.
pub open spec fn fee_given(fees: Option<TransferFees>, amount: u64, epoch: u64) -> Result<
    u64,
    Seq<char>,
> {
    match fees {
        None => Ok(0),
        Some(fees) => match fees.in_epoch(epoch).on(amount) {
            Some(fee) => Ok(fee),
            None => Err("transfer fee overflow"@),
        },
    }
}

/// The fee on a transfer of `amount`, given the fees of the mint: nothing where
/// it has none.
pub fn transfer_fee_given(fees: Option<TransferFees>, amount: u64, epoch: u64) -> (r: Result<
    u64,
    AmmError,
>)
    ensures
        amm_outcome(r) == fee_given(fees, amount, epoch),
{
    match fees {
        None => Ok(0),
        Some(fees) => match epoch_fee(&fees, epoch, amount) {
            Some(fee) => Ok(fee),
            None => Err(amm_error("transfer fee overflow")),
        },
    }
}

/// The fees that a mint's bytes hold.
pub open spec fn fees_in(mint_data: Seq<u8>) -> Option<TransferFees> {
    match mint_fees(mint_data) {
        Some((older, newer)) => Some(
            TransferFees {
                older: TransferFee {
                    epoch: older.0,
                    maximum_fee: older.1,
                    transfer_fee_basis_points: older.2,
                },
                newer: TransferFee {
                    epoch: newer.0,
                    maximum_fee: newer.1,
                    transfer_fee_basis_points: newer.2,
                },
            },
        ),
        None => None,
    }
}

/// The fee that a transfer of `amount` costs: only the token program with
/// extensions charges any, and only on a mint whose bytes are at hand.
pub open spec fn fee_outcome(
    mint_data: Seq<u8>,
    token_program: Pubkey,
    amount: u64,
    epoch: u64,
) -> Result<u64, Seq<char>> {
    if token_program.bytes != TOKEN_2022_PROGRAM || mint_data.len() == 0 {
        Ok(0)
    } else {
        match mint_refusal(mint_data) {
            Some(text) => Err("mint unpack: "@ + text),
            None => fee_given(fees_in(mint_data), amount, epoch),
        }
    }
}

/// The fee that a transfer of `amount` costs.
pub fn transfer_fee_atoms(mint_data: &[u8], token_program: &Pubkey, amount: u64, epoch: u64) -> (r:
    Result<u64, AmmError>)
    ensures
        amm_outcome(r) == fee_outcome(mint_data@, *token_program, amount, epoch),
{
    let extended: Pubkey = Pubkey::new_from_array(TOKEN_2022_PROGRAM);
    if *token_program != extended || mint_data.len() == 0 {
        return Ok(0);
    }
    match unpack_mint(mint_data) {
        Ok(_) => transfer_fee_given(transfer_fee_extension(mint_data), amount, epoch),
        Err(text) => Err(amm_error_because("mint unpack: ", text.as_str())),
    }
}

} // verus!
