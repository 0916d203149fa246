//! Lot arithmetic: what lots of one token are in lots of the other, a maker's
//! share of a fill, and the taker's fee.

use vstd::prelude::*;

use crate::error::{ArcherAmmError, ErrorModel, math, math_error, outcome};
use crate::sdk;
use crate::state::{MarketStateHeader, PPM_DIVISOR, lemma_u64_product_fits};

verus! {

/// `n / d` rounded up.
pub open spec fn ceil_div(n: int, d: int) -> int {
    (n + d - 1) / d
}

/// The quote lots that `base_lots` are worth at `price_ticks`: the value in
/// whole quote atoms, in lots rounded up or down. Or why there are none.
pub open spec fn quote_lots_for(
    header: MarketStateHeader,
    base_lots: u64,
    price_ticks: u64,
    ceiling: bool,
) -> Result<u64, ErrorModel> {
    let atoms = header.cost_numerator(base_lots as int, price_ticks as int) / header.unit_atoms();
    let per_lot = header.quote_atoms_per_quote_lot as int;
    if !sdk::priceable(header, base_lots, price_ticks) {
        math("ArithmeticOverflow")
    } else if per_lot == 0 {
        math("quote_atoms_per_lot is 0")
    } else if ceiling {
        Ok(ceil_div(atoms, per_lot) as u64)
    } else {
        Ok((atoms / per_lot) as u64)
    }
}

/// The quote lots that `base_lots` are worth at `price_ticks`.
pub fn base_to_quote_lots(
    market: &MarketStateHeader,
    base_lots: u64,
    price_ticks: u64,
    ceiling: bool,
) -> (r: Result<u64, ArcherAmmError>)
    ensures
        outcome(r) == quote_lots_for(*market, base_lots, price_ticks, ceiling),
{
    let quote_atoms: u64 = match sdk::quote_atoms(market, base_lots, price_ticks) {
        Ok(atoms) => atoms,
        Err(text) => {
            return Err(math_error(text.as_str()));
        },
    };
    let quote_atoms_u128: u128 = quote_atoms as u128;
    let quote_atoms_per_lot: u128 = market.quote_atoms_per_quote_lot as u128;

    if quote_atoms_per_lot == 0 {
        return Err(math_error("quote_atoms_per_lot is 0"));
    }
    proof {
        let a = quote_atoms as int;
        let d = quote_atoms_per_lot as int;
        assert(a / d <= a && (a + d - 1) / d <= a) by (nonlinear_arith)
            requires
                a >= 0,
                d >= 1,
        ;
    }
    let quote_lots: u128 = if ceiling {
        (quote_atoms_u128 + (quote_atoms_per_lot - 1)) / quote_atoms_per_lot
    } else {
        quote_atoms_u128 / quote_atoms_per_lot
    };
    Ok(quote_lots as u64)
}

/// The base lots that `quote_lots` buy at `price_ticks`, rounded up or down, or
/// why there are none.
pub open spec fn base_lots_for(
    header: MarketStateHeader,
    quote_lots: u64,
    price_ticks: u64,
    round_up: bool,
) -> Result<u64, ErrorModel> {
    let numerator = quote_lots * header.quote_atoms_per_quote_lot * header.unit_atoms();
    let denominator = price_ticks * header.tick_size_in_quote_atoms_per_base_unit
        * header.base_atoms_per_base_lot;
    if header.decimal_power() > u128::MAX || header.unit_atoms() > u128::MAX {
        math("ArithmeticOverflow")
    } else if numerator > u128::MAX || denominator > u128::MAX {
        math("overflow")
    } else if denominator == 0 {
        math("denominator is 0")
    } else if round_up && numerator + denominator - 1 > u128::MAX {
        math("ceiling overflow")
    } else {
        let lots = if round_up {
            ceil_div(numerator, denominator)
        } else {
            numerator / denominator
        };
        if lots > u64::MAX {
            math("base lots overflow u64")
        } else {
            Ok(lots as u64)
        }
    }
}

/// The base lots that `quote_lots` buy at `price_ticks`.
pub fn quote_to_base_lots(
    market: &MarketStateHeader,
    quote_lots: u64,
    price_ticks: u64,
    round_up: bool,
) -> (r: Result<u64, ArcherAmmError>)
    ensures
        outcome(r) == base_lots_for(*market, quote_lots, price_ticks, round_up),
{
    let base_atoms_per_base_unit: u128 = match sdk::unit_atoms(market) {
        Ok(atoms) => atoms,
        Err(text) => {
            return Err(math_error(text.as_str()));
        },
    };
    proof {
        lemma_u64_product_fits(quote_lots, market.quote_atoms_per_quote_lot);
        lemma_u64_product_fits(price_ticks, market.tick_size_in_quote_atoms_per_base_unit);
    }
    let quote_atoms: u128 = quote_lots as u128 * market.quote_atoms_per_quote_lot as u128;
    let numerator: u128 = match quote_atoms.checked_mul(base_atoms_per_base_unit) {
        Some(v) => v,
        None => {
            return Err(math_error("overflow"));
        },
    };
    let tick_size: u128 = market.tick_size_in_quote_atoms_per_base_unit as u128;
    let base_atoms_per_lot: u128 = market.base_atoms_per_base_lot as u128;
    let denominator: u128 = match (price_ticks as u128 * tick_size).checked_mul(base_atoms_per_lot) {
        Some(v) => v,
        None => {
            return Err(math_error("overflow"));
        },
    };
    if denominator == 0 {
        return Err(math_error("denominator is 0"));
    }
    let base_lots: u128 = if round_up {
        match numerator.checked_add(denominator - 1) {
            Some(v) => v / denominator,
            None => {
                return Err(math_error("ceiling overflow"));
            },
        }
    } else {
        numerator / denominator
    };
    if base_lots > u64::MAX as u128 {
        return Err(math_error("base lots overflow u64"));
    }
    Ok(base_lots as u64)
}

/// The part of `total` that falls to `share` out of `total_shares`, rounded
/// down. Kept to its low 64 bits, which is all of it where the share is no more
/// than the shares.
pub open spec fn pro_rata(total: u64, share: u64, total_shares: u64) -> Result<u64, ErrorModel> {
    if total_shares == 0 {
        math("pro-rata div zero")
    } else {
        Ok((((total * share) / (total_shares as int)) % 0x1_0000_0000_0000_0000) as u64)
    }
}

/// The part of `total` that falls to `share` out of `total_shares`.
pub fn calculate_pro_rata(total: u64, share: u64, total_shares: u64) -> (r: Result<
    u64,
    ArcherAmmError,
>)
    ensures
        outcome(r) == pro_rata(total, share, total_shares),
{
    if total_shares == 0 {
        return Err(math_error("pro-rata div zero"));
    }
    proof {
        lemma_u64_product_fits(total, share);
    }
    let result: u128 = (total as u128 * share as u128) / total_shares as u128;
    assert(#[verifier::truncate] (result as u64) == result % 0x1_0000_0000_0000_0000)
        by (bit_vector);
    Ok(#[verifier::truncate] (result as u64))
}

/// The taker's fee on `quote_lots`: a fee is rounded up, a rebate (a negative
/// fee) is rounded towards zero.
pub open spec fn fee_lots(quote_lots: int, fee_ppm: int) -> int {
    let raw = quote_lots * fee_ppm;
    if raw > 0 {
        ceil_div(raw, PPM_DIVISOR as int)
    } else {
        -((-raw) / (PPM_DIVISOR as int))
    }
}

/// [`fee_lots`], where it fits in `i64`.
pub open spec fn fee_outcome(quote_lots: u64, fee_ppm: i32) -> Result<i64, ErrorModel> {
    let fee = fee_lots(quote_lots as int, fee_ppm as int);
    if i64::MIN <= fee <= i64::MAX {
        Ok(fee as i64)
    } else {
        math("fee overflow i64")
    }
}

/// The taker's fee on `quote_lots`.
pub fn calculate_fee(quote_lots: u64, fee_ppm: i32) -> (r: Result<i64, ArcherAmmError>)
    ensures
        outcome(r) == fee_outcome(quote_lots, fee_ppm),
{
    let divisor: i128 = PPM_DIVISOR as i128;
    proof {
        assert(-0x1_0000_0000_0000_0000 * 0x8000_0000 <= quote_lots * fee_ppm
            <= 0x1_0000_0000_0000_0000 * 0x8000_0000) by (nonlinear_arith)
            requires
                0 <= quote_lots <= 0xffff_ffff_ffff_ffff,
                -0x8000_0000 <= fee_ppm <= 0x7fff_ffff,
        ;
    }
    let fee_raw: i128 = quote_lots as i128 * fee_ppm as i128;
    let fee: i128 = if fee_raw > 0 {
        (fee_raw + (divisor - 1)) / divisor
    } else {
        -((-fee_raw) / divisor)
    };
    if fee < i64::MIN as i128 || fee > i64::MAX as i128 {
        return Err(math_error("fee overflow i64"));
    }
    Ok(fee as i64)
}

} // verus!
