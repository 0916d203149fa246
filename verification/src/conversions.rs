//! Lots of one token in lots of the other, told by products alone: what a number
//! of lots must satisfy, and where there is one.

use vstd::prelude::*;
use vstd::arithmetic::power::{lemma_pow_positive, pow};

use crate::lots::{base_lots_for, pro_rata, quote_lots_for};
use crate::state::{MakerLevel, MarketStateHeader};
use crate::trades::base_unit;

verus! {

/// The exact value of base lots at a price, in quote atoms times the atoms of a
/// base unit.
pub open spec fn value(header: MarketStateHeader, base_lots: u64, price: u64) -> int {
    base_lots * header.base_atoms_per_base_lot * price
        * header.tick_size_in_quote_atoms_per_base_unit
}

/// A value is in no way negative.
proof fn lemma_value(header: MarketStateHeader, base_lots: u64, price: u64)
    ensures
        value(header, base_lots, price) >= 0,
        base_unit(header) >= 0,
{
    let v = value(header, base_lots, price);
    assert(v >= 0) by (nonlinear_arith)
        requires
            v == base_lots * header.base_atoms_per_base_lot * price
                * header.tick_size_in_quote_atoms_per_base_unit,
    ;
    lemma_pow_positive(10, header.base_decimals as nat);
    let u = base_unit(header);
    assert(u >= 0) by (nonlinear_arith)
        requires
            u == pow(10, header.base_decimals as nat) * header.raw_base_units_per_base_unit,
            pow(10, header.base_decimals as nat) > 0,
    ;
}

/// Base lots are worth their value in whole quote atoms, in quote lots: a broken lot
/// counts in full where they are rounded up, and not at all where they are not.
/// They have a worth exactly where every product fits in `u128` and the atoms in
/// `u64`, and neither a base unit nor a quote lot is empty.
pub proof fn law_worth_of_base_lots(
    header: MarketStateHeader,
    base_lots: u64,
    price: u64,
    ceiling: bool,
    atoms: int,
)
    requires
        base_unit(header) > 0 ==> atoms * base_unit(header) <= value(header, base_lots, price) < (
        atoms + 1) * base_unit(header),
    ensures
        ({
            let lot = header.quote_atoms_per_quote_lot as int;
            let r = quote_lots_for(header, base_lots, price, ceiling);
            &&& r is Ok <==> {
                &&& lot > 0
                &&& base_unit(header) > 0
                &&& pow(10, header.base_decimals as nat) <= u128::MAX
                &&& base_unit(header) <= u128::MAX
                &&& base_lots * header.base_atoms_per_base_lot * price <= u128::MAX
                &&& value(header, base_lots, price) <= u128::MAX
                &&& atoms <= u64::MAX
            }
            &&& r matches Ok(lots) ==> if ceiling {
                (lots - 1) * lot < atoms <= lots * lot
            } else {
                lots * lot <= atoms < (lots + 1) * lot
            }
        }),
{
    lemma_value(header, base_lots, price);
    let lot = header.quote_atoms_per_quote_lot as int;
    let unit = base_unit(header);
    let v = value(header, base_lots, price);
    if unit > 0 {
        assert(atoms == v / unit && atoms >= 0) by (nonlinear_arith)
            requires
                atoms * unit <= v < (atoms + 1) * unit,
                v >= 0,
                unit > 0,
        ;
        if lot > 0 {
            let up = (atoms + lot - 1) / lot;
            let down = atoms / lot;
            assert((up - 1) * lot < atoms <= up * lot && 0 <= up <= atoms) by (nonlinear_arith)
                requires
                    up == (atoms + lot - 1) / lot,
                    atoms >= 0,
                    lot >= 1,
            ;
            assert(down * lot <= atoms < (down + 1) * lot && 0 <= down <= atoms)
                by (nonlinear_arith)
                requires
                    down == atoms / lot,
                    atoms >= 0,
                    lot >= 1,
            ;
        }
    }
}

/// A budget buys as many base lots at a price as their exact value goes into it,
/// and one more where that is rounded up and something is left over. It buys a
/// number exactly where the products fit in `u128` and the lots in `u64`, and a base
/// lot costs anything.
pub proof fn law_base_lots_for_a_budget(
    header: MarketStateHeader,
    quote_lots: u64,
    price: u64,
    round_up: bool,
    lots: int,
)
    requires
        ({
            let budget = quote_lots * header.quote_atoms_per_quote_lot * base_unit(header);
            let cost = price * header.tick_size_in_quote_atoms_per_base_unit
                * header.base_atoms_per_base_lot;
            cost > 0 ==> if round_up {
                (lots - 1) * cost < budget <= lots * cost
            } else {
                lots * cost <= budget < (lots + 1) * cost
            }
        }),
    ensures
        ({
            let budget = quote_lots * header.quote_atoms_per_quote_lot * base_unit(header);
            let cost = price * header.tick_size_in_quote_atoms_per_base_unit
                * header.base_atoms_per_base_lot;
            let r = base_lots_for(header, quote_lots, price, round_up);
            &&& r is Ok <==> {
                &&& cost > 0
                &&& pow(10, header.base_decimals as nat) <= u128::MAX
                &&& base_unit(header) <= u128::MAX
                &&& budget <= u128::MAX
                &&& cost <= u128::MAX
                &&& round_up ==> budget + cost - 1 <= u128::MAX
                &&& lots <= u64::MAX
            }
            &&& r matches Ok(given) ==> given == lots
        }),
{
    lemma_value(header, 0, 0);
    let budget = quote_lots * header.quote_atoms_per_quote_lot * base_unit(header);
    let cost = price * header.tick_size_in_quote_atoms_per_base_unit
        * header.base_atoms_per_base_lot;
    let unit = base_unit(header);
    assert(budget >= 0) by (nonlinear_arith)
        requires
            budget == quote_lots * header.quote_atoms_per_quote_lot * unit,
            unit >= 0,
    ;
    assert(cost >= 0) by (nonlinear_arith)
        requires
            cost == price * header.tick_size_in_quote_atoms_per_base_unit
                * header.base_atoms_per_base_lot,
    ;
    if cost > 0 {
        if round_up {
            assert(lots == (budget + cost - 1) / cost && lots >= 0) by (nonlinear_arith)
                requires
                    (lots - 1) * cost < budget <= lots * cost,
                    budget >= 0,
                    cost > 0,
            ;
        } else {
            assert(lots == budget / cost && lots >= 0) by (nonlinear_arith)
                requires
                    lots * cost <= budget < (lots + 1) * cost,
                    budget >= 0,
                    cost > 0,
            ;
        }
    }
}

/// A part of the whole is its share of it rounded down; there is none of no shares.
pub proof fn law_part_is_its_share(whole: u64, share: u64, shares: u64)
    requires
        share <= shares,
    ensures
        pro_rata(whole, share, shares) is Ok <==> shares > 0,
        pro_rata(whole, share, shares) matches Ok(part) ==> part * shares <= whole * share < (part
            + 1) * shares,
{
    if shares > 0 {
        let part = (whole * share) / (shares as int);
        assert(0 <= part <= whole && part * shares <= whole * share < (part + 1) * shares)
            by (nonlinear_arith)
            requires
                part == (whole * share) / (shares as int),
                0 <= share <= shares,
                shares > 0,
                whole >= 0,
        ;
    }
}

/// A header counts the atoms of a base unit exactly where ten to the decimals and
/// the unit both fit in `u128`, and values lots in whole quote atoms, rounded down,
/// exactly where the products fit in it too, the unit is not empty and the value
/// fits in `u64`.
pub proof fn law_header_counts_atoms(
    header: MarketStateHeader,
    base_lots: u64,
    price: u64,
    atoms: int,
)
    requires
        base_unit(header) > 0 ==> atoms * base_unit(header) <= value(header, base_lots, price) < (
        atoms + 1) * base_unit(header),
    ensures
        ({
            let unit = header.unit_atoms_outcome();
            let fits = pow(10, header.base_decimals as nat) <= u128::MAX && base_unit(header)
                <= u128::MAX;
            let valued = header.quote_atoms_outcome(base_lots, price);
            &&& unit is Ok <==> fits
            &&& unit matches Ok(given) ==> given == base_unit(header)
            &&& valued is Ok <==> {
                &&& fits
                &&& base_unit(header) > 0
                &&& base_lots * header.base_atoms_per_base_lot * price <= u128::MAX
                &&& value(header, base_lots, price) <= u128::MAX
                &&& atoms <= u64::MAX
            }
            &&& valued matches Ok(given) ==> given == atoms
        }),
{
    lemma_value(header, base_lots, price);
    let unit = base_unit(header);
    let v = value(header, base_lots, price);
    if unit > 0 {
        assert(atoms == v / unit && atoms >= 0) by (nonlinear_arith)
            requires
                atoms * unit <= v < (atoms + 1) * unit,
                v >= 0,
                unit > 0,
        ;
    }
}

/// A level's price is the mid price and the offset together, in 64 bits with a sign:
/// a mid price beyond the signed range counts from below zero. Only a positive sum
/// is a price.
pub proof fn law_level_is_priced_off_the_mid(level: MakerLevel, mid: u64)
    ensures
        ({
            let offset = level.price_offset_ticks as int;
            let sum = if mid < 0x8000_0000_0000_0000 {
                mid + offset
            } else {
                mid + offset - 0x1_0000_0000_0000_0000
            };
            &&& level.price_at(mid) is Some <==> 0 < sum < 0x8000_0000_0000_0000
            &&& level.price_at(mid) matches Some(price) ==> price == sum
        }),
{
}

/// A synchronous fill pays the taker fee as often as the multiplier says where the
/// market is of mode two, and once otherwise or where it says nothing; there is no
/// such fee exactly where it leaves `i32`.
pub proof fn law_sync_fee_is_a_multiple(header: MarketStateHeader)
    ensures
        ({
            let times = if header.mode == 2 && header.sync_fee_multiplier > 1 {
                header.sync_fee_multiplier as int
            } else {
                1
            };
            let fee = header.taker_fee_ppm * times;
            &&& header.sync_fee_outcome() is Ok <==> i32::MIN <= fee <= i32::MAX
            &&& header.sync_fee_outcome() matches Ok(given) ==> given == fee
            &&& header.mode == 2 ==> header.sync_multiplier() == times
        }),
{
}

} // verus!
