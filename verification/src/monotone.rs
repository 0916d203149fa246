//! Swapping more never gives less, on every market on which a base lot costs a
//! whole number of quote lots.

use vstd::prelude::*;

use crate::amm::{ArcherAmm, gross_outcome, input_lot, spendable, whole_lots};
use crate::error::ErrorModel;
use crate::fills::{
    distribution, law_distribution, lemma_total_nonnegative, pass, share_of, smaller, total,
};
use crate::ladder::{
    AggregatedLevel, at_price, best_price, lemma_at_price_members, lemma_best_price, off_price,
    sizes,
};
use crate::laws::{law_fee_rounding, law_price_is_exhausted, traded};
use crate::lots::{base_lots_for, ceil_div, fee_lots, quote_lots_for};
use crate::matching::{
    advanced, affordable, ladder_walked, lemma_walk_spends, price_cleared, worth,
};
use crate::pubkey::Pubkey;
use crate::quote::{grossed_down, liquidity, quote_outcome};
use crate::router::{Clock, QuoteParams};
use crate::state::{MakerBook, MarketStateHeader};
use crate::token::{TransferFee, fee_outcome, fees_in};

verus! {

/// Whether a base lot costs a whole number of quote lots at every price, as it
/// does on every market that the on-chain program lets anyone create.
pub open spec fn even_lots(header: MarketStateHeader) -> bool {
    &&& header.unit_atoms() > 0
    &&& header.quote_atoms_per_quote_lot > 0
    &&& (header.base_atoms_per_base_lot * header.tick_size_in_quote_atoms_per_base_unit) % (
    header.unit_atoms() * header.quote_atoms_per_quote_lot) == 0
}

/// The quote lots that a base lot costs per tick of price, on a market with
/// even lots.
pub open spec fn lot_cost_per_tick(header: MarketStateHeader) -> int {
    (header.base_atoms_per_base_lot * header.tick_size_in_quote_atoms_per_base_unit) / (
    header.unit_atoms() * header.quote_atoms_per_quote_lot)
}

/// The quote lots that a base lot costs at a price, on a market with even lots.
pub open spec fn lot_cost(header: MarketStateHeader, price: u64) -> int {
    price * lot_cost_per_tick(header)
}

/// The parts of a market's price fraction, on a market with even lots.
proof fn lemma_even_lots(header: MarketStateHeader)
    requires
        even_lots(header),
    ensures
        lot_cost_per_tick(header) >= 0,
        header.base_atoms_per_base_lot * header.tick_size_in_quote_atoms_per_base_unit
            == lot_cost_per_tick(header) * (header.unit_atoms() * header.quote_atoms_per_quote_lot),
{
    let n = header.base_atoms_per_base_lot * header.tick_size_in_quote_atoms_per_base_unit;
    let d = header.unit_atoms() * header.quote_atoms_per_quote_lot;
    assert(d > 0) by (nonlinear_arith)
        requires
            d == header.unit_atoms() * header.quote_atoms_per_quote_lot,
            header.unit_atoms() > 0,
            header.quote_atoms_per_quote_lot > 0,
    ;
    assert(n >= 0) by (nonlinear_arith)
        requires
            n == header.base_atoms_per_base_lot * header.tick_size_in_quote_atoms_per_base_unit,
    ;
    assert(n == (n / d) * d && n / d >= 0) by (nonlinear_arith)
        requires
            n >= 0,
            d > 0,
            n % d == 0,
    ;
}

/// On a market with even lots a fill costs exactly its lots times the cost of
/// one, whichever way it is rounded.
pub proof fn law_even_cost(header: MarketStateHeader, base_lots: u64, price: u64, ceiling: bool)
    requires
        even_lots(header),
    ensures
        quote_lots_for(header, base_lots, price, ceiling) matches Ok(v) ==> v == base_lots
            * lot_cost(header, price),
{
    lemma_even_lots(header);
    let bapl = header.base_atoms_per_base_lot as int;
    let tick = header.tick_size_in_quote_atoms_per_base_unit as int;
    let unit = header.unit_atoms();
    let qapl = header.quote_atoms_per_quote_lot as int;
    let k = lot_cost_per_tick(header);
    let b = base_lots as int;
    let p = price as int;
    let v = b * (p * k);
    assert(b * bapl * p * tick == (b * p) * (bapl * tick)) by (nonlinear_arith);
    assert((b * p) * (k * (unit * qapl)) == ((b * (p * k)) * qapl) * unit) by (nonlinear_arith);
    assert(v >= 0) by (nonlinear_arith)
        requires
            v == b * (p * k),
            b >= 0,
            p >= 0,
            k >= 0,
    ;
    assert(((v * qapl) * unit) / unit == v * qapl) by (nonlinear_arith)
        requires
            unit > 0,
    ;
    assert((v * qapl) / qapl == v && ((v * qapl) + qapl - 1) / qapl == v) by (nonlinear_arith)
        requires
            qapl > 0,
    ;
}

/// On a market with even lots a budget buys as many lots as their cost goes
/// into it.
pub proof fn law_even_budget(header: MarketStateHeader, quote_lots: u64, price: u64)
    requires
        even_lots(header),
    ensures
        base_lots_for(header, quote_lots, price, false) matches Ok(n) ==> {
            let cost = lot_cost(header, price);
            &&& cost > 0
            &&& n * cost <= quote_lots < (n + 1) * cost
            &&& n == 0 <==> quote_lots < cost
        },
{
    lemma_even_lots(header);
    let bapl = header.base_atoms_per_base_lot as int;
    let tick = header.tick_size_in_quote_atoms_per_base_unit as int;
    let unit = header.unit_atoms();
    let qapl = header.quote_atoms_per_quote_lot as int;
    let k = lot_cost_per_tick(header);
    let q = quote_lots as int;
    let p = price as int;
    let cost = p * k;
    let g = qapl * unit;
    assert(g > 0) by (nonlinear_arith)
        requires
            g == qapl * unit,
            qapl > 0,
            unit > 0,
    ;
    assert(q * qapl * unit == q * g) by (nonlinear_arith)
        requires
            g == qapl * unit,
    ;
    assert(p * tick * bapl == p * (bapl * tick)) by (nonlinear_arith);
    assert(p * (k * (unit * qapl)) == (p * k) * (qapl * unit)) by (nonlinear_arith);
    if cost * g != 0 {
        assert(cost > 0) by (nonlinear_arith)
            requires
                cost == p * k,
                p >= 0,
                k >= 0,
                cost * g != 0,
        ;
        let n = (q * g) / (cost * g);
        let d = cost * g;
        assert(d > 0) by (nonlinear_arith)
            requires
                d == cost * g,
                cost > 0,
                g > 0,
        ;
        assert(n * d <= q * g < (n + 1) * d) by (nonlinear_arith)
            requires
                n == (q * g) / d,
                d > 0,
        ;
        assert(n * cost <= q < (n + 1) * cost) by (nonlinear_arith)
            requires
                n * d <= q * g < (n + 1) * d,
                d == cost * g,
                g > 0,
        ;
        assert(n == 0 <==> q < cost) by (nonlinear_arith)
            requires
                n * cost <= q < (n + 1) * cost,
                cost > 0,
                q >= 0,
        ;
    }
}

/// On a market with even lots, the lots that a fill costs buy exactly that fill
/// again at the same price.
pub proof fn law_conversion_round_trip(header: MarketStateHeader, base_lots: u64, price: u64, ceiling: bool)
    requires
        even_lots(header),
    ensures
        quote_lots_for(header, base_lots, price, ceiling) matches Ok(v) ==> (base_lots_for(
            header,
            v,
            price,
            false,
        ) matches Ok(n) ==> n == base_lots),
{
    law_even_cost(header, base_lots, price, ceiling);
    match quote_lots_for(header, base_lots, price, ceiling) {
        Ok(v) => {
            law_even_budget(header, v, price);
            match base_lots_for(header, v, price, false) {
                Ok(n) => {
                    let cost = lot_cost(header, price);
                    assert(n == base_lots) by (nonlinear_arith)
                        requires
                            n * cost <= base_lots * cost < (n + 1) * cost,
                            cost > 0,
                    ;
                },
                Err(e) => {},
            }
        },
        Err(e) => {},
    }
}

/// Where every share is worth `cost` quote lots for each of its base lots, so
/// is the whole pass.
proof fn lemma_pass_even(
    s: Seq<u64>,
    given: u64,
    quoted: u64,
    fill: u64,
    all: u64,
    quote: spec_fn(u64) -> Result<u64, ErrorModel>,
    cost: int,
)
    requires
        forall|share: u64| #[trigger] quote(share) matches Ok(v) ==> v == share * cost,
    ensures
        pass(s, given, quoted, fill, all, quote).result matches Ok((base, worth)) ==> worth - quoted
            == (base - given) * cost,
    decreases s.len(),
{
    if s.len() == 0 {
        assert((given - given) * cost == 0) by (nonlinear_arith);
    } else {
        let first = s.first();
        let rest = s.drop_first();
        let dealt = if first == 0 {
            0u64
        } else {
            match share_of(first, rest, given, fill, all) {
                Ok(share) => share,
                Err(e) => 0u64,
            }
        };
        if dealt == 0 {
            lemma_pass_even(rest, given, quoted, fill, all, quote, cost);
        } else {
            match quote(dealt) {
                Ok(v) => {
                    if given + dealt <= u64::MAX && quoted + v <= u64::MAX {
                        lemma_pass_even(
                            rest,
                            (given + dealt) as u64,
                            (quoted + v) as u64,
                            fill,
                            all,
                            quote,
                            cost,
                        );
                        match pass(
                            rest,
                            (given + dealt) as u64,
                            (quoted + v) as u64,
                            fill,
                            all,
                            quote,
                        ).result {
                            Ok((base, worth)) => {
                                assert(worth - quoted == (base - given) * cost) by (nonlinear_arith)
                                    requires
                                        worth - (quoted + v) == (base - (given + dealt)) * cost,
                                        v == dealt * cost,
                                ;
                            },
                            Err(e) => {},
                        }
                    }
                },
                Err(e) => {},
            }
        }
    }
}

/// On a market with even lots, what a taker pays or gets at a price is exactly
/// the traded lots times the cost of one.
pub proof fn law_even_price(
    header: MarketStateHeader,
    is_buy: bool,
    price: u64,
    s: Seq<u64>,
    remaining: u64,
    gained: u64,
)
    requires
        even_lots(header),
    ensures
        price_cleared(header, is_buy, price, s, remaining, gained) matches Ok(after) ==> (if is_buy {
            remaining - after.remaining
        } else {
            after.gained - gained
        }) == traded(is_buy, remaining, gained, after) * lot_cost(header, price),
    decreases total(s),
{
    let cost = lot_cost(header, price);
    lemma_total_nonnegative(s);
    assert(0int * cost == 0) by (nonlinear_arith);
    if 0 < total(s) <= u64::MAX {
        match affordable(header, is_buy, price, remaining) {
            Ok(limit) => {
                let all = total(s) as u64;
                let fill = smaller(limit as int, all as int) as u64;
                let d = distribution(s, fill, all, worth(header, is_buy, price));
                lemma_total_nonnegative(d.sizes);
                if fill > 0 {
                    law_distribution(s, fill, worth(header, is_buy, price));
                    let quote = worth(header, is_buy, price);
                    assert forall|share: u64|
                        (#[trigger] quote(share) matches Ok(v) ==> v == share * cost) by {
                        law_even_cost(header, share, price, is_buy);
                    }
                    lemma_pass_even(s, 0, 0, fill, all, worth(header, is_buy, price), cost);
                    match d.result {
                        Ok((base, quote)) => match advanced(
                            is_buy,
                            remaining,
                            gained,
                            base,
                            quote,
                        ) {
                            Ok(p) => {
                                law_even_price(
                                    header,
                                    is_buy,
                                    price,
                                    d.sizes,
                                    p.remaining,
                                    p.gained,
                                );
                                match price_cleared(
                                    header,
                                    is_buy,
                                    price,
                                    d.sizes,
                                    p.remaining,
                                    p.gained,
                                ) {
                                    Ok(after) => {
                                        let later = traded(
                                            is_buy,
                                            p.remaining,
                                            p.gained,
                                            after,
                                        );
                                        assert(base * cost + later * cost == (base + later) * cost)
                                            by (nonlinear_arith);
                                    },
                                    Err(e) => {},
                                }
                            },
                            Err(e) => {},
                        },
                        Err(e) => {},
                    }
                }
            },
            Err(e) => {},
        }
    }
}

/// On a market with even lots, a taker trades at a price all that is there, or
/// all that the budget buys at it, whichever is less: how the makers there share
/// the fill makes no difference to the taker.
pub proof fn law_even_price_fills_what_it_can(
    header: MarketStateHeader,
    is_buy: bool,
    price: u64,
    s: Seq<u64>,
    remaining: u64,
    gained: u64,
)
    requires
        even_lots(header),
    ensures
        price_cleared(header, is_buy, price, s, remaining, gained) matches Ok(after) ==> (affordable(
            header,
            is_buy,
            price,
            remaining,
        ) matches Ok(limit) ==> traded(is_buy, remaining, gained, after) == smaller(
            total(s),
            limit as int,
        )),
{
    law_price_is_exhausted(header, is_buy, price, s, remaining, gained);
    law_even_price(header, is_buy, price, s, remaining, gained);
    match (
        price_cleared(header, is_buy, price, s, remaining, gained),
        affordable(header, is_buy, price, remaining),
    ) {
        (Ok(after), Ok(limit)) => {
            if is_buy {
                let t = traded(is_buy, remaining, gained, after);
                let cost = lot_cost(header, price);
                law_even_budget(header, remaining, price);
                law_even_budget(header, after.remaining, price);
                if after.done {
                    assert(t == limit) by (nonlinear_arith)
                        requires
                            limit * cost <= remaining < (limit + 1) * cost,
                            after.remaining == remaining - t * cost,
                            0 <= after.remaining < cost,
                    ;
                } else {
                    assert(t <= limit) by (nonlinear_arith)
                        requires
                            remaining < (limit + 1) * cost,
                            after.remaining == remaining - t * cost,
                            0 <= after.remaining,
                            cost > 0,
                    ;
                }
            }
        },
        _ => {},
    }
}

/// On a market with even lots, a taker with more to spend gains no less on the
/// same ladder.
pub proof fn law_walk_is_monotone(
    header: MarketStateHeader,
    is_buy: bool,
    levels: Seq<AggregatedLevel>,
    less: u64,
    more: u64,
    gained_less: u64,
    gained_more: u64,
)
    requires
        even_lots(header),
        less <= more,
    ensures
        ladder_walked(header, is_buy, levels, less, gained_less) matches Ok(a) ==> (ladder_walked(
            header,
            is_buy,
            levels,
            more,
            gained_more,
        ) matches Ok(b) ==> a.gained - gained_less <= b.gained - gained_more),
    decreases levels.len(),
{
    lemma_walk_spends(header, is_buy, levels, more, gained_more);
    if levels.len() > 0 && less > 0 {
        let price = best_price(levels, !is_buy);
        let s = sizes(at_price(levels, price));
        let cost = lot_cost(header, price);
        lemma_best_price(levels, !is_buy);
        lemma_at_price_members(levels, price);
        law_price_is_exhausted(header, is_buy, price, s, less, gained_less);
        law_price_is_exhausted(header, is_buy, price, s, more, gained_more);
        law_even_price(header, is_buy, price, s, less, gained_less);
        law_even_price(header, is_buy, price, s, more, gained_more);
        match (
            price_cleared(header, is_buy, price, s, less, gained_less),
            price_cleared(header, is_buy, price, s, more, gained_more),
        ) {
            (Ok(a), Ok(b)) => {
                let t = traded(is_buy, less, gained_less, a);
                let u = traded(is_buy, more, gained_more, b);
                lemma_even_lots(header);
                assert(cost >= 0) by (nonlinear_arith)
                    requires
                        cost == price * lot_cost_per_tick(header),
                        lot_cost_per_tick(header) >= 0,
                ;
                if is_buy {
                    law_even_budget(header, a.remaining, price);
                    law_even_budget(header, b.remaining, price);
                }
                if a.done {
                    assert(t <= u) by {
                        if b.done && is_buy {
                            assert(t <= u) by (nonlinear_arith)
                                requires
                                    less <= more,
                                    a.remaining == less - t * cost,
                                    b.remaining == more - u * cost,
                                    0 <= a.remaining,
                                    b.remaining < cost,
                            ;
                        }
                    }
                    assert(t * cost <= u * cost) by (nonlinear_arith)
                        requires
                            t <= u,
                            cost >= 0,
                    ;
                    lemma_walk_spends(
                        header,
                        is_buy,
                        off_price(levels, price),
                        b.remaining,
                        b.gained,
                    );
                } else {
                    assert(!b.done) by {
                        if b.done && is_buy {
                            assert(t <= u) by (nonlinear_arith)
                                requires
                                    less <= more,
                                    a.remaining == less - t * cost,
                                    b.remaining == more - u * cost,
                                    0 <= a.remaining,
                                    b.remaining < cost,
                            ;
                        }
                    }
                    law_walk_is_monotone(
                        header,
                        is_buy,
                        off_price(levels, price),
                        a.remaining,
                        b.remaining,
                        a.gained,
                        b.gained,
                    );
                }
            },
            _ => {},
        }
    }
}

/// What the fee leaves of more matched lots is no less.
proof fn lemma_net_is_monotone(less: u64, more: u64, fee_ppm: i32)
    requires
        less <= more,
        more >= fee_lots(more as int, fee_ppm as int),
    ensures
        less - fee_lots(less as int, fee_ppm as int) <= more - fee_lots(
            more as int,
            fee_ppm as int,
        ),
{
    law_fee_rounding(less, fee_ppm);
    law_fee_rounding(more, fee_ppm);
    let f = fee_lots(less as int, fee_ppm as int);
    let g = fee_lots(more as int, fee_ppm as int);
    if fee_ppm > 1_000_000 {
        assert(more == 0) by (nonlinear_arith)
            requires
                more * fee_ppm <= g * 1_000_000,
                g <= more,
                fee_ppm > 1_000_000,
                more >= 0,
        ;
    } else {
        assert((more - less) * fee_ppm <= (more - less) * 1_000_000) by (nonlinear_arith)
            requires
                less <= more,
                fee_ppm <= 1_000_000,
        ;
        assert((more - less) * fee_ppm == more * fee_ppm - less * fee_ppm) by (nonlinear_arith);
        assert(g * 1_000_000 < more * fee_ppm + 1_000_000);
        assert(less * fee_ppm <= f * 1_000_000);
    }
}

/// On a market with even lots, a swap of more gives no less.
pub proof fn law_quote_is_monotone(
    less: u64,
    more: u64,
    is_buy: bool,
    header: MarketStateHeader,
    books: Seq<(Pubkey, MakerBook)>,
    slot: u64,
    taker: Option<&Pubkey>,
)
    requires
        even_lots(header),
        less <= more,
    ensures
        quote_outcome(less, is_buy, header, books, slot, taker) matches Ok(a) ==> (quote_outcome(
            more,
            is_buy,
            header,
            books,
            slot,
            taker,
        ) matches Ok(b) ==> a.out_amount <= b.out_amount),
{
    let levels = liquidity(books, !is_buy, slot, taker, header.maker_fee_ppm);
    let fee_ppm = header.taker_fee_ppm;
    if is_buy {
        let x = grossed_down(less, fee_ppm);
        let y = grossed_down(more, fee_ppm);
        assert(x <= y) by {
            if fee_ppm > 0 {
                let d = 1_000_000 + fee_ppm;
                assert(0 <= (less * 1_000_000) / d <= (more * 1_000_000) / d <= more)
                    by (nonlinear_arith)
                    requires
                        0 <= less <= more,
                        d > 1_000_000,
                ;
            }
        }
        law_walk_is_monotone(header, true, levels, x, y, 0, 0);
        match (
            ladder_walked(header, true, levels, x, 0),
            ladder_walked(header, true, levels, y, 0),
        ) {
            (Ok(a), Ok(b)) => {
                assert(a.gained * header.base_atoms_per_base_lot <= b.gained
                    * header.base_atoms_per_base_lot) by (nonlinear_arith)
                    requires
                        a.gained <= b.gained,
                        header.base_atoms_per_base_lot >= 0,
                ;
            },
            _ => {},
        }
    } else {
        law_walk_is_monotone(header, false, levels, less, more, 0, 0);
        match (
            ladder_walked(header, false, levels, less, 0),
            ladder_walked(header, false, levels, more, 0),
        ) {
            (Ok(a), Ok(b)) => {
                let f = fee_lots(a.gained as int, fee_ppm as int);
                let g = fee_lots(b.gained as int, fee_ppm as int);
                if b.gained >= g {
                    lemma_net_is_monotone(a.gained, b.gained, fee_ppm);
                    assert((a.gained - f) * header.quote_atoms_per_quote_lot <= (b.gained - g)
                        * header.quote_atoms_per_quote_lot) by (nonlinear_arith)
                        requires
                            a.gained - f <= b.gained - g,
                            header.quote_atoms_per_quote_lot >= 0,
                    ;
                }
            },
            _ => {},
        }
    }
}

/// What arrives of a larger transfer is no less.
proof fn lemma_arrival_is_monotone(fee: TransferFee, less: u64, more: u64)
    requires
        less <= more,
        fee.on(less) is Some,
        fee.on(more) is Some,
    ensures
        less - fee.on(less)->0 <= more - fee.on(more)->0 || less <= fee.on(less)->0,
{
    let bps = fee.transfer_fee_basis_points as int;
    if bps > 0 && less > 0 {
        let r = ceil_div(less * bps, 10_000);
        let q = ceil_div(more * bps, 10_000);
        if bps <= 10_000 {
            assert((more - less) * bps <= (more - less) * 10_000) by (nonlinear_arith)
                requires
                    less <= more,
                    bps <= 10_000,
            ;
            assert((more - less) * bps == more * bps - less * bps) by (nonlinear_arith);
        } else {
            assert(less * bps >= less * 10_000) by (nonlinear_arith)
                requires
                    bps > 10_000,
                    less > 0,
            ;
        }
    }
}

/// What arrives of a transfer, after the fee.
spec fn arrived(amount: u64, fee: u64) -> int {
    if fee >= amount {
        0
    } else {
        amount - fee
    }
}

/// What arrives of a larger transfer of the same token is no less.
proof fn lemma_token_arrival_is_monotone(
    mint_data: Seq<u8>,
    token_program: Pubkey,
    less: u64,
    more: u64,
    epoch: u64,
)
    requires
        less <= more,
    ensures
        fee_outcome(mint_data, token_program, less, epoch) matches Ok(a) ==> (fee_outcome(
            mint_data,
            token_program,
            more,
            epoch,
        ) matches Ok(b) ==> arrived(less, a) <= arrived(more, b)),
{
    match fees_in(mint_data) {
        Some(fees) => {
            let fee = fees.in_epoch(epoch);
            if fee.on(less) is Some && fee.on(more) is Some {
                lemma_arrival_is_monotone(fee, less, more);
            }
        },
        None => {},
    }
}

/// On a market with even lots, a quote for more of the same token gives no
/// less.
pub proof fn law_amm_quote_is_monotone(
    amm: ArcherAmm,
    less: QuoteParams,
    more: QuoteParams,
    clock: Clock,
)
    requires
        amm.market_header matches Some(h) ==> even_lots(h),
        less.input_mint == more.input_mint,
        less.amount <= more.amount,
    ensures
        amm.quoted(less, clock) matches Ok(a) ==> (amm.quoted(more, clock) matches Ok(b)
            ==> a.out_amount <= b.out_amount),
{
    if amm.quoted(less, clock) is Ok && amm.quoted(more, clock) is Ok {
        let header = amm.market_header->0;
        let is_buy = less.input_mint == header.quote_mint;
        let per_lot = input_lot(header, is_buy);
        let d = per_lot as int;
        let x = whole_lots(less.amount, per_lot);
        let y = whole_lots(more.amount, per_lot);
        assert(0 <= (less.amount as int / d) * d <= (more.amount as int / d) * d <= more.amount)
            by (nonlinear_arith)
            requires
                0 <= less.amount <= more.amount,
                d > 0,
        ;
        let data = if is_buy {
            amm.quote_mint_data@
        } else {
            amm.base_mint_data@
        };
        let program = if is_buy {
            amm.quote_token_program
        } else {
            amm.base_token_program
        };
        lemma_token_arrival_is_monotone(data, program, x, y, clock.epoch);
        let f = amm.transfer_fee(is_buy, x, clock.epoch)->Ok_0;
        let g = amm.transfer_fee(is_buy, y, clock.epoch)->Ok_0;
        let m = spendable(less.amount, per_lot, f);
        let n = spendable(more.amount, per_lot, g);
        assert(m <= n) by {
            let u = arrived(x, f);
            let v = arrived(y, g);
            assert(0 <= u / d <= v / d <= v && 0int / d == 0) by (nonlinear_arith)
                requires
                    0 <= u <= v,
                    d > 0,
            ;
        }
        law_quote_is_monotone(m, n, is_buy, header, amm.maker_books@, clock.slot, None);
        let a = gross_outcome(header, amm.maker_books@, less, clock.slot, f)->Ok_0;
        let b = gross_outcome(header, amm.maker_books@, more, clock.slot, g)->Ok_0;
        let out_data = if is_buy {
            amm.base_mint_data@
        } else {
            amm.quote_mint_data@
        };
        let out_program = if is_buy {
            amm.base_token_program
        } else {
            amm.quote_token_program
        };
        lemma_token_arrival_is_monotone(
            out_data,
            out_program,
            a.out_amount,
            b.out_amount,
            clock.epoch,
        );
    }
}

} // verus!
