//! Where a taker gets an answer: on a market with even lots, wherever the numbers
//! that come up fit their types.

use vstd::prelude::*;
use vstd::arithmetic::div_mod::lemma_div_is_ordered;

use crate::error::ErrorModel;
use crate::fills::{
    distribution, law_distribution, law_part_fits, lemma_pass_spent, lemma_total_nonnegative, pass,
    share_of, smaller, spent, total,
};
use crate::ladder::{
    AggregatedLevel, at_price, best_price, lemma_at_price_members, lemma_best_price,
    lemma_off_price, lemma_push_level, off_price, sizes,
};
use crate::laws::{
    law_price_is_exhausted, law_walk_stays_within_offer, lemma_total_push, traded,
};
use crate::lots::{fee_lots, quote_lots_for};
use crate::matching::{
    affordable, ladder_walked, lemma_price_spends, lemma_walk_spends, price_cleared, worth,
};
use crate::monotone::{even_lots, law_even_budget, law_even_cost, law_even_price, lot_cost};
use crate::quote::{buy_outcome, grossed_down, sell_outcome};
use crate::sdk::priceable;
use crate::settlement::{
    is_fee, law_budget_is_what_fits, law_when_a_purchase_settles, law_when_a_sale_settles,
    lemma_offer_nonnegative,
};
use crate::state::MarketStateHeader;
use crate::trades::{base_unit, lemma_offer_at, offer_at};

verus! {

/// A pass succeeds where every share has a quote and these fit together.
proof fn lemma_pass_succeeds(
    s: Seq<u64>,
    given: u64,
    quoted: u64,
    fill: u64,
    all: u64,
    quote: spec_fn(u64) -> Result<u64, ErrorModel>,
    cost: int,
)
    requires
        total(s) <= all,
        fill <= all,
        given * all <= fill * (all - total(s)),
        given <= fill,
        cost >= 0,
        quoted + (fill - given) * cost <= u64::MAX,
        forall|x: u64|
            0 < x <= fill ==> (#[trigger] quote(x) matches Ok(lots) && lots == x * cost),
    ensures
        pass(s, given, quoted, fill, all, quote).result is Ok,
    decreases s.len(),
{
    if s.len() > 0 {
        let first = s.first();
        let rest = s.drop_first();
        lemma_total_nonnegative(rest);
        if first == 0 {
            lemma_pass_succeeds(rest, given, quoted, fill, all, quote, cost);
        } else {
            if !spent(rest) {
                law_part_fits(fill, first, all);
            }
            let share = share_of(first, rest, given, fill, all)->Ok_0;
            if share == 0 {
                assert(given * all <= fill * (all - total(rest))) by (nonlinear_arith)
                    requires
                        given * all <= fill * (all - total(s)),
                        total(rest) <= total(s),
                        fill >= 0,
                ;
                lemma_pass_succeeds(rest, given, quoted, fill, all, quote, cost);
            } else {
                if !spent(rest) {
                    let part = (fill * first) / (all as int);
                    assert(share * all <= fill * first) by (nonlinear_arith)
                        requires
                            share <= part,
                            part * all <= fill * first,
                            all > 0,
                    ;
                    assert((given + share) * all <= fill * (all - total(rest)))
                        by (nonlinear_arith)
                        requires
                            given * all <= fill * (all - total(s)),
                            share * all <= fill * first,
                            total(s) == first + total(rest),
                    ;
                    assert(given + share <= fill) by (nonlinear_arith)
                        requires
                            (given + share) * all <= fill * (all - total(rest)),
                            total(rest) >= 0,
                            all > 0,
                            fill >= 0,
                    ;
                }
                assert(given + share <= fill);
                assert(quote(share) is Ok);
                let lots = quote(share)->Ok_0;
                let next = given + share;
                assert(quoted + lots + (fill - next) * cost == quoted + (fill - given) * cost)
                    by (nonlinear_arith)
                    requires
                        lots == share * cost,
                        next == given + share,
                ;
                assert((fill - next) * cost >= 0) by (nonlinear_arith)
                    requires
                        fill >= next,
                        cost >= 0,
                ;
                if spent(rest) {
                    lemma_pass_spent(
                        rest,
                        (given + share) as u64,
                        (quoted + lots) as u64,
                        fill,
                        all,
                        quote,
                    );
                } else {
                    lemma_pass_succeeds(
                        rest,
                        (given + share) as u64,
                        (quoted + lots) as u64,
                        fill,
                        all,
                        quote,
                        cost,
                    );
                }
            }
        }
    }
}

/// Whether the numbers fit that come up where `offer` base lots are offered at a
/// price: those of the offer's worth, and, for a buyer, those of what the budget
/// buys.
pub open spec fn fits_at(
    header: MarketStateHeader,
    is_buy: bool,
    budget: u64,
    price: u64,
    offer: int,
) -> bool {
    &&& offer <= u64::MAX
    &&& priceable(header, offer as u64, price)
    &&& is_buy ==> {
        &&& 0 < price * header.tick_size_in_quote_atoms_per_base_unit
            * header.base_atoms_per_base_lot <= u128::MAX
        &&& budget * header.quote_atoms_per_quote_lot * base_unit(header) <= u128::MAX
    }
}

/// What can be priced can be priced in part.
proof fn lemma_part_is_priceable(header: MarketStateHeader, part: u64, whole: u64, price: u64)
    requires
        part <= whole,
        priceable(header, whole, price),
    ensures
        priceable(header, part, price),
{
    let lot = header.base_atoms_per_base_lot as int;
    let tick = header.tick_size_in_quote_atoms_per_base_unit as int;
    let p = price as int;
    let a = part * lot * p;
    let b = whole * lot * p;
    assert(0 <= a <= b) by (nonlinear_arith)
        requires
            a == part * lot * p,
            b == whole * lot * p,
            0 <= part <= whole,
            lot >= 0,
            p >= 0,
    ;
    assert(0 <= a * tick <= b * tick) by (nonlinear_arith)
        requires
            0 <= a <= b,
            tick >= 0,
    ;
    lemma_div_is_ordered(a * tick, b * tick, header.unit_atoms());
}

/// A cost is not negative.
proof fn lemma_cost(header: MarketStateHeader, price: u64)
    requires
        even_lots(header),
    ensures
        lot_cost(header, price) >= 0,
{
    let n = header.base_atoms_per_base_lot * header.tick_size_in_quote_atoms_per_base_unit;
    let d = header.unit_atoms() * header.quote_atoms_per_quote_lot;
    assert(n >= 0) by (nonlinear_arith)
        requires
            n == header.base_atoms_per_base_lot * header.tick_size_in_quote_atoms_per_base_unit,
    ;
    assert(d > 0) by (nonlinear_arith)
        requires
            d == header.unit_atoms() * header.quote_atoms_per_quote_lot,
            header.unit_atoms() > 0,
            header.quote_atoms_per_quote_lot > 0,
    ;
    let k = n / d;
    assert(k >= 0) by (nonlinear_arith)
        requires
            k == n / d,
            n >= 0,
            d > 0,
    ;
    assert(price * k >= 0) by (nonlinear_arith)
        requires
            price >= 0,
            k >= 0,
    ;
}

/// A budget that fits buys a number of lots.
proof fn lemma_budget_buys(
    header: MarketStateHeader,
    budget: u64,
    price: u64,
    remaining: u64,
    offer: int,
)
    requires
        even_lots(header),
        fits_at(header, true, budget, price, offer),
        remaining <= budget,
    ensures
        affordable(header, true, price, remaining) is Ok,
{
    let g = header.quote_atoms_per_quote_lot as int;
    let u = header.unit_atoms();
    let n = remaining * g * u;
    let m = budget * g * u;
    assert(0 <= n <= m) by (nonlinear_arith)
        requires
            n == remaining * g * u,
            m == budget * g * u,
            0 <= remaining <= budget,
            g >= 0,
            u >= 0,
    ;
    // A lot costs at least one quote lot, so the budget buys no more lots than it has.
    let tick = header.tick_size_in_quote_atoms_per_base_unit as int;
    let lot = header.base_atoms_per_base_lot as int;
    let p = price as int;
    let c = p * tick * lot;
    let d = u * g;
    assert(d > 0) by (nonlinear_arith)
        requires
            d == u * g,
            u > 0,
            g > 0,
    ;
    let k = (lot * tick) / d;
    assert(lot * tick == k * d) by (nonlinear_arith)
        requires
            k == (lot * tick) / d,
            (lot * tick) % d == 0,
            d > 0,
    ;
    assert(c == (p * k) * d) by (nonlinear_arith)
        requires
            c == p * tick * lot,
            lot * tick == k * d,
    ;
    assert(p * k >= 1) by (nonlinear_arith)
        requires
            c == (p * k) * d,
            c > 0,
            d > 0,
    ;
    assert(c >= d) by (nonlinear_arith)
        requires
            c == (p * k) * d,
            p * k >= 1,
            d > 0,
    ;
    assert(n == remaining * d) by (nonlinear_arith)
        requires
            n == remaining * g * u,
            d == u * g,
    ;
    let q = n / c;
    assert(0 <= q <= remaining) by (nonlinear_arith)
        requires
            q == n / c,
            n == remaining * d,
            c >= d,
            d > 0,
            remaining >= 0,
    ;
}

/// A price is cleared where the numbers fit.
proof fn lemma_price_succeeds(
    header: MarketStateHeader,
    is_buy: bool,
    price: u64,
    s: Seq<u64>,
    budget: u64,
    remaining: u64,
    gained: u64,
)
    requires
        even_lots(header),
        remaining <= budget,
        fits_at(header, is_buy, budget, price, total(s)),
        gained + (if is_buy {
            total(s)
        } else {
            total(s) * lot_cost(header, price)
        }) <= u64::MAX,
    ensures
        price_cleared(header, is_buy, price, s, remaining, gained) is Ok,
    decreases total(s),
{
    let cost = lot_cost(header, price);
    lemma_total_nonnegative(s);
    lemma_cost(header, price);
    if total(s) > 0 {
        let all = total(s) as u64;
        if is_buy {
            lemma_budget_buys(header, budget, price, remaining, total(s));
            law_even_budget(header, remaining, price);
        }
        let limit = affordable(header, is_buy, price, remaining)->Ok_0;
        let fill = smaller(limit as int, all as int) as u64;
        if fill > 0 {
            let quote = worth(header, is_buy, price);
            assert forall|x: u64| 0 < x <= fill implies (#[trigger] quote(x) matches Ok(lots)
                && lots == x * cost) by {
                lemma_part_is_priceable(header, x, all, price);
                assert(quote(x) == quote_lots_for(header, x, price, is_buy));
                law_even_cost(header, x, price, is_buy);
            }
            assert(0 * all <= fill * (all - total(s))) by (nonlinear_arith)
                requires
                    all == total(s),
            ;
            assert((fill - 0) * cost <= u64::MAX) by {
                if is_buy {
                    assert(fill * cost <= remaining) by (nonlinear_arith)
                        requires
                            fill <= limit,
                            limit * cost <= remaining,
                            cost >= 0,
                    ;
                } else {
                    assert(fill * cost <= total(s) * cost) by (nonlinear_arith)
                        requires
                            fill <= total(s),
                            cost >= 0,
                    ;
                }
            }
            lemma_pass_succeeds(s, 0, 0, fill, all, quote, cost);
            let d = distribution(s, fill, all, quote);
            law_distribution(s, fill, quote);
            let (base, lots) = d.result->Ok_0;
            lemma_total_nonnegative(d.sizes);
            lemma_even_pass(s, fill, all, quote, cost);
            let left = total(d.sizes);
            if is_buy {
                assert(base * cost <= remaining) by (nonlinear_arith)
                    requires
                        base <= fill <= limit,
                        limit * cost <= remaining,
                        cost >= 0,
                ;
            } else {
                assert(lots + left * cost == total(s) * cost && left * cost >= 0)
                    by (nonlinear_arith)
                    requires
                        lots == base * cost,
                        base == total(s) - left,
                        left >= 0,
                        cost >= 0,
                ;
            }
            lemma_part_is_priceable(header, left as u64, all, price);
            lemma_price_succeeds(
                header,
                is_buy,
                price,
                d.sizes,
                budget,
                if is_buy {
                    (remaining - lots) as u64
                } else {
                    (remaining - base) as u64
                },
                if is_buy {
                    (gained + base) as u64
                } else {
                    (gained + lots) as u64
                },
            );
        }
    }
}

/// What a pass is worth, where a lot always costs the same.
proof fn lemma_even_pass(
    s: Seq<u64>,
    fill: u64,
    all: u64,
    quote: spec_fn(u64) -> Result<u64, ErrorModel>,
    cost: int,
)
    requires
        fill <= total(s) == all,
        forall|x: u64|
            0 < x <= fill ==> (#[trigger] quote(x) matches Ok(lots) && lots == x * cost),
    ensures
        distribution(s, fill, all, quote).result matches Ok((base, lots)) ==> lots == base * cost,
{
    lemma_even_rest(s, 0, 0, fill, all, quote, cost);
    assert(0 * cost == 0) by (nonlinear_arith);
    assert(0 * all <= fill * (all - total(s))) by (nonlinear_arith)
        requires
            all == total(s),
    ;
}

/// What the rest of a pass is worth, where a lot always costs the same.
proof fn lemma_even_rest(
    s: Seq<u64>,
    given: u64,
    quoted: u64,
    fill: u64,
    all: u64,
    quote: spec_fn(u64) -> Result<u64, ErrorModel>,
    cost: int,
)
    requires
        fill <= all,
        total(s) <= all,
        forall|x: u64|
            0 < x <= fill ==> (#[trigger] quote(x) matches Ok(lots) && lots == x * cost),
    ensures
        pass(s, given, quoted, fill, all, quote).result matches Ok((base, lots)) ==> lots - quoted
            == (base - given) * cost,
    decreases s.len(),
{
    assert((given - given) * cost == 0) by (nonlinear_arith);
    if s.len() > 0 && pass(s, given, quoted, fill, all, quote).result is Ok {
        let first = s.first();
        let rest = s.drop_first();
        lemma_total_nonnegative(rest);
        if first == 0 {
            lemma_even_rest(rest, given, quoted, fill, all, quote, cost);
        } else {
            if !spent(rest) {
                law_part_fits(fill, first, all);
            }
            let share = share_of(first, rest, given, fill, all)->Ok_0;
            if share == 0 {
                lemma_even_rest(rest, given, quoted, fill, all, quote, cost);
            } else {
                assert(share <= fill);
                let lots = quote(share)->Ok_0;
                let next = (given + share) as u64;
                let sum = (quoted + lots) as u64;
                lemma_even_rest(rest, next, sum, fill, all, quote, cost);
                let (base, end) = pass(rest, next, sum, fill, all, quote).result->Ok_0;
                assert(end - quoted == (base - given) * cost) by (nonlinear_arith)
                    requires
                        end - sum == (base - next) * cost,
                        sum == quoted + lots,
                        next == given + share,
                        lots == share * cost,
                ;
            }
        }
    }
}

/// What levels are worth, on a market with even lots.
pub open spec fn levels_worth(levels: Seq<AggregatedLevel>, header: MarketStateHeader) -> int
    decreases levels.len(),
{
    if levels.len() == 0 {
        0
    } else {
        levels_worth(levels.drop_last(), header) + levels.last().size_base_lots * lot_cost(
            header,
            levels.last().price_ticks,
        )
    }
}

/// The base lots that levels offer.
pub open spec fn levels_offer(levels: Seq<AggregatedLevel>) -> int
    decreases levels.len(),
{
    if levels.len() == 0 {
        0
    } else {
        levels_offer(levels.drop_last()) + levels.last().size_base_lots
    }
}

/// Taking the levels of one price out parts their worth and their sizes in two.
proof fn lemma_worth_parts(levels: Seq<AggregatedLevel>, price: u64, header: MarketStateHeader)
    requires
        even_lots(header),
    ensures
        ({
            let rest = off_price(levels, price);
            &&& levels_offer(levels) == offer_at(levels, price) + levels_offer(rest)
            &&& levels_worth(levels, header) == offer_at(levels, price) * lot_cost(header, price)
                + levels_worth(rest, header)
            &&& levels_offer(rest) >= 0
            &&& levels_worth(rest, header) >= 0
        }),
    decreases levels.len(),
{
    reveal(Seq::filter);
    let cost = lot_cost(header, price);
    if levels.len() == 0 {
        assert(off_price(levels, price) =~= levels);
        assert(0 * cost == 0) by (nonlinear_arith);
    } else {
        let front = levels.drop_last();
        let last = levels.last();
        lemma_worth_parts(front, price, header);
        lemma_push_level(front, last, price);
        assert(front.push(last) =~= levels);
        let rest = off_price(front, price);
        let o = offer_at(front, price);
        let size = last.size_base_lots as int;
        if last.price_ticks == price {
            assert((o + size) * cost == o * cost + size * cost) by (nonlinear_arith);
        } else {
            assert(rest.push(last).drop_last() =~= rest);
            lemma_cost(header, last.price_ticks);
            let c = lot_cost(header, last.price_ticks);
            assert(size * c >= 0) by (nonlinear_arith)
                requires
                    size >= 0,
                    c >= 0,
            ;
        }
    }
}

/// A ladder is walked to an end where the numbers fit.
proof fn lemma_walk_succeeds(
    header: MarketStateHeader,
    is_buy: bool,
    levels: Seq<AggregatedLevel>,
    budget: u64,
    remaining: u64,
    gained: u64,
)
    requires
        even_lots(header),
        remaining <= budget,
        forall|k: int|
            0 <= k < levels.len() ==> fits_at(
                header,
                is_buy,
                budget,
                (#[trigger] levels[k]).price_ticks,
                offer_at(levels, levels[k].price_ticks),
            ),
        gained + (if is_buy {
            levels_offer(levels)
        } else {
            levels_worth(levels, header)
        }) <= u64::MAX,
    ensures
        ladder_walked(header, is_buy, levels, remaining, gained) is Ok,
    decreases levels.len(),
{
    if levels.len() > 0 && remaining > 0 {
        let price = best_price(levels, !is_buy);
        let s = sizes(at_price(levels, price));
        let cost = lot_cost(header, price);
        let rest = off_price(levels, price);
        lemma_best_price(levels, !is_buy);
        lemma_at_price_members(levels, price);
        lemma_offer_at(levels, price);
        lemma_worth_parts(levels, price, header);
        lemma_price_succeeds(header, is_buy, price, s, budget, remaining, gained);
        let p = price_cleared(header, is_buy, price, s, remaining, gained)->Ok_0;
        if !p.done {
            lemma_price_spends(header, is_buy, price, s, remaining, gained);
            law_price_is_exhausted(header, is_buy, price, s, remaining, gained);
            law_even_price(header, is_buy, price, s, remaining, gained);
            assert(traded(is_buy, remaining, gained, p) == total(s));
            assert forall|k: int| 0 <= k < rest.len() implies fits_at(
                header,
                is_buy,
                budget,
                (#[trigger] rest[k]).price_ticks,
                offer_at(rest, rest[k].price_ticks),
            ) by {
                let q = rest[k].price_ticks;
                lemma_at_price_members(rest, q);
                lemma_off_price(levels, price, q);
                lemma_at_price_members(levels, q);
                lemma_offer_at(rest, q);
                lemma_offer_at(levels, q);
                let l = choose|l: int| 0 <= l < levels.len() && (#[trigger] levels[l]).price_ticks
                    == q;
                assert(levels[l].price_ticks == q);
            }
            lemma_walk_succeeds(header, is_buy, rest, budget, p.remaining, p.gained);
        }
    }
}

/// On a market with even lots a taker goes a whole way wherever the numbers fit: the
/// offers of each price have a worth, a buyer's budget can be reckoned in lots of
/// each price, and all that is offered, or all that it is worth to a seller, can be
/// counted.
pub proof fn law_walk_succeeds_where_numbers_fit(
    header: MarketStateHeader,
    is_buy: bool,
    levels: Seq<AggregatedLevel>,
    budget: u64,
)
    requires
        even_lots(header),
        forall|k: int|
            0 <= k < levels.len() ==> fits_at(
                header,
                is_buy,
                budget,
                (#[trigger] levels[k]).price_ticks,
                offer_at(levels, levels[k].price_ticks),
            ),
        is_buy ==> levels_offer(levels) <= u64::MAX,
        !is_buy ==> levels_worth(levels, header) <= u64::MAX,
    ensures
        ladder_walked(header, is_buy, levels, budget, 0) is Ok,
{
    lemma_walk_succeeds(header, is_buy, levels, budget, budget, 0);
}

/// A fee of at most the whole is no more than what it is charged on.
proof fn lemma_fee_within(matched: int, fee: int, ppm: int)
    requires
        0 <= matched,
        0 <= ppm <= 1_000_000,
        is_fee(fee, matched, ppm),
    ensures
        0 <= fee <= matched,
{
    assert(0 <= matched * ppm <= matched * 1_000_000) by (nonlinear_arith)
        requires
            0 <= matched,
            0 <= ppm <= 1_000_000,
    ;
}

/// A product grows with its first factor.
proof fn lemma_atoms_within(lots: int, most: int, per_lot: u64)
    requires
        0 <= lots <= most,
    ensures
        0 <= lots * per_lot <= most * per_lot,
{
    assert(0 <= lots * per_lot <= most * per_lot) by (nonlinear_arith)
        requires
            0 <= lots <= most,
            per_lot >= 0,
    ;
}

/// A purchase on a market with even lots and a fee of at most the whole is quoted
/// wherever the numbers fit: those of the way along the asks, the input as a signed
/// number and in atoms, and all that is offered in atoms.
pub proof fn law_purchase_is_quoted_where_numbers_fit(
    input: u64,
    header: MarketStateHeader,
    asks: Seq<AggregatedLevel>,
    ppm: i32,
)
    requires
        even_lots(header),
        0 <= ppm <= 1_000_000,
        forall|k: int|
            0 <= k < asks.len() ==> fits_at(
                header,
                true,
                input,
                (#[trigger] asks[k]).price_ticks,
                offer_at(asks, asks[k].price_ticks),
            ),
        levels_offer(asks) <= u64::MAX,
        levels_offer(asks) * header.base_atoms_per_base_lot <= u64::MAX,
        input <= i64::MAX,
        input * header.quote_atoms_per_quote_lot <= u64::MAX,
    ensures
        buy_outcome(input, header, asks, ppm) is Ok,
{
    let budget = grossed_down(input, ppm);
    law_budget_is_what_fits(input, ppm);
    lemma_grossed_down(input, ppm);
    lemma_walk_succeeds(header, true, asks, input, budget, 0);
    let after = ladder_walked(header, true, asks, budget, 0)->Ok_0;
    lemma_walk_spends(header, true, asks, budget, 0);
    law_walk_stays_within_offer(header, true, asks, budget, 0);
    lemma_offer_is_total(asks);
    let matched = (budget - after.remaining) as u64;
    let fee = fee_lots(matched as int, ppm as int);
    lemma_fee_lots(matched, ppm);
    lemma_fee_within(matched as int, fee, ppm as int);
    law_when_a_purchase_settles(header, matched, after.gained, ppm, fee);
    lemma_atoms_within(after.gained as int, levels_offer(asks), header.base_atoms_per_base_lot);
    lemma_atoms_within(fee, input as int, header.quote_atoms_per_quote_lot);
}

/// The matched part of an input is no more than the input.
proof fn lemma_grossed_down(input: u64, ppm: i32)
    requires
        0 <= ppm,
    ensures
        grossed_down(input, ppm) <= input,
{
    law_budget_is_what_fits(input, ppm);
    if ppm > 0 {
        let b = grossed_down(input, ppm) as int;
        let p = ppm as int;
        assert(b <= input) by (nonlinear_arith)
            requires
                b * (1_000_000 + p) <= input * 1_000_000,
                p > 0,
                b >= 0,
        ;
    }
}

/// The fee is the share.
proof fn lemma_fee_lots(matched: u64, ppm: i32)
    ensures
        is_fee(fee_lots(matched as int, ppm as int), matched as int, ppm as int),
{
    let raw = matched * ppm;
    let fee = fee_lots(matched as int, ppm as int);
    if raw > 0 {
        assert(fee == (raw + 999_999) / 1_000_000);
    } else {
        assert(fee == -((-raw) / 1_000_000));
    }
}

/// What is offered is the sum of the sizes.
proof fn lemma_offer_is_total(levels: Seq<AggregatedLevel>)
    ensures
        levels_offer(levels) == total(sizes(levels)),
    decreases levels.len(),
{
    if levels.len() == 0 {
        assert(sizes(levels) =~= Seq::empty());
    } else {
        lemma_offer_is_total(levels.drop_last());
        lemma_total_push(levels.drop_last(), levels.last());
        assert(levels.drop_last().push(levels.last()) =~= levels);
    }
}

/// What a seller gets along a ladder is no more than it is worth.
proof fn lemma_sale_within_worth(
    header: MarketStateHeader,
    levels: Seq<AggregatedLevel>,
    remaining: u64,
    gained: u64,
)
    requires
        even_lots(header),
    ensures
        ladder_walked(header, false, levels, remaining, gained) matches Ok(after) ==> gained
            <= after.gained <= gained + levels_worth(levels, header),
    decreases levels.len(),
{
    lemma_worth_parts(levels, 0, header);
    lemma_cost(header, 0);
    let o = offer_at(levels, 0);
    lemma_offer_nonnegative(levels, 0);
    let c = lot_cost(header, 0);
    assert(o * c >= 0) by (nonlinear_arith)
        requires
            o >= 0,
            c >= 0,
    ;
    if levels.len() > 0 && remaining > 0 && ladder_walked(
        header,
        false,
        levels,
        remaining,
        gained,
    ) is Ok {
        let price = best_price(levels, true);
        let s = sizes(at_price(levels, price));
        let cost = lot_cost(header, price);
        lemma_best_price(levels, true);
        lemma_at_price_members(levels, price);
        lemma_offer_at(levels, price);
        lemma_worth_parts(levels, price, header);
        lemma_cost(header, price);
        lemma_price_spends(header, false, price, s, remaining, gained);
        law_price_is_exhausted(header, false, price, s, remaining, gained);
        law_even_price(header, false, price, s, remaining, gained);
        let p = price_cleared(header, false, price, s, remaining, gained)->Ok_0;
        let t = traded(false, remaining, gained, p);
        assert(t * cost <= total(s) * cost) by (nonlinear_arith)
            requires
                t <= total(s),
                cost >= 0,
        ;
        if !p.done {
            lemma_sale_within_worth(header, off_price(levels, price), p.remaining, p.gained);
        }
    }
}

/// A sale on a market with even lots and a fee of at most the whole is quoted
/// wherever the numbers fit: those of the way along the bids, and all that they are
/// worth as a signed number and in atoms.
pub proof fn law_sale_is_quoted_where_numbers_fit(
    input: u64,
    header: MarketStateHeader,
    bids: Seq<AggregatedLevel>,
    ppm: i32,
)
    requires
        even_lots(header),
        0 <= ppm <= 1_000_000,
        forall|k: int|
            0 <= k < bids.len() ==> fits_at(
                header,
                false,
                input,
                (#[trigger] bids[k]).price_ticks,
                offer_at(bids, bids[k].price_ticks),
            ),
        levels_worth(bids, header) <= i64::MAX,
        levels_worth(bids, header) * header.quote_atoms_per_quote_lot <= u64::MAX,
    ensures
        sell_outcome(input, header, bids, ppm) is Ok,
{
    lemma_walk_succeeds(header, false, bids, input, input, 0);
    lemma_sale_within_worth(header, bids, input, 0);
    let after = ladder_walked(header, false, bids, input, 0)->Ok_0;
    let matched = after.gained;
    let most = levels_worth(bids, header);
    let fee = fee_lots(matched as int, ppm as int);
    lemma_fee_lots(matched, ppm);
    lemma_fee_within(matched as int, fee, ppm as int);
    law_when_a_sale_settles(header, matched, ppm, fee);
    lemma_atoms_within(matched - fee, most, header.quote_atoms_per_quote_lot);
    lemma_atoms_within(fee, most, header.quote_atoms_per_quote_lot);
}

} // verus!
