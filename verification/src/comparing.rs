//! Two takers on the same ladder: who trades the same pays the same.

use vstd::prelude::*;

use crate::ladder::AggregatedLevel;
use crate::monotone::{even_lots, lot_cost, lot_cost_per_tick};
use crate::quote::buy_outcome;
use crate::settlement::{is_fee, law_purchase_is_settled_on_its_fills, settles_purchase};
use crate::state::MarketStateHeader;
use crate::trades::{Fill, base_at, base_of, base_unit, is_paid_for, is_way, offer_at, quote_of};

verus! {

/// Whether each fill cost its lots times the cost of one.
pub open spec fn evenly_paid(fills: Seq<Fill>, header: MarketStateHeader) -> bool {
    forall|k: int|
        0 <= k < fills.len() ==> (#[trigger] fills[k]).quote == fills[k].base * lot_cost(
            header,
            fills[k].price,
        )
}

/// On a market with even lots nothing is lost to rounding.
pub proof fn law_even_fills_are_evenly_paid(
    header: MarketStateHeader,
    is_buy: bool,
    fills: Seq<Fill>,
)
    requires
        even_lots(header),
        forall|k: int| 0 <= k < fills.len() ==> is_paid_for(header, is_buy, #[trigger] fills[k]),
    ensures
        evenly_paid(fills, header),
{
    let bapl = header.base_atoms_per_base_lot as int;
    let tick = header.tick_size_in_quote_atoms_per_base_unit as int;
    let unit = base_unit(header);
    let lot = header.quote_atoms_per_quote_lot as int;
    let k = lot_cost_per_tick(header);
    let d = unit * lot;
    assert(d > 0) by (nonlinear_arith)
        requires
            d == unit * lot,
            unit > 0,
            lot > 0,
    ;
    assert(bapl * tick == k * d) by (nonlinear_arith)
        requires
            k == (bapl * tick) / d,
            (bapl * tick) % d == 0,
            d > 0,
    ;
    assert forall|i: int| 0 <= i < fills.len() implies (#[trigger] fills[i]).quote == fills[i].base
        * lot_cost(header, fills[i].price) by {
        let fill = fills[i];
        assert(is_paid_for(header, is_buy, fill));
        let b = fill.base as int;
        let p = fill.price as int;
        let q = fill.quote as int;
        let v = b * (p * k);
        assert(b * bapl * p * tick == (b * p) * (bapl * tick)) by (nonlinear_arith);
        assert((b * p) * (k * d) == (v * lot) * unit) by (nonlinear_arith)
            requires
                v == b * (p * k),
                d == unit * lot,
        ;
        assert(((v * lot) * unit) / unit == v * lot) by (nonlinear_arith)
            requires
                unit > 0,
        ;
        if is_buy {
            assert(q == v) by (nonlinear_arith)
                requires
                    (q - 1) * lot < v * lot <= q * lot,
                    lot > 0,
            ;
        } else {
            assert(q == v) by (nonlinear_arith)
                requires
                    q * lot <= v * lot < (q + 1) * lot,
                    lot > 0,
            ;
        }
    }
}

/// The fills that are not at a price.
spec fn without(fills: Seq<Fill>, price: u64) -> Seq<Fill>
    decreases fills.len(),
{
    if fills.len() == 0 {
        Seq::empty()
    } else {
        let rest = without(fills.drop_first(), price);
        if fills.first().price == price {
            rest
        } else {
            seq![fills.first()] + rest
        }
    }
}

/// Fills part into those at a price and the others.
proof fn lemma_without(fills: Seq<Fill>, price: u64, header: MarketStateHeader)
    requires
        evenly_paid(fills, header),
    ensures
        ({
            let rest = without(fills, price);
            &&& rest.len() <= fills.len()
            &&& fills.len() > 0 && fills[0].price == price ==> rest.len() < fills.len()
            &&& evenly_paid(rest, header)
            &&& base_of(fills) == base_at(fills, price) + base_of(rest)
            &&& quote_of(fills) == base_at(fills, price) * lot_cost(header, price) + quote_of(rest)
            &&& base_at(fills, price) >= 0
            &&& forall|p: u64| #[trigger] base_at(rest, p) == (if p == price {
                0
            } else {
                base_at(fills, p)
            })
        }),
    decreases fills.len(),
{
    let cost = lot_cost(header, price);
    if fills.len() == 0 {
        assert(0 * cost == 0) by (nonlinear_arith);
    } else {
        let tail = fills.drop_first();
        let first = fills.first();
        assert(forall|k: int| 0 <= k < tail.len() ==> #[trigger] tail[k] == fills[k + 1]);
        lemma_without(tail, price, header);
        let later = without(tail, price);
        let rest = without(fills, price);
        assert(first == fills[0]);
        assert(first.quote == first.base * lot_cost(header, first.price));
        if first.price == price {
            assert((first.base + base_at(tail, price)) * cost == first.base * cost + base_at(
                tail,
                price,
            ) * cost) by (nonlinear_arith);
            assert forall|p: u64| #[trigger] base_at(rest, p) == (if p == price {
                0
            } else {
                base_at(fills, p)
            }) by {
                assert(base_at(later, p) == (if p == price {
                    0
                } else {
                    base_at(tail, p)
                }));
            }
        } else {
            assert(rest.drop_first() =~= later);
            assert(rest[0] == first);
            assert forall|k: int| 0 <= k < rest.len() implies (#[trigger] rest[k]).quote
                == rest[k].base * lot_cost(header, rest[k].price) by {
                if k > 0 {
                    assert(rest[k] == later[k - 1]);
                }
            }
            assert forall|p: u64| #[trigger] base_at(rest, p) == (if p == price {
                0
            } else {
                base_at(fills, p)
            }) by {
                assert(base_at(later, p) == (if p == price {
                    0
                } else {
                    base_at(tail, p)
                }));
            }
        }
    }
}

/// Who trades no more at any price trades no more in all; and who then trades as
/// much in all does so at every price, for as much.
proof fn lemma_compare(a: Seq<Fill>, b: Seq<Fill>, header: MarketStateHeader)
    requires
        evenly_paid(a, header),
        evenly_paid(b, header),
        forall|p: u64| #[trigger] base_at(a, p) <= base_at(b, p),
    ensures
        base_of(a) <= base_of(b),
        base_of(a) == base_of(b) ==> quote_of(a) == quote_of(b),
    decreases a.len() + b.len(),
{
    if a.len() > 0 || b.len() > 0 {
        let price = if a.len() > 0 {
            a[0].price
        } else {
            b[0].price
        };
        lemma_without(a, price, header);
        lemma_without(b, price, header);
        let x = without(a, price);
        let y = without(b, price);
        assert forall|p: u64| #[trigger] base_at(x, p) <= base_at(y, p) by {
            assert(base_at(a, p) <= base_at(b, p));
        }
        lemma_compare(x, y, header);
        assert(base_at(a, price) <= base_at(b, price));
    }
}

/// What was traded at a price was traded in some fill.
proof fn lemma_some_fill(fills: Seq<Fill>, price: u64) -> (k: int)
    requires
        base_at(fills, price) > 0,
    ensures
        0 <= k < fills.len(),
        fills[k].price == price,
    decreases fills.len(),
{
    if fills.first().price == price {
        0
    } else {
        let k = lemma_some_fill(fills.drop_first(), price);
        k + 1
    }
}

/// Of two ways along the same levels one goes no further than the other.
proof fn lemma_one_is_further(
    a: Seq<Fill>,
    b: Seq<Fill>,
    header: MarketStateHeader,
    is_buy: bool,
    levels: Seq<AggregatedLevel>,
    left_of_a: int,
    left_of_b: int,
)
    requires
        is_way(a, header, is_buy, levels, left_of_a),
        is_way(b, header, is_buy, levels, left_of_b),
    ensures
        (forall|p: u64| #[trigger] base_at(a, p) <= base_at(b, p)) || (forall|p: u64| #[trigger]
            base_at(b, p) <= base_at(a, p)),
{
    if exists|p: u64| #[trigger] base_at(a, p) > base_at(b, p) {
        let p = choose|p: u64| #[trigger] base_at(a, p) > base_at(b, p);
        assert forall|q: u64| #[trigger] base_at(b, q) <= base_at(a, q) by {
            if base_at(b, q) > base_at(a, q) {
                crate::trades::lemma_fills_nonnegative(a);
                crate::trades::lemma_fills_nonnegative(b);
                assert(base_at(b, p) >= 0 && base_at(a, q) >= 0);
                assert(base_at(a, p) <= offer_at(levels, p));
                assert(base_at(b, q) <= offer_at(levels, q));
                let i = lemma_some_fill(a, p);
                let j = lemma_some_fill(b, q);
                assert(a[i].price == p && b[j].price == q);
                if is_buy == (q < p) {
                    assert(base_at(a, q) == offer_at(levels, q));
                } else {
                    assert(base_at(b, p) == offer_at(levels, p));
                }
            }
        }
    }
}

/// Two purchases from the same asks that give the same pay the same fee, whatever
/// was put in: the fee goes by what changed hands. In particular inputs that both
/// buy all there is pay one fee.
pub proof fn law_same_purchase_same_fee(
    first: u64,
    second: u64,
    header: MarketStateHeader,
    asks: Seq<AggregatedLevel>,
    ppm: i32,
)
    requires
        even_lots(header),
        header.base_atoms_per_base_lot > 0,
    ensures
        buy_outcome(first, header, asks, ppm) matches Ok(a) ==> (buy_outcome(
            second,
            header,
            asks,
            ppm,
        ) matches Ok(b) ==> (a.out_amount == b.out_amount ==> a.fee_amount == b.fee_amount)),
{
    law_purchase_is_settled_on_its_fills(first, header, asks, ppm);
    law_purchase_is_settled_on_its_fills(second, header, asks, ppm);
    if buy_outcome(first, header, asks, ppm) is Ok && buy_outcome(second, header, asks, ppm) is Ok {
        let a = buy_outcome(first, header, asks, ppm)->Ok_0;
        let b = buy_outcome(second, header, asks, ppm)->Ok_0;
        let (x, left_of_x, fee_x) = choose|fills: Seq<Fill>, unspent: int, fee: int| #[trigger]
            settles_purchase(a, fills, unspent, fee, first, header, asks, ppm);
        let (y, left_of_y, fee_y) = choose|fills: Seq<Fill>, unspent: int, fee: int| #[trigger]
            settles_purchase(b, fills, unspent, fee, second, header, asks, ppm);
        if a.out_amount == b.out_amount {
            let lot = header.base_atoms_per_base_lot as int;
            let m = base_of(x);
            let n = base_of(y);
            assert(m == n) by (nonlinear_arith)
                requires
                    m * lot == n * lot,
                    lot > 0,
            ;
            law_even_fills_are_evenly_paid(header, true, x);
            law_even_fills_are_evenly_paid(header, true, y);
            lemma_one_is_further(x, y, header, true, asks, left_of_x, left_of_y);
            if forall|p: u64| #[trigger] base_at(x, p) <= base_at(y, p) {
                lemma_compare(x, y, header);
            } else {
                lemma_compare(y, x, header);
            }
            assert(quote_of(x) == quote_of(y));
            assert(is_fee(fee_x, quote_of(x), ppm as int) && is_fee(fee_y, quote_of(x), ppm as int));
            assert(fee_x == fee_y);
        }
    }
}

} // verus!
