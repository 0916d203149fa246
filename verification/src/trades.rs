//! A taker's way along the ladder, told as the fills it is made of: what each
//! cost, in which order they came, and why they ended.

use vstd::prelude::*;
use vstd::arithmetic::power::{lemma_pow_positive, pow};

use crate::error::ErrorModel;
use crate::fills::{
    distribution, law_distribution, lemma_total_nonnegative, pass, share_of, smaller, total,
};
use crate::ladder::{
    AggregatedLevel, at_price, best_price, lemma_at_price_members, lemma_best_price,
    lemma_off_price, off_price, sizes,
};
use crate::laws::{law_price_is_exhausted, traded};
use crate::matching::{
    Progress, advanced, affordable, ladder_walked, price_cleared, worth,
};
use crate::state::MarketStateHeader;

verus! {

/// Base lots that changed hands with one maker, at a price, for quote lots.
pub struct Fill {
    pub price: u64,
    pub base: u64,
    pub quote: u64,
}

/// The atoms of one base unit.
pub open spec fn base_unit(header: MarketStateHeader) -> int {
    pow(10, header.base_decimals as nat) * header.raw_base_units_per_base_unit
}

/// Whether a fill was paid for: its worth in whole quote atoms, in lots, of which
/// a buyer pays the last one in full and a seller does not get a broken one.
pub open spec fn is_paid_for(header: MarketStateHeader, is_buy: bool, fill: Fill) -> bool {
    let value = fill.base * header.base_atoms_per_base_lot * fill.price
        * header.tick_size_in_quote_atoms_per_base_unit;
    let atoms = value / base_unit(header);
    let lot = header.quote_atoms_per_quote_lot as int;
    &&& fill.base > 0
    &&& base_unit(header) > 0
    &&& lot > 0
    &&& if is_buy {
        (fill.quote - 1) * lot < atoms <= fill.quote * lot
    } else {
        fill.quote * lot <= atoms < (fill.quote + 1) * lot
    }
}

/// The base lots of fills.
pub open spec fn base_of(fills: Seq<Fill>) -> int
    decreases fills.len(),
{
    if fills.len() == 0 {
        0
    } else {
        fills.first().base + base_of(fills.drop_first())
    }
}

/// The quote lots of fills.
pub open spec fn quote_of(fills: Seq<Fill>) -> int
    decreases fills.len(),
{
    if fills.len() == 0 {
        0
    } else {
        fills.first().quote + quote_of(fills.drop_first())
    }
}

/// The base lots of the fills at one price.
pub open spec fn base_at(fills: Seq<Fill>, price: u64) -> int
    decreases fills.len(),
{
    if fills.len() == 0 {
        0
    } else {
        (if fills.first().price == price {
            fills.first().base as int
        } else {
            0
        }) + base_at(fills.drop_first(), price)
    }
}

/// The base lots that levels offer at one price.
pub open spec fn offer_at(levels: Seq<AggregatedLevel>, price: u64) -> int
    decreases levels.len(),
{
    if levels.len() == 0 {
        0
    } else {
        offer_at(levels.drop_last(), price) + (if levels.last().price_ticks == price {
            levels.last().size_base_lots as int
        } else {
            0
        })
    }
}

/// Whether fills are a taker's way along the levels that leaves `unspent` of the
/// budget: each was paid for and takes no more than is offered at its price; a
/// buyer takes the lowest price first and a seller the highest, and all that is
/// there before the next; and the way ends only where nothing is left, of the
/// offers or of the budget, that would buy or sell another lot.
pub open spec fn is_way(
    fills: Seq<Fill>,
    header: MarketStateHeader,
    is_buy: bool,
    levels: Seq<AggregatedLevel>,
    unspent: int,
) -> bool {
    &&& forall|k: int| 0 <= k < fills.len() ==> is_paid_for(header, is_buy, #[trigger] fills[k])
    &&& forall|p: u64| #[trigger] base_at(fills, p) <= offer_at(levels, p)
    &&& forall|k: int, l: int|
        0 <= k < l < fills.len() ==> if is_buy {
            (#[trigger] fills[k]).price <= (#[trigger] fills[l]).price
        } else {
            fills[k].price >= fills[l].price
        }
    &&& forall|k: int, p: u64|
        0 <= k < fills.len() && (if is_buy {
            p < (#[trigger] fills[k]).price
        } else {
            p > fills[k].price
        }) ==> #[trigger] base_at(fills, p) == offer_at(levels, p)
    &&& forall|p: u64|
        #[trigger] base_at(fills, p) < offer_at(levels, p) ==> unspent == 0 || (is_buy && unspent
            * header.quote_atoms_per_quote_lot * base_unit(header) < p
            * header.tick_size_in_quote_atoms_per_base_unit * header.base_atoms_per_base_lot)
}

/// What is offered at a price is what the levels there add up to.
pub proof fn lemma_offer_at(levels: Seq<AggregatedLevel>, price: u64)
    ensures
        offer_at(levels, price) == total(sizes(at_price(levels, price))),
    decreases levels.len(),
{
    reveal(Seq::filter);
    if levels.len() == 0 {
        assert(at_price(levels, price) =~= Seq::empty());
    } else {
        let front = levels.drop_last();
        let last = levels.last();
        lemma_offer_at(front, price);
        crate::ladder::lemma_push_level(front, last, price);
        assert(front.push(last) =~= levels);
        crate::laws::lemma_total_push(at_price(front, price), last);
    }
}

/// Sums spread over concatenation.
proof fn lemma_concat_fills(a: Seq<Fill>, b: Seq<Fill>)
    ensures
        base_of(a + b) == base_of(a) + base_of(b),
        quote_of(a + b) == quote_of(a) + quote_of(b),
        forall|p: u64| #[trigger] base_at(a + b, p) == base_at(a, p) + base_at(b, p),
    decreases a.len(),
{
    if a.len() == 0 {
        assert(a + b =~= b);
    } else {
        lemma_concat_fills(a.drop_first(), b);
        assert((a + b).drop_first() =~= a.drop_first() + b);
        assert forall|p: u64| #[trigger] base_at(a + b, p) == base_at(a, p) + base_at(b, p) by {
            assert(base_at(a.drop_first() + b, p) == base_at(a.drop_first(), p) + base_at(b, p));
        }
    }
}

/// Fills that are all at one price.
proof fn lemma_fills_at(fills: Seq<Fill>, price: u64)
    requires
        forall|k: int| 0 <= k < fills.len() ==> (#[trigger] fills[k]).price == price,
    ensures
        forall|p: u64|
            #[trigger] base_at(fills, p) == (if p == price {
                base_of(fills)
            } else {
                0
            }),
    decreases fills.len(),
{
    if fills.len() > 0 {
        let rest = fills.drop_first();
        assert forall|k: int| 0 <= k < rest.len() implies (#[trigger] rest[k]).price == price by {
            assert(rest[k] == fills[k + 1]);
        }
        lemma_fills_at(rest, price);
        assert forall|p: u64| #[trigger] base_at(fills, p) == (if p == price {
            base_of(fills)
        } else {
            0
        }) by {
            assert(fills[0].price == price);
            assert(base_at(rest, p) == (if p == price {
                base_of(rest)
            } else {
                0
            }));
        }
    }
}

/// No sum of fills is negative.
pub proof fn lemma_fills_nonnegative(fills: Seq<Fill>)
    ensures
        base_of(fills) >= 0,
        quote_of(fills) >= 0,
        forall|p: u64| #[trigger] base_at(fills, p) >= 0,
    decreases fills.len(),
{
    if fills.len() > 0 {
        lemma_fills_nonnegative(fills.drop_first());
        assert forall|p: u64| #[trigger] base_at(fills, p) >= 0 by {
            assert(base_at(fills.drop_first(), p) >= 0);
        }
    }
}

/// A fill for its worth was paid for.
proof fn lemma_worth_is_paid(header: MarketStateHeader, is_buy: bool, price: u64, base: u64)
    requires
        base > 0,
    ensures
        worth(header, is_buy, price)(base) matches Ok(quote) ==> is_paid_for(
            header,
            is_buy,
            Fill { price, base, quote },
        ),
{
    let lot = header.quote_atoms_per_quote_lot as int;
    let unit = header.unit_atoms();
    let value = header.cost_numerator(base as int, price as int);
    if worth(header, is_buy, price)(base) is Ok {
        let atoms = value / unit;
        assert(value >= 0) by (nonlinear_arith)
            requires
                value == base * header.base_atoms_per_base_lot * price
                    * header.tick_size_in_quote_atoms_per_base_unit,
        ;
        assert(atoms >= 0) by (nonlinear_arith)
            requires
                atoms == value / unit,
                value >= 0,
                unit > 0,
        ;
        if is_buy {
            let v = (atoms + lot - 1) / lot;
            assert((v - 1) * lot < atoms <= v * lot && 0 <= v <= atoms) by (nonlinear_arith)
                requires
                    v == (atoms + lot - 1) / lot,
                    atoms >= 0,
                    lot >= 1,
            ;
        } else {
            let v = atoms / lot;
            assert(v * lot <= atoms < (v + 1) * lot && 0 <= v <= atoms) by (nonlinear_arith)
                requires
                    v == atoms / lot,
                    atoms >= 0,
                    lot >= 1,
            ;
        }
    }
}

/// The fills of a pass.
proof fn lemma_pass_fills(
    s: Seq<u64>,
    given: u64,
    quoted: u64,
    fill: u64,
    all: u64,
    header: MarketStateHeader,
    is_buy: bool,
    price: u64,
) -> (fills: Seq<Fill>)
    requires
        pass(s, given, quoted, fill, all, worth(header, is_buy, price)).result is Ok,
    ensures
        ({
            let (base, quote) = pass(
                s,
                given,
                quoted,
                fill,
                all,
                worth(header, is_buy, price),
            ).result->Ok_0;
            &&& base_of(fills) == base - given
            &&& quote_of(fills) == quote - quoted
        }),
        forall|k: int|
            0 <= k < fills.len() ==> is_paid_for(header, is_buy, #[trigger] fills[k])
                && fills[k].price == price,
    decreases s.len(),
{
    if s.len() == 0 {
        Seq::empty()
    } else {
        let rest = s.drop_first();
        let share = if s.first() == 0 {
            0u64
        } else {
            share_of(s.first(), rest, given, fill, all)->Ok_0
        };
        if share == 0 {
            lemma_pass_fills(rest, given, quoted, fill, all, header, is_buy, price)
        } else {
            let paid = worth(header, is_buy, price)(share)->Ok_0;
            lemma_worth_is_paid(header, is_buy, price, share);
            let one = Fill { price, base: share, quote: paid };
            let later = lemma_pass_fills(
                rest,
                (given + share) as u64,
                (quoted + paid) as u64,
                fill,
                all,
                header,
                is_buy,
                price,
            );
            let fills = seq![one] + later;
            assert(fills.drop_first() =~= later);
            assert forall|k: int| 0 <= k < fills.len() implies is_paid_for(
                header,
                is_buy,
                #[trigger] fills[k],
            ) && fills[k].price == price by {
                if k > 0 {
                    assert(fills[k] == later[k - 1]);
                }
            }
            fills
        }
    }
}

/// The quote lots that changed hands between two points of a taker's way.
pub open spec fn paid(is_buy: bool, remaining: u64, gained: u64, after: Progress) -> int {
    if is_buy {
        remaining - after.remaining
    } else {
        after.gained - gained
    }
}

/// The fills at one price.
proof fn lemma_price_fills(
    header: MarketStateHeader,
    is_buy: bool,
    price: u64,
    s: Seq<u64>,
    remaining: u64,
    gained: u64,
) -> (fills: Seq<Fill>)
    requires
        price_cleared(header, is_buy, price, s, remaining, gained) is Ok,
    ensures
        ({
            let after = price_cleared(header, is_buy, price, s, remaining, gained)->Ok_0;
            &&& base_of(fills) == traded(is_buy, remaining, gained, after)
            &&& quote_of(fills) == paid(is_buy, remaining, gained, after)
        }),
        forall|k: int|
            0 <= k < fills.len() ==> is_paid_for(header, is_buy, #[trigger] fills[k])
                && fills[k].price == price,
    decreases total(s),
{
    lemma_total_nonnegative(s);
    if total(s) == 0 {
        Seq::empty()
    } else {
        let all = total(s) as u64;
        let limit = affordable(header, is_buy, price, remaining)->Ok_0;
        let fill = smaller(limit as int, all as int) as u64;
        if fill == 0 {
            Seq::empty()
        } else {
            let d = distribution(s, fill, all, worth(header, is_buy, price));
            law_distribution(s, fill, worth(header, is_buy, price));
            lemma_total_nonnegative(d.sizes);
            let (base, quote) = d.result->Ok_0;
            let p = advanced(is_buy, remaining, gained, base, quote)->Ok_0;
            let here = lemma_pass_fills(s, 0, 0, fill, all, header, is_buy, price);
            let later = lemma_price_fills(
                header,
                is_buy,
                price,
                d.sizes,
                p.remaining,
                p.gained,
            );
            lemma_concat_fills(here, later);
            let fills = here + later;
            assert forall|k: int| 0 <= k < fills.len() implies is_paid_for(
                header,
                is_buy,
                #[trigger] fills[k],
            ) && fills[k].price == price by {
                if k < here.len() {
                    assert(fills[k] == here[k]);
                } else {
                    assert(fills[k] == later[k - here.len()]);
                }
            }
            fills
        }
    }
}

/// The fills along a ladder.
proof fn lemma_walk_fills(
    header: MarketStateHeader,
    is_buy: bool,
    levels: Seq<AggregatedLevel>,
    remaining: u64,
    gained: u64,
) -> (fills: Seq<Fill>)
    requires
        ladder_walked(header, is_buy, levels, remaining, gained) is Ok,
    ensures
        ({
            let after = ladder_walked(header, is_buy, levels, remaining, gained)->Ok_0;
            &&& base_of(fills) == traded(is_buy, remaining, gained, after)
            &&& quote_of(fills) == paid(is_buy, remaining, gained, after)
            &&& is_way(fills, header, is_buy, levels, after.remaining as int)
        }),
        forall|k: int|
            0 <= k < fills.len() ==> at_price(levels, (#[trigger] fills[k]).price).len() > 0,
    decreases levels.len(),
{
    assert forall|p: u64| #[trigger] offer_at(levels, p) == total(sizes(at_price(levels, p)))
        && offer_at(levels, p) >= 0 by {
        lemma_offer_at(levels, p);
        lemma_total_nonnegative(sizes(at_price(levels, p)));
    }
    if levels.len() == 0 || remaining == 0 {
        let fills = Seq::<Fill>::empty();
        assert forall|p: u64| #[trigger] base_at(fills, p) <= offer_at(levels, p) by {}
        assert forall|p: u64| #[trigger] base_at(fills, p) < offer_at(levels, p) implies remaining
            == 0 by {
            if levels.len() == 0 {
                assert(offer_at(levels, p) == 0);
            }
        }
        fills
    } else {
        let price = best_price(levels, !is_buy);
        let s = sizes(at_price(levels, price));
        lemma_best_price(levels, !is_buy);
        lemma_at_price_members(levels, price);
        let p0 = price_cleared(header, is_buy, price, s, remaining, gained)->Ok_0;
        let here = lemma_price_fills(header, is_buy, price, s, remaining, gained);
        lemma_fills_at(here, price);
        law_price_is_exhausted(header, is_buy, price, s, remaining, gained);
        assert forall|p: u64| (if is_buy {
            p < price
        } else {
            p > price
        }) implies #[trigger] at_price(levels, p).len() == 0 by {
            lemma_at_price_members(levels, p);
            if at_price(levels, p).len() > 0 {
                let k = choose|k: int| 0 <= k < levels.len() && (#[trigger] levels[k]).price_ticks
                    == p;
                assert(false);
            }
        }
        assert(offer_at(levels, price) == total(s));
        if p0.done {
            lemma_done(header, is_buy, levels, price, here, p0.remaining);
            here
        } else {
            let rest = off_price(levels, price);
            let later = lemma_walk_fills(header, is_buy, rest, p0.remaining, p0.gained);
            let after = ladder_walked(header, is_buy, rest, p0.remaining, p0.gained)->Ok_0;
            let fills = here + later;
            lemma_concat_fills(here, later);
            lemma_fills_nonnegative(later);
            assert forall|p: u64| #[trigger] offer_at(rest, p) == (if p == price {
                0
            } else {
                offer_at(levels, p)
            }) by {
                lemma_off_price(levels, price, p);
                lemma_offer_at(rest, p);
                lemma_offer_at(levels, p);
                assert(sizes(Seq::<AggregatedLevel>::empty()) =~= Seq::empty());
            }
            assert forall|k: int| 0 <= k < later.len() implies (#[trigger] later[k]).price != price
                && at_price(levels, later[k].price).len() > 0 by {
                lemma_off_price(levels, price, later[k].price);
            }
            assert(base_at(later, price) == 0) by {
                assert(base_at(later, price) <= offer_at(rest, price));
            }
            lemma_join(header, is_buy, levels, rest, price, here, later, after.remaining);
            assert forall|k: int| 0 <= k < fills.len() implies at_price(
                levels,
                (#[trigger] fills[k]).price,
            ).len() > 0 by {
                if k < here.len() {
                    assert(fills[k] == here[k]);
                } else {
                    assert(fills[k] == later[k - here.len()]);
                }
            }
            fills
        }
    }
}

/// A way that ends at the first price it comes to.
proof fn lemma_done(
    header: MarketStateHeader,
    is_buy: bool,
    levels: Seq<AggregatedLevel>,
    price: u64,
    here: Seq<Fill>,
    unspent: u64,
)
    requires
        forall|k: int|
            0 <= k < here.len() ==> is_paid_for(header, is_buy, #[trigger] here[k])
                && here[k].price == price,
        forall|p: u64|
            (if is_buy {
                p < price
            } else {
                p > price
            }) ==> #[trigger] at_price(levels, p).len() == 0,
        base_of(here) < offer_at(levels, price),
        affordable(header, is_buy, price, unspent) == Ok::<u64, ErrorModel>(0),
    ensures
        is_way(here, header, is_buy, levels, unspent as int),
{
    lemma_fills_at(here, price);
    let tick = header.tick_size_in_quote_atoms_per_base_unit as int;
    let lot = header.base_atoms_per_base_lot as int;
    assert forall|p: u64| #[trigger] offer_at(levels, p) >= 0 && (at_price(levels, p).len() == 0
        ==> offer_at(levels, p) == 0) by {
        lemma_offer_at(levels, p);
        lemma_total_nonnegative(sizes(at_price(levels, p)));
    }
    assert forall|k: int, p: u64| 0 <= k < here.len() && (if is_buy {
        p < (#[trigger] here[k]).price
    } else {
        p > here[k].price
    }) implies #[trigger] base_at(here, p) == offer_at(levels, p) by {
        assert(at_price(levels, p).len() == 0);
    }
    if is_buy {
        let n = unspent * header.quote_atoms_per_quote_lot * base_unit(header);
        let d = price * tick * lot;
        assert(0 <= n < d) by {
            lemma_pow_positive(10, header.base_decimals as nat);
            assert(n >= 0) by (nonlinear_arith)
                requires
                    n == unspent * header.quote_atoms_per_quote_lot * base_unit(header),
                    base_unit(header) == pow(10, header.base_decimals as nat)
                        * header.raw_base_units_per_base_unit,
                    pow(10, header.base_decimals as nat) > 0,
            ;
            assert(d >= 0) by (nonlinear_arith)
                requires
                    d == price * tick * lot,
                    price >= 0,
                    tick >= 0,
                    lot >= 0,
            ;
            assert(n < d) by (nonlinear_arith)
                requires
                    n / d == 0,
                    d > 0,
            ;
        }
        assert forall|p: u64| #[trigger] base_at(here, p) < offer_at(levels, p) implies n < p * tick
            * lot by {
            if p < price {
                assert(at_price(levels, p).len() == 0);
            }
            assert(price * tick * lot <= p * tick * lot) by (nonlinear_arith)
                requires
                    price <= p,
                    tick >= 0,
                    lot >= 0,
            ;
        }
    }
}

/// A way that goes on past the first price it comes to.
proof fn lemma_join(
    header: MarketStateHeader,
    is_buy: bool,
    levels: Seq<AggregatedLevel>,
    rest: Seq<AggregatedLevel>,
    price: u64,
    here: Seq<Fill>,
    later: Seq<Fill>,
    unspent: u64,
)
    requires
        forall|k: int|
            0 <= k < here.len() ==> is_paid_for(header, is_buy, #[trigger] here[k])
                && here[k].price == price,
        forall|p: u64|
            (if is_buy {
                p < price
            } else {
                p > price
            }) ==> #[trigger] at_price(levels, p).len() == 0,
        forall|p: u64|
            #[trigger] offer_at(rest, p) == (if p == price {
                0
            } else {
                offer_at(levels, p)
            }),
        base_of(here) == offer_at(levels, price),
        base_at(later, price) == 0,
        is_way(later, header, is_buy, rest, unspent as int),
        forall|k: int|
            0 <= k < later.len() ==> (#[trigger] later[k]).price != price && at_price(
                levels,
                later[k].price,
            ).len() > 0,
    ensures
        is_way(here + later, header, is_buy, levels, unspent as int),
{
    let fills = here + later;
    lemma_fills_at(here, price);
    lemma_concat_fills(here, later);
    assert forall|p: u64| #[trigger] base_at(fills, p) == (if p == price {
        offer_at(levels, price)
    } else {
        base_at(later, p)
    }) by {
        assert(base_at(fills, p) == base_at(here, p) + base_at(later, p));
    }
    assert forall|p: u64| #[trigger] base_at(fills, p) <= offer_at(levels, p) by {
        assert(base_at(later, p) <= offer_at(rest, p));
    }
    assert forall|k: int| 0 <= k < fills.len() implies is_paid_for(
        header,
        is_buy,
        #[trigger] fills[k],
    ) by {
        if k < here.len() {
            assert(fills[k] == here[k]);
        } else {
            assert(fills[k] == later[k - here.len()]);
        }
    }
    assert forall|k: int, l: int| 0 <= k < l < fills.len() implies if is_buy {
        (#[trigger] fills[k]).price <= (#[trigger] fills[l]).price
    } else {
        fills[k].price >= fills[l].price
    } by {
        if l >= here.len() {
            let b = later[l - here.len()];
            assert(fills[l] == b);
            assert(at_price(levels, b.price).len() > 0);
            if k < here.len() {
                assert(fills[k] == here[k]);
            } else {
                assert(fills[k] == later[k - here.len()]);
            }
        } else {
            assert(fills[k] == here[k] && fills[l] == here[l]);
        }
    }
    assert forall|k: int, p: u64| 0 <= k < fills.len() && (if is_buy {
        p < (#[trigger] fills[k]).price
    } else {
        p > fills[k].price
    }) implies #[trigger] base_at(fills, p) == offer_at(levels, p) by {
        if p != price {
            if k < here.len() {
                assert(fills[k] == here[k]);
                assert(at_price(levels, p).len() == 0);
                lemma_offer_at(levels, p);
                lemma_fills_nonnegative(later);
                assert(base_at(later, p) >= 0);
            } else {
                assert(fills[k] == later[k - here.len()]);
                assert(base_at(later, p) == offer_at(rest, p));
            }
        }
    }
    assert forall|p: u64| #[trigger] base_at(fills, p) < offer_at(levels, p) implies unspent == 0
        || (is_buy && unspent * header.quote_atoms_per_quote_lot * base_unit(header) < p
        * header.tick_size_in_quote_atoms_per_base_unit * header.base_atoms_per_base_lot) by {
        assert(p != price);
        assert(base_at(later, p) < offer_at(rest, p));
    }
}

/// Whatever a budget does on a ladder is a way along it: fills that were paid
/// for, best price first and each price to its end, that stop only where the
/// offers or the budget do; and the progress is their sum.
pub proof fn law_walk_is_made_of_fills(
    header: MarketStateHeader,
    is_buy: bool,
    levels: Seq<AggregatedLevel>,
    budget: u64,
)
    ensures
        ladder_walked(header, is_buy, levels, budget, 0) matches Ok(after) ==> exists|
            fills: Seq<Fill>,
        |
            {
                &&& #[trigger] is_way(fills, header, is_buy, levels, after.remaining as int)
                &&& if is_buy {
                    base_of(fills) == after.gained && quote_of(fills) == budget - after.remaining
                } else {
                    quote_of(fills) == after.gained && base_of(fills) == budget - after.remaining
                }
            },
{
    if ladder_walked(header, is_buy, levels, budget, 0) is Ok {
        let after = ladder_walked(header, is_buy, levels, budget, 0)->Ok_0;
        let fills = lemma_walk_fills(header, is_buy, levels, budget, 0);
        assert(is_way(fills, header, is_buy, levels, after.remaining as int));
    }
}

} // verus!
