//! How a taker's budget is spent on a ladder of levels: one price after another,
//! best first, and at each price pass after pass until the makers there have
//! nothing left or the budget buys nothing more.

use vstd::prelude::*;

use crate::error::{ArcherAmmError, ErrorModel, math, math_error, outcome};
use crate::fills::{
    distribute, distribution, group_outcome, group_total, law_distribution,
    lemma_total_nonnegative, quotes_as, smaller, total,
};
use crate::ladder::{
    AggregatedLevel, at_price, best_price, copy_levels, in_order, lemma_absent_price,
    lemma_at_price_members, lemma_best_price, lemma_concat_levels, lemma_off_price,
    lemma_same_best_price, lemma_uniform_levels, off_price, same_by_price, sizes,
};
use crate::lots::{
    base_lots_for, base_to_quote_lots, quote_lots_for, quote_to_base_lots,
};
use crate::state::MarketStateHeader;

verus! {

/// How far a taker has come. A buyer spends quote lots and gains base lots, a
/// seller the other way round.
#[derive(Debug, Clone, Copy)]
pub struct Progress {
    /// What is left of the budget.
    pub remaining: u64,
    /// What it has bought so far.
    pub gained: u64,
    /// Whether the budget buys nothing more.
    pub done: bool,
}

/// The base lots that a taker can still trade at a price: what the budget buys,
/// or all that is to be sold.
pub open spec fn affordable(header: MarketStateHeader, is_buy: bool, price: u64, remaining: u64) -> Result<
    u64,
    ErrorModel,
> {
    if is_buy {
        base_lots_for(header, remaining, price, false)
    } else {
        Ok(remaining)
    }
}

/// What a fill is worth at a price: rounded up for a buyer, down for a seller.
pub open spec fn worth(header: MarketStateHeader, is_buy: bool, price: u64) -> spec_fn(u64) -> Result<
    u64,
    ErrorModel,
> {
    |share: u64| quote_lots_for(header, share, price, is_buy)
}

/// The progress after a fill of `base` lots for `quote` lots.
pub open spec fn advanced(is_buy: bool, remaining: u64, gained: u64, base: u64, quote: u64) -> Result<
    Progress,
    ErrorModel,
> {
    let paid = if is_buy {
        quote
    } else {
        base
    };
    let got = if is_buy {
        base
    } else {
        quote
    };
    if paid > remaining {
        math("remaining underflow")
    } else if gained + got > u64::MAX {
        if is_buy {
            math("base overflow")
        } else {
            math("quote overflow")
        }
    } else {
        Ok(
            Progress {
                remaining: (remaining - paid) as u64,
                gained: (gained + got) as u64,
                done: false,
            },
        )
    }
}

/// What becomes of a budget at one price, where the makers there have sizes
/// `s`: passes over them until none has anything left, or the budget does not
/// buy another lot.
pub open spec fn price_cleared(
    header: MarketStateHeader,
    is_buy: bool,
    price: u64,
    s: Seq<u64>,
    remaining: u64,
    gained: u64,
) -> Result<Progress, ErrorModel>
    decreases total(s),
{
    match group_outcome(s) {
        Err(e) => Err(e),
        Ok(all) => if all == 0 {
            Ok(Progress { remaining, gained, done: false })
        } else {
            match affordable(header, is_buy, price, remaining) {
                Err(e) => Err(e),
                Ok(limit) => {
                    let fill = smaller(limit as int, all as int) as u64;
                    if fill == 0 {
                        Ok(Progress { remaining, gained, done: true })
                    } else {
                        let d = distribution(s, fill, all, worth(header, is_buy, price));
                        proof {
                            lemma_total_nonnegative(s);
                            lemma_total_nonnegative(d.sizes);
                            law_distribution(s, fill, worth(header, is_buy, price));
                        }
                        match d.result {
                            Err(e) => Err(e),
                            Ok((base, quote)) => match advanced(
                                is_buy,
                                remaining,
                                gained,
                                base,
                                quote,
                            ) {
                                Err(e) => Err(e),
                                Ok(p) => price_cleared(
                                    header,
                                    is_buy,
                                    price,
                                    d.sizes,
                                    p.remaining,
                                    p.gained,
                                ),
                            },
                        }
                    }
                },
            }
        },
    }
}

/// What becomes of a budget on a ladder: prices are cleared best first, until
/// there are no more levels or the budget buys nothing more.
pub open spec fn ladder_walked(
    header: MarketStateHeader,
    is_buy: bool,
    levels: Seq<AggregatedLevel>,
    remaining: u64,
    gained: u64,
) -> Result<Progress, ErrorModel>
    decreases levels.len(),
{
    if levels.len() == 0 || remaining == 0 {
        Ok(Progress { remaining, gained, done: true })
    } else {
        let price = best_price(levels, !is_buy);
        match price_cleared(
            header,
            is_buy,
            price,
            sizes(at_price(levels, price)),
            remaining,
            gained,
        ) {
            Err(e) => Err(e),
            Ok(p) => if p.done {
                Ok(p)
            } else {
                proof {
                    lemma_best_price(levels, !is_buy);
                    lemma_at_price_members(levels, price);
                }
                ladder_walked(header, is_buy, off_price(levels, price), p.remaining, p.gained)
            },
        }
    }
}

/// Spends a budget on the makers at one price.
pub fn clear_price(
    header: &MarketStateHeader,
    is_buy: bool,
    price: u64,
    makers: Vec<AggregatedLevel>,
    budget: u64,
    gained_before: u64,
) -> (r: Result<Progress, ArcherAmmError>)
    ensures
        outcome(r) == price_cleared(
            *header,
            is_buy,
            price,
            sizes(makers@),
            budget,
            gained_before,
        ),
{
    let mut group: Vec<AggregatedLevel> = makers;
    let mut remaining: u64 = budget;
    let mut gained: u64 = gained_before;
    loop
        invariant
            price_cleared(*header, is_buy, price, sizes(group@), remaining, gained)
                == price_cleared(*header, is_buy, price, sizes(makers@), budget, gained_before),
        decreases total(sizes(group@)),
    {
        let ghost s = sizes(group@);
        proof {
            lemma_total_nonnegative(s);
        }
        let total_size: u64 = group_total(group.as_slice())?;
        if total_size == 0 {
            return Ok(Progress { remaining, gained, done: false });
        }
        let limit: u64 = if is_buy {
            quote_to_base_lots(header, remaining, price, false)?
        } else {
            remaining
        };
        let base_to_fill: u64 = if limit <= total_size {
            limit
        } else {
            total_size
        };
        if base_to_fill == 0 {
            return Ok(Progress { remaining, gained, done: true });
        }
        let quote_for = |share: u64| -> (q: Result<u64, ArcherAmmError>)
            ensures
                outcome(q) == quote_lots_for(*header, share, price, is_buy),
            { base_to_quote_lots(header, share, price, is_buy) };
        assert(quotes_as(quote_for, worth(*header, is_buy, price)));
        let (base, quote): (u64, u64) = distribute(
            group.as_mut_slice(),
            base_to_fill,
            total_size,
            quote_for,
        )?;
        proof {
            law_distribution(s, base_to_fill, worth(*header, is_buy, price));
            lemma_total_nonnegative(sizes(group@));
        }
        let paid: u64 = if is_buy {
            quote
        } else {
            base
        };
        let got: u64 = if is_buy {
            base
        } else {
            quote
        };
        remaining = match remaining.checked_sub(paid) {
            Some(left) => left,
            None => {
                return Err(math_error("remaining underflow"));
            },
        };
        gained = match gained.checked_add(got) {
            Some(sum) => sum,
            None => {
                return Err(
                    math_error(
                        if is_buy {
                            "base overflow"
                        } else {
                            "quote overflow"
                        },
                    ),
                );
            },
        };
    }
}

/// Ladders with the same levels at each price end a budget the same way.
pub proof fn lemma_same_walk(
    header: MarketStateHeader,
    is_buy: bool,
    a: Seq<AggregatedLevel>,
    b: Seq<AggregatedLevel>,
    remaining: u64,
    gained: u64,
)
    requires
        same_by_price(a, b),
    ensures
        ladder_walked(header, is_buy, a, remaining, gained) == ladder_walked(
            header,
            is_buy,
            b,
            remaining,
            gained,
        ),
    decreases a.len(),
{
    if a.len() == 0 {
        if b.len() > 0 {
            lemma_same_best_price(b, a, !is_buy);
        }
    } else {
        lemma_same_best_price(a, b, !is_buy);
        let price = best_price(a, !is_buy);
        assert(at_price(a, price) == at_price(b, price));
        lemma_best_price(a, !is_buy);
        lemma_at_price_members(a, price);
        assert forall|p: u64| #[trigger] at_price(off_price(a, price), p) == at_price(
            off_price(b, price),
            p,
        ) by {
            lemma_off_price(a, price, p);
            lemma_off_price(b, price, p);
            assert(at_price(a, p) == at_price(b, p));
        }
        match price_cleared(
            header,
            is_buy,
            price,
            sizes(at_price(a, price)),
            remaining,
            gained,
        ) {
            Ok(p) => {
                lemma_same_walk(
                    header,
                    is_buy,
                    off_price(a, price),
                    off_price(b, price),
                    p.remaining,
                    p.gained,
                );
            },
            Err(e) => {},
        }
    }
}

/// The front of an ordered ladder, up to where the price changes, are its
/// levels at its best price.
proof fn lemma_front_group(levels: Seq<AggregatedLevel>, bids: bool, from: int, to: int)
    requires
        in_order(levels, bids),
        0 <= from < to <= levels.len(),
        forall|k: int|
            from <= k < to ==> (#[trigger] levels[k]).price_ticks == levels[from].price_ticks,
        to < levels.len() ==> levels[to].price_ticks != levels[from].price_ticks,
    ensures
        ({
            let ahead = levels.skip(from);
            let price = levels[from].price_ticks;
            &&& best_price(ahead, bids) == price
            &&& at_price(ahead, price) == levels.subrange(from, to)
            &&& off_price(ahead, price) == levels.skip(to)
        }),
{
    let ahead = levels.skip(from);
    let price = levels[from].price_ticks;
    let group = levels.subrange(from, to);
    let rest = levels.skip(to);
    lemma_best_price(ahead, bids);
    let k = choose|k: int|
        0 <= k < ahead.len() && (#[trigger] ahead[k]).price_ticks == best_price(ahead, bids);
    assert(ahead[k] == levels[from + k]);
    assert(ahead[0] == levels[from]);
    assert forall|j: int| 0 <= j < rest.len() implies (#[trigger] rest[j]).price_ticks != price by {
        assert(rest[j] == levels[to + j]);
    }
    assert forall|j: int| 0 <= j < group.len() implies (#[trigger] group[j]).price_ticks
        == price by {
        assert(group[j] == levels[from + j]);
    }
    lemma_uniform_levels(group, price, price);
    lemma_absent_price(rest, price);
    lemma_concat_levels(group, rest, price);
    assert(group + rest =~= ahead);
    assert(group + Seq::<AggregatedLevel>::empty() =~= group);
    assert(Seq::<AggregatedLevel>::empty() + rest =~= rest);
}

/// Spends a budget on an ordered ladder.
pub fn walk_ladder(
    header: &MarketStateHeader,
    is_buy: bool,
    levels: &Vec<AggregatedLevel>,
    budget: u64,
) -> (r: Result<Progress, ArcherAmmError>)
    requires
        in_order(levels@, !is_buy),
    ensures
        outcome(r) == ladder_walked(*header, is_buy, levels@, budget, 0),
{
    let mut remaining: u64 = budget;
    let mut gained: u64 = 0;
    let mut i: usize = 0;
    assert(levels@.skip(0) =~= levels@);
    while i < levels.len() && remaining > 0
        invariant
            i <= levels.len(),
            in_order(levels@, !is_buy),
            ladder_walked(*header, is_buy, levels@.skip(i as int), remaining, gained)
                == ladder_walked(*header, is_buy, levels@, budget, 0),
        decreases levels.len() - i,
    {
        let price: u64 = levels[i].price_ticks;
        let mut group_end: usize = i + 1;
        while group_end < levels.len() && levels[group_end].price_ticks == price
            invariant
                i < group_end <= levels.len(),
                price == levels@[i as int].price_ticks,
                forall|k: int|
                    i <= k < group_end ==> (#[trigger] levels@[k]).price_ticks == price,
            decreases levels.len() - group_end,
        {
            group_end = group_end + 1;
        }
        proof {
            lemma_front_group(levels@, !is_buy, i as int, group_end as int);
        }
        let group: Vec<AggregatedLevel> = copy_levels(levels, i, group_end);
        let progress: Progress = clear_price(header, is_buy, price, group, remaining, gained)?;
        if progress.done {
            return Ok(progress);
        }
        remaining = progress.remaining;
        gained = progress.gained;
        i = group_end;
    }
    Ok(Progress { remaining, gained, done: true })
}

/// No price leaves a taker with more to spend or less in hand.
pub proof fn lemma_price_spends(
    header: MarketStateHeader,
    is_buy: bool,
    price: u64,
    s: Seq<u64>,
    remaining: u64,
    gained: u64,
)
    ensures
        price_cleared(header, is_buy, price, s, remaining, gained) matches Ok(p) ==> p.remaining
            <= remaining && p.gained >= gained,
    decreases total(s),
{
    lemma_total_nonnegative(s);
    if 0 < total(s) <= u64::MAX {
        match affordable(header, is_buy, price, remaining) {
            Ok(limit) => {
                let all = total(s) as u64;
                let fill = smaller(limit as int, all as int) as u64;
                let d = distribution(s, fill, all, worth(header, is_buy, price));
                lemma_total_nonnegative(d.sizes);
                if fill > 0 {
                    law_distribution(s, fill, worth(header, is_buy, price));
                    match d.result {
                        Ok((base, quote)) => match advanced(
                            is_buy,
                            remaining,
                            gained,
                            base,
                            quote,
                        ) {
                            Ok(p) => {
                                lemma_price_spends(
                                    header,
                                    is_buy,
                                    price,
                                    d.sizes,
                                    p.remaining,
                                    p.gained,
                                );
                            },
                            Err(e) => {},
                        },
                        Err(e) => {},
                    }
                }
            },
            Err(e) => {},
        }
    }
}

/// No ladder leaves a taker with more to spend or less in hand.
pub proof fn lemma_walk_spends(
    header: MarketStateHeader,
    is_buy: bool,
    levels: Seq<AggregatedLevel>,
    remaining: u64,
    gained: u64,
)
    ensures
        ladder_walked(header, is_buy, levels, remaining, gained) matches Ok(p) ==> p.remaining
            <= remaining && p.gained >= gained,
    decreases levels.len(),
{
    if levels.len() > 0 && remaining > 0 {
        let price = best_price(levels, !is_buy);
        let s = sizes(at_price(levels, price));
        lemma_best_price(levels, !is_buy);
        lemma_at_price_members(levels, price);
        lemma_price_spends(header, is_buy, price, s, remaining, gained);
        match price_cleared(header, is_buy, price, s, remaining, gained) {
            Ok(p) => {
                lemma_walk_spends(header, is_buy, off_price(levels, price), p.remaining, p.gained);
            },
            Err(e) => {},
        }
    }
}

} // verus!
