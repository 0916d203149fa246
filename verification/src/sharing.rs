//! How the makers at one price share a fill: by size, rounded down, with what
//! rounding leaves going to the last of them.

use vstd::prelude::*;

use crate::error::ErrorModel;
use crate::fills::{
    distribution, law_distribution, law_part_fits, lemma_pass_spent, lemma_total_nonnegative, pass,
    share_of, smaller, spent, total,
};
use crate::ladder::{
    AggregatedLevel, at_price, best_price, better, lemma_best_price, lemma_push_level, off_price,
    sizes,
};
use crate::matching::{Progress, affordable, ladder_walked, price_cleared, worth};
use crate::state::MarketStateHeader;

verus! {

/// Whether some maker after place `i` still has a size.
pub open spec fn is_followed(s: Seq<u64>, i: int) -> bool {
    exists|j: int| i < j < s.len() && #[trigger] s[j] > 0
}

/// What the shares come to that makers gave who had `before` and have `after`: each
/// is quoted by itself.
pub open spec fn shares_worth(
    before: Seq<u64>,
    after: Seq<u64>,
    quote: spec_fn(u64) -> Result<u64, ErrorModel>,
) -> int
    decreases before.len(),
{
    if before.len() == 0 {
        0
    } else {
        let share = (before.first() - after.first()) as u64;
        (if share == 0 {
            0
        } else {
            quote(share)->Ok_0 as int
        }) + shares_worth(before.drop_first(), after.drop_first(), quote)
    }
}

/// Whether makers who had `before` and have `after` share a fill: all but the last
/// one of them give their part of it by size, rounded down, and the last gives the
/// rest, as far as it has it.
pub open spec fn is_shared(
    before: Seq<u64>,
    after: Seq<u64>,
    given: int,
    fill: int,
    all: int,
) -> bool {
    &&& after.len() == before.len()
    &&& forall|i: int| 0 <= i < before.len() ==> #[trigger] after[i] <= before[i]
    &&& forall|i: int|
        0 <= i < before.len() && is_followed(before, i) ==> {
            let share = before[i] - #[trigger] after[i];
            share * all <= fill * before[i] < (share + 1) * all
        }
    &&& forall|i: int|
        0 <= i < before.len() && before[i] > 0 && !is_followed(before, i) ==> given == fill
            || #[trigger] after[i] == 0
}

/// Makers are followed by one with a size exactly where the rest is not spent.
proof fn lemma_followed(s: Seq<u64>)
    requires
        s.len() > 0,
    ensures
        is_followed(s, 0) <==> !spent(s.drop_first()),
        forall|i: int|
            0 <= i < s.len() - 1 ==> (is_followed(s.drop_first(), i) <==> #[trigger] is_followed(
                s,
                i + 1,
            )),
{
    let rest = s.drop_first();
    if is_followed(s, 0) {
        let j = choose|j: int| 0 < j < s.len() && #[trigger] s[j] > 0;
        assert(rest[j - 1] > 0);
    }
    if !spent(rest) {
        let j = choose|j: int| 0 <= j < rest.len() && rest[j] != 0;
        assert(s[j + 1] > 0);
    }
    assert forall|i: int| 0 <= i < s.len() - 1 implies (is_followed(rest, i)
        <==> #[trigger] is_followed(s, i + 1)) by {
        if is_followed(rest, i) {
            let j = choose|j: int| i < j < rest.len() && #[trigger] rest[j] > 0;
            assert(s[j + 1] > 0);
        }
        if is_followed(s, i + 1) {
            let j = choose|j: int| i + 1 < j < s.len() && #[trigger] s[j] > 0;
            assert(rest[j - 1] > 0);
        }
    }
}

/// How a pass is shared.
proof fn lemma_pass_shared(
    s: Seq<u64>,
    given: u64,
    quoted: u64,
    fill: u64,
    all: u64,
    quote: spec_fn(u64) -> Result<u64, ErrorModel>,
)
    requires
        fill <= all,
        forall|i: int| 0 <= i < s.len() ==> #[trigger] s[i] <= all,
    ensures
        ({
            let p = pass(s, given, quoted, fill, all, quote);
            p.result matches Ok((base, worth)) ==> {
                &&& is_shared(s, p.sizes, base as int, fill as int, all as int)
                &&& worth == quoted + shares_worth(s, p.sizes, quote)
            }
        }),
    decreases s.len(),
{
    let p = pass(s, given, quoted, fill, all, quote);
    if p.result is Ok && s.len() > 0 {
        let (base, worth) = p.result->Ok_0;
        let size = s.first();
        let rest = s.drop_first();
        assert(forall|i: int| 0 <= i < rest.len() ==> #[trigger] rest[i] == s[i + 1]);
        lemma_followed(s);
        let share = if size == 0 {
            0u64
        } else {
            share_of(size, rest, given, fill, all)->Ok_0
        };
        let (g, q) = if share == 0 {
            (given, quoted)
        } else {
            ((given + share) as u64, (quoted + quote(share)->Ok_0) as u64)
        };
        let later = pass(rest, g, q, fill, all, quote);
        lemma_pass_shared(rest, g, q, fill, all, quote);
        assert(p.sizes =~= seq![(size - share) as u64] + later.sizes);
        assert(p.sizes.drop_first() =~= later.sizes);
        assert(forall|i: int| 0 < i < p.sizes.len() ==> #[trigger] p.sizes[i] == later.sizes[i - 1]);
        if !spent(rest) {
            if size > 0 {
                law_part_fits(fill, size, all);
                let part = (fill * size) / (all as int);
                assert(part <= size && part * all <= fill * size < (part + 1) * all)
                    by (nonlinear_arith)
                    requires
                        part == (fill * size) / (all as int),
                        0 < size <= all,
                        fill <= all,
                        fill >= 0,
                ;
            } else {
                assert(0 * all <= fill * size < (0 + 1) * all) by (nonlinear_arith)
                    requires
                        size == 0,
                        all > 0,
                ;
            }
        } else {
            lemma_pass_spent(rest, g, q, fill, all, quote);
        }
        let after = p.sizes;
        assert forall|i: int| 0 <= i < s.len() && is_followed(s, i) implies ({
            let share = s[i] - #[trigger] after[i];
            share * all <= fill * s[i] < (share + 1) * all
        }) by {
            if i > 0 {
                assert(is_followed(s, (i - 1) + 1));
                assert(is_followed(rest, i - 1));
                assert(after[i] == later.sizes[i - 1] && s[i] == rest[i - 1]);
            }
        }
        assert forall|i: int| 0 <= i < s.len() && s[i] > 0 && !is_followed(s, i) implies base
            == fill || #[trigger] after[i] == 0 by {
            if i > 0 {
                assert(!is_followed(s, (i - 1) + 1));
                assert(!is_followed(rest, i - 1));
                assert(after[i] == later.sizes[i - 1] && s[i] == rest[i - 1]);
            }
        }
        assert forall|i: int| 0 <= i < s.len() implies #[trigger] after[i] <= s[i] by {
            if i > 0 {
                assert(after[i] == later.sizes[i - 1] && s[i] == rest[i - 1]);
            }
        }
    }
}

/// A size is part of the sum.
proof fn lemma_size_within_total(s: Seq<u64>, i: int)
    requires
        0 <= i < s.len(),
    ensures
        s[i] <= total(s),
    decreases s.len(),
{
    lemma_total_nonnegative(s.drop_first());
    if i > 0 {
        lemma_size_within_total(s.drop_first(), i - 1);
    }
}

/// The makers at a price share a fill by their sizes, the last one takes what
/// rounding leaves, and each share is quoted by itself.
pub proof fn law_fill_is_shared_by_size(
    s: Seq<u64>,
    fill: u64,
    quote: spec_fn(u64) -> Result<u64, ErrorModel>,
)
    requires
        fill <= total(s) <= u64::MAX,
    ensures
        ({
            let d = distribution(s, fill, total(s) as u64, quote);
            d.result matches Ok((base, worth)) ==> {
                &&& is_shared(s, d.sizes, base as int, fill as int, total(s))
                &&& base == total(s) - total(d.sizes)
                &&& worth == shares_worth(s, d.sizes, quote)
            }
        }),
{
    assert forall|i: int| 0 <= i < s.len() implies #[trigger] s[i] <= total(s) as u64 by {
        lemma_size_within_total(s, i);
    }
    lemma_pass_shared(s, 0, 0, fill, total(s) as u64, quote);
    law_distribution(s, fill, quote);
}

/// A sum of nothing but zeros.
proof fn lemma_total_of_zeros(s: Seq<u64>)
    requires
        forall|i: int| 0 <= i < s.len() ==> #[trigger] s[i] == 0,
    ensures
        total(s) == 0,
    decreases s.len(),
{
    if s.len() > 0 {
        assert(s[0] == 0);
        lemma_total_of_zeros(s.drop_first());
    }
}

/// The sizes of makers who have nothing left.
pub open spec fn nothing(makers: nat) -> Seq<u64> {
    Seq::new(makers, |i: int| 0u64)
}

/// Makers who share all they have are left with nothing.
proof fn lemma_all_is_shared(s: Seq<u64>, after: Seq<u64>, base: int)
    requires
        is_shared(s, after, base, total(s), total(s)),
        base == total(s) - total(after),
        total(s) > 0,
    ensures
        after == nothing(s.len()),
{
    let t = total(s);
    assert forall|i: int| 0 <= i < s.len() && is_followed(s, i) implies #[trigger] after[i] == 0 by {
        let size = s[i] as int;
        let share = s[i] - after[i];
        assert(share == size) by (nonlinear_arith)
            requires
                share * t <= t * size < (share + 1) * t,
                t > 0,
        ;
    }
    assert forall|i: int| 0 <= i < s.len() implies #[trigger] after[i] == 0 by {
        if !is_followed(s, i) && s[i] > 0 && base == t {
            lemma_size_within_total(after, i);
        }
    }
    assert(after =~= nothing(s.len()));
}

/// A taker who can take all that is offered at a price pays or gets the worth of
/// each maker's size, each rounded by itself.
pub proof fn law_whole_price_is_worth_its_sizes(
    header: MarketStateHeader,
    is_buy: bool,
    price: u64,
    s: Seq<u64>,
    remaining: u64,
    gained: u64,
)
    requires
        0 < total(s) <= u64::MAX,
        affordable(header, is_buy, price, remaining) matches Ok(limit) && limit >= total(s),
    ensures
        price_cleared(header, is_buy, price, s, remaining, gained) matches Ok(after) ==> {
            let value = shares_worth(s, nothing(s.len()), worth(header, is_buy, price));
            if is_buy {
                after.remaining == remaining - value && after.gained == gained + total(s)
            } else {
                after.gained == gained + value && after.remaining == remaining - total(s)
            }
        },
{
    if price_cleared(header, is_buy, price, s, remaining, gained) is Ok {
        let t = total(s) as u64;
        let d = distribution(s, t, t, worth(header, is_buy, price));
        law_distribution(s, t, worth(header, is_buy, price));
        law_fill_is_shared_by_size(s, t, worth(header, is_buy, price));
        let (base, _) = d.result->Ok_0;
        lemma_all_is_shared(s, d.sizes, base as int);
        lemma_total_of_zeros(d.sizes);
        reveal_with_fuel(price_cleared, 2);
    }
}

/// Whether a pass at a price is what lies between two points of a taker's way there:
/// the makers share as much as the taker can take of what they have, and it is paid
/// for share by share.
pub open spec fn is_pass(
    header: MarketStateHeader,
    is_buy: bool,
    price: u64,
    before: Seq<u64>,
    after: Seq<u64>,
    limit: int,
    spent: int,
    got: int,
) -> bool {
    let all = total(before);
    let fill = if limit < all {
        limit
    } else {
        all
    };
    let given = all - total(after);
    let value = shares_worth(before, after, worth(header, is_buy, price));
    &&& is_shared(before, after, given, fill, all)
    &&& 0 < given <= fill
    &&& is_buy ==> spent == value && got == given
    &&& !is_buy ==> spent == given && got == value
}

/// A price is cleared pass by pass, over the makers in their order, as long as they
/// have something left and the budget buys another lot.
pub proof fn law_price_is_cleared_pass_by_pass(
    header: MarketStateHeader,
    is_buy: bool,
    price: u64,
    s: Seq<u64>,
    remaining: u64,
    gained: u64,
)
    requires
        0 < total(s) <= u64::MAX,
    ensures
        price_cleared(header, is_buy, price, s, remaining, gained) matches Ok(end) ==> {
            let limit = affordable(header, is_buy, price, remaining)->Ok_0;
            &&& affordable(header, is_buy, price, remaining) is Ok
            &&& limit == 0 ==> end.done && end.remaining == remaining && end.gained == gained
            &&& limit > 0 ==> exists|after: Seq<u64>, spent: int, got: int|
                {
                    &&& #[trigger] is_pass(
                        header,
                        is_buy,
                        price,
                        s,
                        after,
                        limit as int,
                        spent,
                        got,
                    )
                    &&& 0 <= remaining - spent
                    &&& gained + got <= u64::MAX
                    &&& price_cleared(
                        header,
                        is_buy,
                        price,
                        after,
                        (remaining - spent) as u64,
                        (gained + got) as u64,
                    ) == Ok::<Progress, ErrorModel>(end)
                }
        },
{
    if price_cleared(header, is_buy, price, s, remaining, gained) is Ok {
        let end = price_cleared(header, is_buy, price, s, remaining, gained)->Ok_0;
        let limit = affordable(header, is_buy, price, remaining)->Ok_0;
        let all = total(s) as u64;
        let fill = smaller(limit as int, all as int) as u64;
        if limit > 0 {
            let quote = worth(header, is_buy, price);
            let d = distribution(s, fill, all, quote);
            law_distribution(s, fill, quote);
            law_fill_is_shared_by_size(s, fill, quote);
            let (base, value) = d.result->Ok_0;
            let (spent, got) = if is_buy {
                (value as int, base as int)
            } else {
                (base as int, value as int)
            };
            assert(is_pass(header, is_buy, price, s, d.sizes, limit as int, spent, got));
        }
    }
}

/// The sizes of the levels at a price, in their order.
pub open spec fn sizes_at(levels: Seq<AggregatedLevel>, price: u64) -> Seq<u64>
    decreases levels.len(),
{
    if levels.len() == 0 {
        Seq::empty()
    } else {
        let before = sizes_at(levels.drop_last(), price);
        if levels.last().price_ticks == price {
            before.push(levels.last().size_base_lots)
        } else {
            before
        }
    }
}

/// The levels that are not at a price, in their order.
pub open spec fn levels_off(levels: Seq<AggregatedLevel>, price: u64) -> Seq<AggregatedLevel>
    decreases levels.len(),
{
    if levels.len() == 0 {
        Seq::empty()
    } else {
        let before = levels_off(levels.drop_last(), price);
        if levels.last().price_ticks == price {
            before
        } else {
            before.push(levels.last())
        }
    }
}

/// The levels at a price and the others keep their order.
proof fn lemma_in_their_order(levels: Seq<AggregatedLevel>, price: u64)
    ensures
        sizes(at_price(levels, price)) == sizes_at(levels, price),
        off_price(levels, price) == levels_off(levels, price),
    decreases levels.len(),
{
    reveal(Seq::filter);
    if levels.len() == 0 {
        assert(sizes(at_price(levels, price)) =~= Seq::empty());
        assert(off_price(levels, price) =~= Seq::empty());
    } else {
        let front = levels.drop_last();
        lemma_in_their_order(front, price);
        lemma_push_level(front, levels.last(), price);
        assert(front.push(levels.last()) =~= levels);
        assert(sizes(at_price(levels, price)) =~= sizes_at(levels, price));
    }
}

/// A ladder is walked price by price: a buyer with a budget clears the lowest first,
/// a seller the highest, with the makers there in the order in which they stand, and
/// then goes on with what is off that price.
pub proof fn law_ladder_is_walked_price_by_price(
    header: MarketStateHeader,
    is_buy: bool,
    levels: Seq<AggregatedLevel>,
    remaining: u64,
    gained: u64,
    k: int,
)
    requires
        remaining > 0,
        0 <= k < levels.len(),
        forall|i: int|
            0 <= i < levels.len() ==> if is_buy {
                levels[k].price_ticks <= (#[trigger] levels[i]).price_ticks
            } else {
                levels[k].price_ticks >= levels[i].price_ticks
            },
    ensures
        ({
            let price = levels[k].price_ticks;
            let walked = ladder_walked(header, is_buy, levels, remaining, gained);
            match price_cleared(
                header,
                is_buy,
                price,
                sizes_at(levels, price),
                remaining,
                gained,
            ) {
                Ok(end) => if end.done {
                    walked == Ok::<Progress, ErrorModel>(end)
                } else {
                    walked == ladder_walked(
                        header,
                        is_buy,
                        levels_off(levels, price),
                        end.remaining,
                        end.gained,
                    )
                },
                Err(e) => walked == Err::<Progress, ErrorModel>(e),
            }
        }),
{
    let price = levels[k].price_ticks;
    let best = best_price(levels, !is_buy);
    lemma_best_price(levels, !is_buy);
    let i = choose|i: int| 0 <= i < levels.len() && (#[trigger] levels[i]).price_ticks == best;
    assert(levels[i].price_ticks == best);
    assert(!better(levels[k].price_ticks, best, !is_buy));
    assert(best == price);
    lemma_in_their_order(levels, price);
}

} // verus!
