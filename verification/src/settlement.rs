//! What a swap is settled for: the fee on what changed hands, the part of a
//! buyer's input that leaves room for it, and what the taker is left with.

use vstd::prelude::*;

use crate::error::ErrorModel;
use crate::gathering::{
    law_every_open_level_is_met, law_some_open_level_is_an_offer, lists_all, tradable,
};
use crate::ladder::AggregatedLevel;
use crate::lots::{fee_lots, fee_outcome};
use crate::matching::{ladder_walked, lemma_walk_spends};
use crate::pubkey::Pubkey;
use crate::quote::{
    QuoteOutput, bought, buy_outcome, grossed_down, has_offer, liquidity, quote_outcome,
    sell_outcome, sold,
};
use crate::state::{MakerBook, MarketStateHeader};
use crate::trades::{
    Fill, base_at, base_of, is_way, law_walk_is_made_of_fills, offer_at, quote_of,
};

verus! {

/// Whether `fee` is the fee on `matched` lots at a rate in millionths: the first
/// whole number that is no less than the exact share, so that a fee is rounded up
/// and a rebate, which is negative, down in size.
pub open spec fn is_fee(fee: int, matched: int, ppm: int) -> bool {
    matched * ppm <= fee * 1_000_000 < matched * ppm + 1_000_000
}

/// The size of a signed number.
pub open spec fn size_of(n: int) -> int {
    if n < 0 {
        -n
    } else {
        n
    }
}

/// Whether `budget` is the part of `input` that a buyer can have matched: the
/// most that, with the exact fee on it added, is still within the input; all of
/// it where nothing is charged.
pub open spec fn is_budget(budget: int, input: int, ppm: int) -> bool {
    if ppm > 0 {
        budget * (1_000_000 + ppm) <= input * 1_000_000 < (budget + 1) * (1_000_000 + ppm)
    } else {
        budget == input
    }
}

/// Whether `output` settles a purchase made of these fills, with `unspent` left
/// of the matched part of the input: the base lots that were filled, in atoms, and the
/// fee on the quote lots that were paid for them, in atoms.
pub open spec fn settles_purchase(
    output: QuoteOutput,
    fills: Seq<Fill>,
    unspent: int,
    fee: int,
    input: u64,
    header: MarketStateHeader,
    asks: Seq<AggregatedLevel>,
    ppm: i32,
) -> bool {
    &&& is_way(fills, header, true, asks, unspent)
    &&& 0 <= unspent
    &&& is_budget(quote_of(fills) + unspent, input as int, ppm as int)
    &&& is_fee(fee, quote_of(fills), ppm as int)
    &&& quote_of(fills) + fee <= input
    &&& output.out_amount == base_of(fills) * header.base_atoms_per_base_lot
    &&& output.fee_amount == size_of(fee) * header.quote_atoms_per_quote_lot
}

/// Whether `output` settles a sale made of these fills, with `unspent` of the
/// input not sold: the quote lots that were paid for them less the fee on them,
/// and the fee, both in atoms.
pub open spec fn settles_sale(
    output: QuoteOutput,
    fills: Seq<Fill>,
    unspent: int,
    fee: int,
    input: u64,
    header: MarketStateHeader,
    bids: Seq<AggregatedLevel>,
    ppm: i32,
) -> bool {
    &&& is_way(fills, header, false, bids, unspent)
    &&& 0 <= unspent
    &&& base_of(fills) + unspent == input
    &&& is_fee(fee, quote_of(fills), ppm as int)
    &&& output.out_amount == (quote_of(fills) - fee) * header.quote_atoms_per_quote_lot
    &&& output.fee_amount == size_of(fee) * header.quote_atoms_per_quote_lot
}

/// The fee on matched lots is their share rounded up, there is one such number,
/// and it is given exactly where it fits in `i64`.
pub proof fn law_fee_is_the_share(matched: u64, ppm: i32)
    ensures
        fee_outcome(matched, ppm) matches Ok(fee) ==> is_fee(fee as int, matched as int, ppm as int),
        forall|fee: int| #[trigger]
            is_fee(fee, matched as int, ppm as int) ==> {
                &&& fee_outcome(matched, ppm) is Ok <==> i64::MIN <= fee <= i64::MAX
                &&& fee_outcome(matched, ppm) matches Ok(given) ==> given == fee
            },
{
    let raw = matched * ppm;
    let fee = fee_lots(matched as int, ppm as int);
    if raw > 0 {
        assert(fee == (raw + 999_999) / 1_000_000);
    } else {
        assert(fee == -((-raw) / 1_000_000));
    }
    assert(is_fee(fee, matched as int, ppm as int));
}

/// The matched part of a buyer's input is the most for which the input still
/// holds the fee.
pub proof fn law_budget_is_what_fits(input: u64, ppm: i32)
    ensures
        is_budget(grossed_down(input, ppm) as int, input as int, ppm as int),
        ppm >= 0 ==> forall|matched: int, fee: int| #[trigger]
            is_fee(fee, matched, ppm as int) && 0 <= matched ==> (matched + fee <= input
                <==> matched <= grossed_down(input, ppm)),
{
    let budget = grossed_down(input, ppm) as int;
    if ppm > 0 {
        let n = input * 1_000_000;
        let d = 1_000_000 + ppm;
        let q = n / d;
        assert(0 <= q <= input && q * d <= n < (q + 1) * d) by (nonlinear_arith)
            requires
                q == n / d,
                n == input * 1_000_000,
                d > 1_000_000,
                input >= 0,
        ;
        assert(budget == q);
    }
    if ppm >= 0 {
        assert forall|matched: int, fee: int| #[trigger]
            is_fee(fee, matched, ppm as int) && 0 <= matched implies (matched + fee <= input
            <==> matched <= budget) by {
            let p = ppm as int;
            if ppm > 0 {
                assert(matched * (1_000_000 + p) == matched * 1_000_000 + matched * p)
                    by (nonlinear_arith);
                if matched <= budget {
                    assert(matched * (1_000_000 + p) <= budget * (1_000_000 + p))
                        by (nonlinear_arith)
                        requires
                            matched <= budget,
                            p > 0,
                    ;
                } else {
                    assert(matched * (1_000_000 + p) >= (budget + 1) * (1_000_000 + p))
                        by (nonlinear_arith)
                        requires
                            matched >= budget + 1,
                            p > 0,
                    ;
                }
            } else {
                assert(matched * p == 0) by (nonlinear_arith)
                    requires
                        p == 0,
                ;
            }
        }
    }
}

/// A rebate never exceeds what it is given on.
proof fn lemma_purchase_fits(input: u64, matched: int, fee: int, ppm: i32)
    requires
        0 <= matched <= grossed_down(input, ppm),
        is_fee(fee, matched, ppm as int),
    ensures
        matched + fee <= input,
{
    law_budget_is_what_fits(input, ppm);
    if ppm < 0 {
        assert(matched * ppm <= 0) by (nonlinear_arith)
            requires
                matched >= 0,
                ppm < 0,
        ;
    }
}

/// Every purchase that is quoted is made of fills on the asks, and settled on
/// them: the fee is that on the quote lots that changed hands, not on the
/// input or any other part of it.
pub proof fn law_purchase_is_settled_on_its_fills(
    input: u64,
    header: MarketStateHeader,
    asks: Seq<AggregatedLevel>,
    ppm: i32,
)
    ensures
        buy_outcome(input, header, asks, ppm) matches Ok(output) ==> exists|
            fills: Seq<Fill>,
            unspent: int,
            fee: int,
        | #[trigger]
            settles_purchase(output, fills, unspent, fee, input, header, asks, ppm),
{
    if buy_outcome(input, header, asks, ppm) is Ok {
        let output = buy_outcome(input, header, asks, ppm)->Ok_0;
        let budget = grossed_down(input, ppm);
        law_walk_is_made_of_fills(header, true, asks, budget);
        lemma_walk_spends(header, true, asks, budget, 0);
        let after = ladder_walked(header, true, asks, budget, 0)->Ok_0;
        let unspent = after.remaining as int;
        let fills = choose|fills: Seq<Fill>|
            {
                &&& #[trigger] is_way(fills, header, true, asks, unspent)
                &&& base_of(fills) == after.gained && quote_of(fills) == budget - unspent
            };
        let matched = (budget - after.remaining) as u64;
        law_fee_is_the_share(matched, ppm);
        law_budget_is_what_fits(input, ppm);
        let fee = fee_outcome(matched, ppm)->Ok_0 as int;
        lemma_purchase_fits(input, matched as int, fee, ppm);
        assert(settles_purchase(output, fills, unspent, fee, input, header, asks, ppm));
    }
}

/// Every sale that is quoted is made of fills on the bids, and settled on them.
pub proof fn law_sale_is_settled_on_its_fills(
    input: u64,
    header: MarketStateHeader,
    bids: Seq<AggregatedLevel>,
    ppm: i32,
)
    ensures
        sell_outcome(input, header, bids, ppm) matches Ok(output) ==> exists|
            fills: Seq<Fill>,
            unspent: int,
            fee: int,
        | #[trigger]
            settles_sale(output, fills, unspent, fee, input, header, bids, ppm),
{
    if sell_outcome(input, header, bids, ppm) is Ok {
        let output = sell_outcome(input, header, bids, ppm)->Ok_0;
        law_walk_is_made_of_fills(header, false, bids, input);
        let after = ladder_walked(header, false, bids, input, 0)->Ok_0;
        let unspent = after.remaining as int;
        let fills = choose|fills: Seq<Fill>|
            {
                &&& #[trigger] is_way(fills, header, false, bids, unspent)
                &&& quote_of(fills) == after.gained && base_of(fills) == input - unspent
            };
        law_fee_is_the_share(after.gained, ppm);
        let fee = fee_outcome(after.gained, ppm)->Ok_0 as int;
        assert(settles_sale(output, fills, unspent, fee, input, header, bids, ppm));
    }
}

/// A settled purchase is refused exactly where a number leaves its range: the fee
/// that of `i64`, the base atoms or the fee's atoms that of `u64`.
pub proof fn law_when_a_purchase_settles(
    header: MarketStateHeader,
    matched: u64,
    base: u64,
    ppm: i32,
    fee: int,
)
    requires
        is_fee(fee, matched as int, ppm as int),
    ensures
        bought(header, matched, base, ppm) is Ok <==> {
            &&& i64::MIN <= fee <= i64::MAX
            &&& base * header.base_atoms_per_base_lot <= u64::MAX
            &&& size_of(fee) * header.quote_atoms_per_quote_lot <= u64::MAX
        },
        bought(header, matched, base, ppm) matches Ok(output) ==> {
            &&& output.out_amount == base * header.base_atoms_per_base_lot
            &&& output.fee_amount == size_of(fee) * header.quote_atoms_per_quote_lot
        },
{
    law_fee_is_the_share(matched, ppm);
    lemma_atoms(base as int, header.base_atoms_per_base_lot);
    lemma_atoms(size_of(fee), header.quote_atoms_per_quote_lot);
}

/// A settled sale is refused exactly where the fee exceeds what was matched, or a
/// number leaves its range: the fee that of `i64`, what is left or its atoms or
/// the fee's that of `u64`.
pub proof fn law_when_a_sale_settles(
    header: MarketStateHeader,
    matched: u64,
    ppm: i32,
    fee: int,
)
    requires
        is_fee(fee, matched as int, ppm as int),
    ensures
        sold(header, matched, ppm) is Ok <==> {
            &&& i64::MIN <= fee <= i64::MAX
            &&& 0 <= matched - fee <= u64::MAX
            &&& (matched - fee) * header.quote_atoms_per_quote_lot <= u64::MAX
            &&& size_of(fee) * header.quote_atoms_per_quote_lot <= u64::MAX
        },
        sold(header, matched, ppm) matches Ok(output) ==> {
            &&& output.out_amount == (matched - fee) * header.quote_atoms_per_quote_lot
            &&& output.fee_amount == size_of(fee) * header.quote_atoms_per_quote_lot
        },
{
    law_fee_is_the_share(matched, ppm);
    if matched >= fee {
        lemma_atoms(matched - fee, header.quote_atoms_per_quote_lot);
    }
    lemma_atoms(size_of(fee), header.quote_atoms_per_quote_lot);
}

/// Lots come to no negative atoms.
proof fn lemma_atoms(lots: int, per_lot: u64)
    requires
        lots >= 0,
    ensures
        lots * per_lot >= 0,
{
    assert(lots * per_lot >= 0) by (nonlinear_arith)
        requires
            lots >= 0,
            per_lot >= 0,
    ;
}

/// Where no one offers anything, nothing is a taker's whole way.
proof fn lemma_no_way(header: MarketStateHeader, is_buy: bool, unspent: int)
    ensures
        is_way(Seq::empty(), header, is_buy, Seq::empty(), unspent),
{
    assert forall|p: u64| #[trigger]
        base_at(Seq::<Fill>::empty(), p) == 0 && offer_at(Seq::<AggregatedLevel>::empty(), p)
            == 0 by {}
}

/// A market that does not trade gives nothing and charges nothing. On one that
/// does, whatever is quoted is settled on fills: a purchase takes the asks of the
/// books that take part, from the lowest price up, a sale their bids, from the
/// highest down, and the fee is at the market's rate on the quote lots that
/// changed hands.
pub proof fn law_quote_is_settled_on_its_fills(
    input: u64,
    is_buy: bool,
    header: MarketStateHeader,
    books: Seq<(Pubkey, MakerBook)>,
    slot: u64,
    taker: Option<&Pubkey>,
)
    requires
        books.len() <= usize::MAX,
    ensures
        header.status != 0 ==> quote_outcome(input, is_buy, header, books, slot, taker) == Ok::<
            QuoteOutput,
            ErrorModel,
        >(QuoteOutput { out_amount: 0, fee_amount: 0 }),
        header.status == 0 && is_buy ==> (quote_outcome(
            input,
            is_buy,
            header,
            books,
            slot,
            taker,
        ) matches Ok(output) ==> exists|fills: Seq<Fill>, unspent: int, fee: int| #[trigger]
            settles_purchase(
                output,
                fills,
                unspent,
                fee,
                input,
                header,
                liquidity(books, false, slot, taker, header.maker_fee_ppm),
                header.taker_fee_ppm,
            )),
        header.status == 0 && !is_buy ==> (quote_outcome(
            input,
            is_buy,
            header,
            books,
            slot,
            taker,
        ) matches Ok(output) ==> exists|fills: Seq<Fill>, unspent: int, fee: int| #[trigger]
            settles_sale(
                output,
                fills,
                unspent,
                fee,
                input,
                header,
                liquidity(books, true, slot, taker, header.maker_fee_ppm),
                header.taker_fee_ppm,
            )),
        quote_outcome(input, is_buy, header, books, slot, taker) is Err ==> input > 0 && liquidity(
            books,
            !is_buy,
            slot,
            taker,
            header.maker_fee_ppm,
        ).len() > 0,
{
    let maker_ppm = header.maker_fee_ppm;
    let ppm = header.taker_fee_ppm;
    let bids = !is_buy;
    let levels = liquidity(books, bids, slot, taker, maker_ppm);
    let none = Seq::<Fill>::empty();
    law_every_open_level_is_met(books, bids, slot, taker, maker_ppm);
    law_some_open_level_is_an_offer(books, bids, slot, taker, maker_ppm);
    let at = choose|at: Seq<(int, int)>| #[trigger]
        lists_all(at, levels, books, bids, slot, taker, maker_ppm);
    if levels.len() > 0 {
        assert(tradable(books, at[0].0, at[0].1, bids, slot, taker, maker_ppm));
    } else {
        assert forall|m: int, i: int| !#[trigger]
            tradable(books, m, i, bids, slot, taker, maker_ppm) by {
            if tradable(books, m, i, bids, slot, taker, maker_ppm) {
                assert(at.contains((m, i)));
            }
        }
        assert(levels =~= Seq::empty());
        lemma_no_way(header, is_buy, input as int);
    }
    if header.status == 0 {
        let output = QuoteOutput { out_amount: 0, fee_amount: 0 };
        law_budget_is_what_fits(input, ppm);
        let budget = grossed_down(input, ppm) as int;
        if is_buy {
            assert(levels == liquidity(books, false, slot, taker, header.maker_fee_ppm));
        } else {
            assert(levels == liquidity(books, true, slot, taker, header.maker_fee_ppm));
        }
        if input == 0 {
            lemma_nothing_done(header, is_buy, levels);
        } else if levels.len() == 0 {
            lemma_no_way(header, is_buy, budget);
        } else if is_buy {
            assert(has_offer(books, bids, slot, taker, maker_ppm));
            law_purchase_is_settled_on_its_fills(input, header, levels, ppm);
            assert(quote_outcome(input, is_buy, header, books, slot, taker) == buy_outcome(
                input,
                header,
                levels,
                ppm,
            ));
        } else {
            assert(has_offer(books, bids, slot, taker, maker_ppm));
            law_sale_is_settled_on_its_fills(input, header, levels, ppm);
            assert(quote_outcome(input, is_buy, header, books, slot, taker) == sell_outcome(
                input,
                header,
                levels,
                ppm,
            ));
        }
        if input == 0 || levels.len() == 0 {
            assert(0 * ppm == 0 && 0int * header.base_atoms_per_base_lot == 0 && 0int
                * header.quote_atoms_per_quote_lot == 0) by (nonlinear_arith);
            assert(is_fee(0, 0, ppm as int));
            assert(quote_outcome(input, is_buy, header, books, slot, taker) == Ok::<
                QuoteOutput,
                ErrorModel,
            >(output));
            let given = quote_outcome(input, is_buy, header, books, slot, taker)->Ok_0;
            assert(given == output);
            if is_buy {
                assert(settles_purchase(given, none, budget, 0, input, header, levels, ppm));
            } else {
                assert(settles_sale(given, none, input as int, 0, input, header, levels, ppm));
            }
        }
    }
}

/// A taker who has nothing goes nowhere.
proof fn lemma_nothing_done(
    header: MarketStateHeader,
    is_buy: bool,
    levels: Seq<AggregatedLevel>,
)
    ensures
        is_way(Seq::empty(), header, is_buy, levels, 0),
{
    assert forall|p: u64| #[trigger]
        base_at(Seq::<Fill>::empty(), p) == 0 && offer_at(levels, p) >= 0 by {
        lemma_offer_nonnegative(levels, p);
    }
}

/// No offer is negative.
pub proof fn lemma_offer_nonnegative(levels: Seq<AggregatedLevel>, price: u64)
    ensures
        offer_at(levels, price) >= 0,
    decreases levels.len(),
{
    if levels.len() > 0 {
        lemma_offer_nonnegative(levels.drop_last(), price);
    }
}

} // verus!
