//! What holds of swaps as a whole: laws that tie several functions, or several
//! calls of one function, together.

use vstd::prelude::*;

use crate::amm::{ArcherAmm, Fits, book_metas, books_at, header_after, keys_after};
use crate::error::ErrorModel;
use crate::fills::{distribution, law_distribution, lemma_total_nonnegative, smaller, total};
use crate::ladder::{
    AggregatedLevel, at_price, best_price, lemma_at_price_members, lemma_best_price,
    lemma_push_level, off_price, sizes,
};
use crate::lots::fee_lots;
use crate::matching::{
    Progress, advanced, affordable, ladder_walked, lemma_walk_spends, price_cleared, worth,
};
use crate::pubkey::Pubkey;
use crate::quote::{
    book_levels, eligible, gathered, grossed_down, has_offer, liquidity, offered, open_to, side,
    sold,
};
use crate::router::{Clock, KeyedAccount, SwapParams, found};
use crate::sdk::{in_sync, priceable, resting_price};
use crate::state::{MAX_LEVELS, MakerBook, MakerLevel, MarketStateHeader, PPM_DIVISOR};
use crate::token::TransferFee;

verus! {

/// The base lots that changed hands between two points of a taker's way.
pub open spec fn traded(is_buy: bool, remaining: u64, gained: u64, after: Progress) -> int {
    if is_buy {
        after.gained - gained
    } else {
        remaining - after.remaining
    }
}

/// A price is left only when it has nothing more to give: either every maker
/// there is filled to the last lot, or what is left of the budget does not buy
/// another one. Rounding within a pass never sends a taker on to a worse price.
pub proof fn law_price_is_exhausted(
    header: MarketStateHeader,
    is_buy: bool,
    price: u64,
    s: Seq<u64>,
    remaining: u64,
    gained: u64,
)
    ensures
        price_cleared(header, is_buy, price, s, remaining, gained) matches Ok(after) ==> {
            let base = traded(is_buy, remaining, gained, after);
            &&& 0 <= base <= total(s)
            &&& !after.done ==> base == total(s)
            &&& after.done ==> base < total(s) && affordable(
                header,
                is_buy,
                price,
                after.remaining,
            ) == Ok::<u64, ErrorModel>(0)
        },
    decreases total(s),
{
    lemma_total_nonnegative(s);
    if 0 < total(s) <= u64::MAX {
        match affordable(header, is_buy, price, remaining) {
            Ok(limit) => {
                let all = total(s) as u64;
                let fill = smaller(limit as int, all as int) as u64;
                let d = distribution(s, fill, all, worth(header, is_buy, price));
                lemma_total_nonnegative(d.sizes);
                if fill > 0 {
                    law_distribution(s, fill, worth(header, is_buy, price));
                    match d.result {
                        Ok((base, quote)) => match advanced(
                            is_buy,
                            remaining,
                            gained,
                            base,
                            quote,
                        ) {
                            Ok(p) => {
                                law_price_is_exhausted(
                                    header,
                                    is_buy,
                                    price,
                                    d.sizes,
                                    p.remaining,
                                    p.gained,
                                );
                            },
                            Err(e) => {},
                        },
                        Err(e) => {},
                    }
                }
            },
            Err(e) => {},
        }
    }
}

/// The fee is the exact fee rounded up, and a rebate the exact rebate rounded
/// down: either way by less than one lot, and never in the taker's favour.
pub proof fn law_fee_rounding(quote_lots: u64, fee_ppm: i32)
    ensures
        ({
            let exact = quote_lots * fee_ppm;
            let fee = fee_lots(quote_lots as int, fee_ppm as int);
            &&& exact <= fee * PPM_DIVISOR < exact + PPM_DIVISOR
            &&& fee_ppm >= 0 ==> fee >= 0
            &&& fee_ppm <= 0 ==> fee <= 0
        }),
{
    let exact = quote_lots * fee_ppm;
    assert(fee_ppm >= 0 ==> exact >= 0) by (nonlinear_arith)
        requires
            exact == quote_lots * fee_ppm,
            quote_lots >= 0,
    ;
    assert(fee_ppm <= 0 ==> exact <= 0) by (nonlinear_arith)
        requires
            exact == quote_lots * fee_ppm,
            quote_lots >= 0,
    ;
}

/// What a buyer matches and the fee on it never come to more than the input.
pub proof fn law_buy_stays_within_input(
    input: u64,
    header: MarketStateHeader,
    asks: Seq<AggregatedLevel>,
    fee_ppm: i32,
)
    ensures
        ladder_walked(header, true, asks, grossed_down(input, fee_ppm), 0) matches Ok(after) ==> {
            let matched = grossed_down(input, fee_ppm) - after.remaining;
            matched >= 0 && matched + fee_lots(matched, fee_ppm as int) <= input
        },
{
    let budget = grossed_down(input, fee_ppm);
    lemma_walk_spends(header, true, asks, budget, 0);
    match ladder_walked(header, true, asks, budget, 0) {
        Ok(after) => {
            let matched = (budget - after.remaining) as u64;
            law_fee_rounding(matched, fee_ppm);
            let fee = fee_lots(matched as int, fee_ppm as int);
            if fee_ppm > 0 {
                let ppm = 1_000_000int;
                let d = ppm + fee_ppm;
                assert(0 <= (input * ppm) / d <= input && ((input * ppm) / d) * d <= input * ppm)
                    by (nonlinear_arith)
                    requires
                        d > ppm,
                        ppm == 1_000_000,
                        input >= 0,
                ;
                assert((matched + fee) * ppm < (input + 1) * ppm) by (nonlinear_arith)
                    requires
                        fee * ppm < matched * fee_ppm + ppm,
                        matched <= budget,
                        budget * d <= input * ppm,
                        d == ppm + fee_ppm,
                        d > 0,
                ;
            }
        },
        Err(e) => {},
    }
}

/// A seller's output and the fee on it come to exactly what was matched; a
/// rebate comes on top of it.
pub proof fn law_sale_adds_up(header: MarketStateHeader, quote_lots: u64, fee_ppm: i32)
    ensures
        sold(header, quote_lots, fee_ppm) matches Ok(output) ==> {
            let matched = quote_lots * header.quote_atoms_per_quote_lot;
            if fee_ppm >= 0 {
                output.out_amount + output.fee_amount == matched
            } else {
                output.out_amount == matched + output.fee_amount
            }
        },
{
    law_fee_rounding(quote_lots, fee_ppm);
    let fee = fee_lots(quote_lots as int, fee_ppm as int);
    let per_lot = header.quote_atoms_per_quote_lot as int;
    assert((quote_lots - fee) * per_lot + fee * per_lot == quote_lots * per_lot)
        by (nonlinear_arith);
    assert((quote_lots - fee) * per_lot == quote_lots * per_lot + (-fee) * per_lot)
        by (nonlinear_arith);
}

/// A rate of at most the whole never charges more than the amount.
pub proof fn law_transfer_fee_within_amount(fee: TransferFee, amount: u64)
    requires
        fee.transfer_fee_basis_points <= 10_000,
    ensures
        fee.on(amount) matches Some(charged) && charged <= amount,
{
    let bps = fee.transfer_fee_basis_points as int;
    assert(0 <= amount * bps <= amount * 10_000) by (nonlinear_arith)
        requires
            0 <= bps <= 10_000,
            amount >= 0,
    ;
}

/// A book's offered levels are those levels of it, at their prices.
proof fn lemma_book_levels(levels: Seq<MakerLevel>, n: int, mid: u64, maker: usize)
    requires
        0 <= n <= levels.len(),
    ensures
        forall|k: int|
            0 <= k < book_levels(levels, n, mid, maker).len() ==> offered_by(
                #[trigger] book_levels(levels, n, mid, maker)[k],
                levels,
                mid,
            ) && book_levels(levels, n, mid, maker)[k].maker_index == maker,
        book_levels(levels, n, mid, maker).len() > 0 <==> exists|j: int|
            0 <= j < n && offered(#[trigger] levels[j], mid),
    decreases n,
{
    if n > 0 {
        lemma_book_levels(levels, n - 1, mid, maker);
        let last = levels[n - 1];
        if offered(last, mid) {
            let level = AggregatedLevel {
                price_ticks: resting_price(last, mid)->0,
                size_base_lots: last.size_in_base_lots,
                maker_index: maker,
            };
            assert(offered_by(level, levels, mid));
        }
    }
}

/// Whether a gathered level is one of `levels`, at the price at which it rests.
pub open spec fn offered_by(level: AggregatedLevel, levels: Seq<MakerLevel>, mid: u64) -> bool {
    exists|j: int|
        0 <= j < levels.len() && offered(#[trigger] levels[j], mid) && level.size_base_lots
            == levels[j].size_in_base_lots && resting_price(levels[j], mid) == Some(
            level.price_ticks,
        )
}

/// What is gathered from the first books is of those books.
proof fn lemma_gathered(
    books: Seq<(Pubkey, MakerBook)>,
    n: int,
    bids: bool,
    slot: u64,
    taker: Option<&Pubkey>,
    maker_fee_ppm: i32,
)
    requires
        0 <= n <= books.len() <= usize::MAX,
    ensures
        forall|k: int|
            0 <= k < gathered(books, n, bids, slot, taker, maker_fee_ppm).len() ==> {
                let level = #[trigger] gathered(books, n, bids, slot, taker, maker_fee_ppm)[k];
                let book = books[level.maker_index as int].1;
                &&& level.maker_index < n
                &&& eligible(book, slot, taker, maker_fee_ppm)
                &&& offered_by(level, side(book, bids), book.mid_price_ticks)
            },
    decreases n,
{
    if n > 0 {
        lemma_gathered(books, n - 1, bids, slot, taker, maker_fee_ppm);
        let book = books[n - 1].1;
        let all = gathered(books, n, bids, slot, taker, maker_fee_ppm);
        let before = gathered(books, n - 1, bids, slot, taker, maker_fee_ppm);
        let own = book_levels(
            side(book, bids),
            MAX_LEVELS as int,
            book.mid_price_ticks,
            (n - 1) as usize,
        );
        lemma_book_levels(
            side(book, bids),
            MAX_LEVELS as int,
            book.mid_price_ticks,
            (n - 1) as usize,
        );
        assert forall|k: int| 0 <= k < all.len() implies {
            let level = #[trigger] all[k];
            let maker = books[level.maker_index as int].1;
            &&& level.maker_index < n
            &&& eligible(maker, slot, taker, maker_fee_ppm)
            &&& offered_by(level, side(maker, bids), maker.mid_price_ticks)
        } by {
            if k < before.len() {
                assert(all[k] == before[k]);
            } else {
                assert(all[k] == own[k - before.len()]);
            }
        }
    }
}

/// Every level that a taker meets is an open level of an eligible book, at the
/// price at which it rests there. In particular none is of a book that the
/// taker may act for.
pub proof fn law_levels_are_of_eligible_books(
    books: Seq<(Pubkey, MakerBook)>,
    bids: bool,
    slot: u64,
    taker: Option<&Pubkey>,
    maker_fee_ppm: i32,
)
    requires
        books.len() <= usize::MAX,
    ensures
        forall|k: int|
            0 <= k < liquidity(books, bids, slot, taker, maker_fee_ppm).len() ==> {
                let level = #[trigger] liquidity(books, bids, slot, taker, maker_fee_ppm)[k];
                let book = books[level.maker_index as int].1;
                &&& level.maker_index < books.len()
                &&& eligible(book, slot, taker, maker_fee_ppm)
                &&& offered_by(level, side(book, bids), book.mid_price_ticks)
                &&& taker matches Some(key) ==> !book.authorizes(*key)
            },
{
    lemma_gathered(books, books.len() as int, bids, slot, taker, maker_fee_ppm);
}

/// A taker meets some level exactly where some eligible book has one open.
pub proof fn law_liquidity_is_what_is_gathered(
    books: Seq<(Pubkey, MakerBook)>,
    bids: bool,
    slot: u64,
    taker: Option<&Pubkey>,
    maker_fee_ppm: i32,
)
    ensures
        has_offer(books, bids, slot, taker, maker_fee_ppm) <==> liquidity(
            books,
            bids,
            slot,
            taker,
            maker_fee_ppm,
        ).len() > 0,
{
    lemma_some_gathered(books, books.len() as int, bids, slot, taker, maker_fee_ppm);
}

/// Something is gathered from the first books exactly where one of them offers
/// something.
proof fn lemma_some_gathered(
    books: Seq<(Pubkey, MakerBook)>,
    n: int,
    bids: bool,
    slot: u64,
    taker: Option<&Pubkey>,
    maker_fee_ppm: i32,
)
    requires
        0 <= n <= books.len(),
    ensures
        gathered(books, n, bids, slot, taker, maker_fee_ppm).len() > 0 <==> exists|m: int, i: int|
            0 <= m < n && 0 <= i < MAX_LEVELS && eligible(books[m].1, slot, taker, maker_fee_ppm)
                && offered(#[trigger] side(books[m].1, bids)[i], books[m].1.mid_price_ticks),
    decreases n,
{
    if n > 0 {
        lemma_some_gathered(books, n - 1, bids, slot, taker, maker_fee_ppm);
        let book = books[n - 1].1;
        lemma_book_levels(
            side(book, bids),
            MAX_LEVELS as int,
            book.mid_price_ticks,
            (n - 1) as usize,
        );
    }
}

/// The book accounts of a swap are those of loaded books.
proof fn lemma_book_metas(
    books: Seq<(Pubkey, MakerBook)>,
    n: int,
    slot: u64,
    maker_fee_ppm: i32,
)
    requires
        0 <= n <= books.len(),
    ensures
        book_metas(books, n, slot, maker_fee_ppm).len() <= n,
        forall|k: int|
            0 <= k < book_metas(books, n, slot, maker_fee_ppm).len() ==> exists|i: int|
                0 <= i < n && (#[trigger] books[i]).0 == (#[trigger] book_metas(
                    books,
                    n,
                    slot,
                    maker_fee_ppm,
                )[k]).pubkey,
    decreases n,
{
    if n > 0 {
        lemma_book_metas(books, n - 1, slot, maker_fee_ppm);
        let all = book_metas(books, n, slot, maker_fee_ppm);
        let before = book_metas(books, n - 1, slot, maker_fee_ppm);
        assert forall|k: int| 0 <= k < all.len() implies exists|i: int|
            0 <= i < n && (#[trigger] books[i]).0 == (#[trigger] all[k]).pubkey by {
            if k < before.len() {
                assert(all[k] == before[k]);
                let i = choose|i: int|
                    0 <= i < n - 1 && (#[trigger] books[i]).0 == before[k].pubkey;
                assert(books[i].0 == all[k].pubkey);
            } else {
                assert(books[n - 1].0 == all[k].pubkey);
            }
        }
    }
}

/// A swap touches no more accounts than a router is told of, and every book
/// among them is one that is loaded.
pub proof fn law_swap_accounts_fit(amm: ArcherAmm, params: SwapParams, clock: Clock)
    requires
        amm.market_header is Some,
    ensures
        ({
            let header = amm.market_header->0;
            let books = amm.maker_books@;
            let touched = book_metas(books, books.len() as int, clock.slot, header.maker_fee_ppm);
            &&& (amm.fixed_metas(header, params) + touched).len() <= 11 + books.len()
            &&& forall|k: int|
                0 <= k < touched.len() ==> exists|i: int|
                    0 <= i < books.len() && (#[trigger] books[i]).0 == (
                    #[trigger] touched[k]).pubkey
        }),
{
    let books = amm.maker_books@;
    lemma_book_metas(
        books,
        books.len() as int,
        clock.slot,
        amm.market_header->0.maker_fee_ppm,
    );
}

/// Looking at the same accounts a second time changes nothing more.
pub proof fn law_update_is_idempotent(
    before: ArcherAmm,
    once: ArcherAmm,
    twice: ArcherAmm,
    accounts: Seq<KeyedAccount>,
    fits: Fits,
)
    requires
        once.updated_from(before, accounts, fits),
    ensures
        header_after(once, accounts, fits.market) == Some(once.market_header),
        twice.updated_from(once, accounts, fits) ==> {
            &&& twice.market_key == once.market_key
            &&& twice.registry_key == once.registry_key
            &&& twice.market_header == once.market_header
            &&& twice.maker_book_keys@ == once.maker_book_keys@
            &&& twice.maker_books@ == once.maker_books@
            &&& twice.base_token_program == once.base_token_program
            &&& twice.quote_token_program == once.quote_token_program
            &&& twice.base_mint_data@ == once.base_mint_data@
            &&& twice.quote_mint_data@ == once.quote_mint_data@
            &&& twice.builder_fee_wallet == once.builder_fee_wallet
        },
{
}

/// An update depends on nothing but the accounts at the addresses that it looks
/// at, and on how their bytes lie.
pub proof fn law_update_looks_at_few_accounts(
    before: ArcherAmm,
    after: ArcherAmm,
    a: Seq<KeyedAccount>,
    b: Seq<KeyedAccount>,
    fits: Fits,
)
    requires
        forall|key: Pubkey| #[trigger]
            before.looked_at(a).contains(key) ==> found(a, key) == found(b, key),
    ensures
        after.updated_from(before, a, fits) <==> after.updated_from(before, b, fits),
        header_after(before, a, fits.market) == header_after(before, b, fits.market),
        before.looked_at(a) == before.looked_at(b),
{
    let keys = before.looked_at(a);
    assert(keys[0] == before.market_key);
    assert(keys[1] == before.registry_key);
    assert(keys.contains(before.market_key));
    assert(keys.contains(before.registry_key));
    let books = keys_after(before, a);
    match header_after(before, a, true) {
        Some(Some(h)) => {
            assert(keys[2] == h.base_mint);
            assert(keys[3] == h.quote_mint);
            assert(keys.contains(h.base_mint));
            assert(keys.contains(h.quote_mint));
        },
        _ => {},
    }
    assert forall|i: int| 0 <= i < books.len() implies found(a, #[trigger] books[i]) == found(
        b,
        books[i],
    ) by {
        assert(keys[keys.len() - books.len() + i] == books[i]);
        assert(keys.contains(books[i]));
    }
    assert(books_at(a, books, fits.books) =~= books_at(b, books, fits.books));
}

/// A book that is in sync with its balances takes part wherever it is open to
/// the taker, whatever it has promised and whatever the fee.
pub proof fn law_books_in_sync_are_funded(
    book: MakerBook,
    slot: u64,
    taker: Option<&Pubkey>,
    maker_fee_ppm: i32,
)
    requires
        in_sync(book),
    ensures
        eligible(book, slot, taker, maker_fee_ppm) == open_to(book, slot, taker),
{
}

/// More free quote lots never cost a book its place.
pub proof fn law_more_balance_keeps_a_book(
    book: MakerBook,
    richer: MakerBook,
    slot: u64,
    taker: Option<&Pubkey>,
    maker_fee_ppm: i32,
)
    requires
        richer == (MakerBook { quote_free: richer.quote_free, ..book }),
        book.quote_free <= richer.quote_free,
        richer.quote_locked + richer.quote_free <= u64::MAX,
        eligible(book, slot, taker, maker_fee_ppm),
    ensures
        eligible(richer, slot, taker, maker_fee_ppm),
{
}

/// A book that has expired stays expired until it is updated.
pub proof fn law_stale_books_stay_stale(book: MakerBook, slot: u64, later: u64)
    requires
        slot <= later,
        book.stale_at(slot),
    ensures
        book.stale_at(later),
{
}

/// A header values lots exactly where the program does, and as it does.
pub proof fn law_header_values_lots_as_the_program(
    header: MarketStateHeader,
    base_lots: u64,
    price_ticks: u64,
)
    ensures
        header.quote_atoms_outcome(base_lots, price_ticks) is Ok <==> priceable(
            header,
            base_lots,
            price_ticks,
        ),
        header.quote_atoms_outcome(base_lots, price_ticks) matches Ok(atoms) ==> atoms
            == header.cost_numerator(base_lots as int, price_ticks as int) / header.unit_atoms(),
{
    vstd::arithmetic::power::lemma_pow_positive(10, header.base_decimals as nat);
    assert(header.unit_atoms() >= 0) by (nonlinear_arith)
        requires
            header.unit_atoms() == header.decimal_power() * header.raw_base_units_per_base_unit,
            header.decimal_power() > 0,
    ;
    let cost = header.cost_numerator(base_lots as int, price_ticks as int);
    assert(cost >= 0) by (nonlinear_arith)
        requires
            cost == base_lots * header.base_atoms_per_base_lot * price_ticks
                * header.tick_size_in_quote_atoms_per_base_unit,
    ;
    if header.unit_atoms() > 0 {
        assert(cost / header.unit_atoms() >= 0) by (nonlinear_arith)
            requires
                cost >= 0,
                header.unit_atoms() > 0,
        ;
    }
}

/// For every mid price below the sign bit, a level rests at its absolute price.
pub proof fn law_levels_rest_at_absolute_price(level: MakerLevel, mid: u64)
    requires
        mid <= i64::MAX,
    ensures
        resting_price(level, mid) == level.price_at(mid),
{
}

/// Taking the levels of one price out parts their sizes in two.
proof fn lemma_sizes_part(levels: Seq<AggregatedLevel>, price: u64)
    ensures
        total(sizes(levels)) == total(sizes(at_price(levels, price))) + total(
            sizes(off_price(levels, price)),
        ),
    decreases levels.len(),
{
    reveal(Seq::filter);
    if levels.len() == 0 {
        assert(at_price(levels, price) =~= levels);
        assert(off_price(levels, price) =~= levels);
    } else {
        let front = levels.drop_last();
        let last = levels.last();
        lemma_sizes_part(front, price);
        lemma_push_level(front, last, price);
        assert(front.push(last) =~= levels);
        lemma_total_push(front, last);
        lemma_total_push(at_price(front, price), last);
        lemma_total_push(off_price(front, price), last);
    }
}

/// One level more adds its size.
pub proof fn lemma_total_push(levels: Seq<AggregatedLevel>, level: AggregatedLevel)
    ensures
        total(sizes(levels.push(level))) == total(sizes(levels)) + level.size_base_lots,
    decreases levels.len(),
{
    let s = sizes(levels);
    let t = sizes(levels.push(level));
    if levels.len() == 0 {
        assert(t.drop_first() =~= Seq::empty());
        assert(total(t.drop_first()) == 0);
    } else {
        let rest = levels.drop_first();
        lemma_total_push(rest, level);
        assert(levels.push(level).drop_first() =~= rest.push(level));
        assert(t.drop_first() =~= sizes(rest.push(level)));
        assert(s.drop_first() =~= sizes(rest));
    }
}

/// No swap trades more base lots than the makers offer.
pub proof fn law_walk_stays_within_offer(
    header: MarketStateHeader,
    is_buy: bool,
    levels: Seq<AggregatedLevel>,
    remaining: u64,
    gained: u64,
)
    ensures
        ladder_walked(header, is_buy, levels, remaining, gained) matches Ok(after) ==> 0 <= traded(
            is_buy,
            remaining,
            gained,
            after,
        ) <= total(sizes(levels)),
    decreases levels.len(),
{
    lemma_total_nonnegative(sizes(levels));
    if levels.len() > 0 && remaining > 0 {
        let price = best_price(levels, !is_buy);
        let s = sizes(at_price(levels, price));
        lemma_best_price(levels, !is_buy);
        lemma_at_price_members(levels, price);
        lemma_sizes_part(levels, price);
        lemma_total_nonnegative(sizes(off_price(levels, price)));
        law_price_is_exhausted(header, is_buy, price, s, remaining, gained);
        match price_cleared(header, is_buy, price, s, remaining, gained) {
            Ok(p) => {
                law_walk_stays_within_offer(
                    header,
                    is_buy,
                    off_price(levels, price),
                    p.remaining,
                    p.gained,
                );
            },
            Err(e) => {},
        }
    }
}

} // verus!
