//! What a swap against the makers of one market gives.

use vstd::prelude::*;

use crate::error::{ArcherAmmError, ErrorModel, math, math_error, outcome};
use crate::ladder::{AggregatedLevel, sort_levels};
use crate::lots::{calculate_fee, fee_outcome};
use crate::matching::{Progress, ladder_walked, lemma_same_walk, lemma_walk_spends, walk_ladder};
use crate::pubkey::Pubkey;
use crate::sdk::{self, fundable, resting_price};
use crate::state::{
    MARKET_STATUS_ACTIVE, MAX_LEVELS, MakerBook, MakerBookStatus, MakerLevel, MarketStateHeader,
    PPM_DIVISOR,
};

verus! {

/// The result of a quote, in atoms.
#[derive(Debug, Clone, Copy, PartialEq, Eq, Structural)]
pub struct QuoteOutput {
    pub out_amount: u64,
    pub fee_amount: u64,
}

/// Whether a book is open to a taker: it is not the taker's own, its status
/// says that it trades, and it has not expired.
pub open spec fn open_to(book: MakerBook, slot: u64, taker: Option<&Pubkey>) -> bool {
    &&& match taker {
        Some(key) => !book.authorizes(*key),
        None => true,
    }
    &&& book.status_model() == Some(MakerBookStatus::Active)
    &&& !book.stale_at(slot)
}

/// Whether a book takes part in a swap: it is open to the taker, and the
/// maker's quote balance backs its bids.
pub open spec fn eligible(
    book: MakerBook,
    slot: u64,
    taker: Option<&Pubkey>,
    maker_fee_ppm: i32,
) -> bool {
    open_to(book, slot, taker) && fundable(book, maker_fee_ppm)
}

/// Whether a book takes part in a swap.
pub fn book_is_eligible(
    book: &MakerBook,
    current_slot: u64,
    taker: Option<&Pubkey>,
    maker_fee_ppm: i32,
) -> (r: bool)
    ensures
        r == eligible(*book, current_slot, taker, maker_fee_ppm),
{
    if let Some(taker) = taker {
        if book.is_authorized(taker) {
            return false;
        }
    }
    let trading: bool = match book.get_status() {
        Some(MakerBookStatus::Active) => true,
        _ => false,
    };
    trading && !book.is_stale(current_slot) && sdk::is_fundable(book, maker_fee_ppm)
}

/// The levels of a book that a taker trades against: a buyer meets asks, a
/// seller bids.
pub open spec fn side(book: MakerBook, bids: bool) -> Seq<MakerLevel> {
    if bids {
        book.bid_levels@
    } else {
        book.ask_levels@
    }
}

/// Whether a level offers anything at a price.
pub open spec fn offered(level: MakerLevel, mid: u64) -> bool {
    level.size_in_base_lots > 0 && resting_price(level, mid) is Some
}

/// What the first `n` levels offer, in the order they stand, under `maker`.
pub open spec fn book_levels(levels: Seq<MakerLevel>, n: int, mid: u64, maker: usize) -> Seq<
    AggregatedLevel,
>
    decreases n,
{
    if n <= 0 {
        Seq::empty()
    } else {
        let before = book_levels(levels, n - 1, mid, maker);
        let level = levels[n - 1];
        if offered(level, mid) {
            before.push(
                AggregatedLevel {
                    price_ticks: resting_price(level, mid)->0,
                    size_base_lots: level.size_in_base_lots,
                    maker_index: maker,
                },
            )
        } else {
            before
        }
    }
}

/// What the eligible ones of the first `n` books offer on one side, book after
/// book.
pub open spec fn gathered(
    books: Seq<(Pubkey, MakerBook)>,
    n: int,
    bids: bool,
    slot: u64,
    taker: Option<&Pubkey>,
    maker_fee_ppm: i32,
) -> Seq<AggregatedLevel>
    decreases n,
{
    if n <= 0 {
        Seq::empty()
    } else {
        let before = gathered(books, n - 1, bids, slot, taker, maker_fee_ppm);
        let book = books[n - 1].1;
        if eligible(book, slot, taker, maker_fee_ppm) {
            before + book_levels(
                side(book, bids),
                MAX_LEVELS as int,
                book.mid_price_ticks,
                (n - 1) as usize,
            )
        } else {
            before
        }
    }
}

/// Every level that a taker can trade against, book after book.
pub open spec fn liquidity(
    books: Seq<(Pubkey, MakerBook)>,
    bids: bool,
    slot: u64,
    taker: Option<&Pubkey>,
    maker_fee_ppm: i32,
) -> Seq<AggregatedLevel> {
    gathered(books, books.len() as int, bids, slot, taker, maker_fee_ppm)
}

/// Gathers every level that a taker can trade against.
pub fn collect_all_levels(
    maker_books: &[(Pubkey, MakerBook)],
    is_bid_side: bool,
    current_slot: u64,
    taker: Option<&Pubkey>,
    maker_fee_ppm: i32,
) -> (levels: Vec<AggregatedLevel>)
    ensures
        levels@ == liquidity(maker_books@, is_bid_side, current_slot, taker, maker_fee_ppm),
{
    let mut levels: Vec<AggregatedLevel> = Vec::new();
    let mut maker: usize = 0;
    while maker < maker_books.len()
        invariant
            maker <= maker_books.len(),
            levels@ == gathered(
                maker_books@,
                maker as int,
                is_bid_side,
                current_slot,
                taker,
                maker_fee_ppm,
            ),
        decreases maker_books.len() - maker,
    {
        let book: &MakerBook = &maker_books[maker].1;
        if book_is_eligible(book, current_slot, taker, maker_fee_ppm) {
            let side_levels: &[MakerLevel; MAX_LEVELS] = if is_bid_side {
                &book.bid_levels
            } else {
                &book.ask_levels
            };
            let ghost before = levels@;
            let mut i: usize = 0;
            assert(before + Seq::<AggregatedLevel>::empty() =~= before);
            while i < MAX_LEVELS
                invariant
                    i <= MAX_LEVELS,
                    side_levels@ == side(*book, is_bid_side),
                    levels@ == before + book_levels(
                        side_levels@,
                        i as int,
                        book.mid_price_ticks,
                        maker,
                    ),
                decreases MAX_LEVELS - i,
            {
                let level: &MakerLevel = &side_levels[i];
                if level.is_active() {
                    if let Some(price_ticks) = sdk::level_price(level, book.mid_price_ticks) {
                        levels.push(
                            AggregatedLevel {
                                price_ticks,
                                size_base_lots: level.size_in_base_lots,
                                maker_index: maker,
                            },
                        );
                    }
                }
                i = i + 1;
                assert(levels@ =~= before + book_levels(
                    side_levels@,
                    i as int,
                    book.mid_price_ticks,
                    maker,
                ));
            }
        }
        maker = maker + 1;
    }
    levels
}

/// Whether any eligible book offers anything on one side.
pub open spec fn has_offer(
    books: Seq<(Pubkey, MakerBook)>,
    bids: bool,
    slot: u64,
    taker: Option<&Pubkey>,
    maker_fee_ppm: i32,
) -> bool {
    exists|m: int, i: int|
        0 <= m < books.len() && 0 <= i < MAX_LEVELS && eligible(
            books[m].1,
            slot,
            taker,
            maker_fee_ppm,
        ) && offered(#[trigger] side(books[m].1, bids)[i], books[m].1.mid_price_ticks)
}

/// Whether a taker would meet any level at all.
pub fn has_matching_liquidity(
    maker_books: &[(Pubkey, MakerBook)],
    is_buy: bool,
    current_slot: u64,
    taker: Option<&Pubkey>,
    maker_fee_ppm: i32,
) -> (r: bool)
    ensures
        r == has_offer(maker_books@, !is_buy, current_slot, taker, maker_fee_ppm),
{
    let bids: bool = !is_buy;
    let mut maker: usize = 0;
    while maker < maker_books.len()
        invariant
            bids == !is_buy,
            maker <= maker_books.len(),
            forall|m: int, i: int|
                0 <= m < maker && 0 <= i < MAX_LEVELS && eligible(
                    maker_books@[m].1,
                    current_slot,
                    taker,
                    maker_fee_ppm,
                ) ==> !offered(
                    #[trigger] side(maker_books@[m].1, bids)[i],
                    maker_books@[m].1.mid_price_ticks,
                ),
        decreases maker_books.len() - maker,
    {
        let book: &MakerBook = &maker_books[maker].1;
        if book_is_eligible(book, current_slot, taker, maker_fee_ppm) {
            let levels: &[MakerLevel; MAX_LEVELS] = if bids {
                &book.bid_levels
            } else {
                &book.ask_levels
            };
            let mut i: usize = 0;
            while i < MAX_LEVELS
                invariant
                    bids == !is_buy,
                    i <= MAX_LEVELS,
                    maker < maker_books.len(),
                    *book == maker_books@[maker as int].1,
                    eligible(*book, current_slot, taker, maker_fee_ppm),
                    levels@ == side(*book, bids),
                    forall|k: int|
                        0 <= k < i ==> !offered(#[trigger] levels@[k], book.mid_price_ticks),
                decreases MAX_LEVELS - i,
            {
                let level: &MakerLevel = &levels[i];
                if level.is_active() && sdk::level_price(level, book.mid_price_ticks).is_some() {
                    assert(offered(
                        side(maker_books@[maker as int].1, bids)[i as int],
                        book.mid_price_ticks,
                    ));
                    return true;
                }
                i = i + 1;
            }
        }
        maker = maker + 1;
    }
    false
}

/// The part of a buyer's input that is matched, such that the fee on it fits in
/// the rest.
pub open spec fn grossed_down(input: u64, fee_ppm: i32) -> u64 {
    if fee_ppm > 0 {
        ((input * PPM_DIVISOR) / (PPM_DIVISOR + fee_ppm)) as u64
    } else {
        input
    }
}

/// The part of a buyer's input that is matched.
pub fn gross_down(input: u64, fee_ppm: i32) -> (r: u64)
    ensures
        r == grossed_down(input, fee_ppm),
        r <= input,
{
    if fee_ppm > 0 {
        let ppm: u128 = PPM_DIVISOR as u128;
        let denominator: u128 = ppm + fee_ppm as u128;
        proof {
            let n = input as int;
            let d = 1_000_000 + fee_ppm;
            assert(0 <= (n * 1_000_000) / d <= n && n * 1_000_000 <= u128::MAX)
                by (nonlinear_arith)
                requires
                    0 <= n <= u64::MAX,
                    d > 1_000_000,
            ;
        }
        (input as u128 * ppm / denominator) as u64
    } else {
        input
    }
}

/// A number without its sign.
pub open spec fn magnitude(n: int) -> int {
    if n >= 0 {
        n
    } else {
        -n
    }
}

/// A signed number of quote lots as unsigned quote atoms.
fn fee_in_atoms(fee: i64, quote_atoms_per_lot: u64) -> (r: Option<u64>)
    ensures
        r == (if magnitude(fee as int) * quote_atoms_per_lot <= u64::MAX {
            Some((magnitude(fee as int) * quote_atoms_per_lot) as u64)
        } else {
            None
        }),
{
    let lots: u64 = if fee >= 0 {
        fee as u64
    } else {
        (-(fee as i128)) as u64
    };
    proof {
        assert(magnitude(fee as int) * quote_atoms_per_lot >= 0) by (nonlinear_arith)
            requires
                magnitude(fee as int) >= 0,
                quote_atoms_per_lot >= 0,
        ;
    }
    lots.checked_mul(quote_atoms_per_lot)
}

/// What a buyer gets who matched `quote_lots` for `base_lots`: the base atoms,
/// and the fee in quote atoms, which is charged on top.
pub open spec fn bought(
    header: MarketStateHeader,
    quote_lots: u64,
    base_lots: u64,
    fee_ppm: i32,
) -> Result<QuoteOutput, ErrorModel> {
    match fee_outcome(quote_lots, fee_ppm) {
        Err(e) => Err(e),
        Ok(fee) => {
            let out = base_lots * header.base_atoms_per_base_lot;
            let charged = magnitude(fee as int) * header.quote_atoms_per_quote_lot;
            if out > u64::MAX {
                math("base atoms overflow")
            } else if charged > u64::MAX {
                math("fee atoms overflow")
            } else {
                Ok(QuoteOutput { out_amount: out as u64, fee_amount: charged as u64 })
            }
        },
    }
}

/// What a seller gets who matched `quote_lots`: what the fee leaves of them, or
/// a rebate adds, and the fee, both in quote atoms.
pub open spec fn sold(header: MarketStateHeader, quote_lots: u64, fee_ppm: i32) -> Result<
    QuoteOutput,
    ErrorModel,
> {
    match fee_outcome(quote_lots, fee_ppm) {
        Err(e) => Err(e),
        Ok(fee) => {
            let net = quote_lots - fee;
            let out = net * header.quote_atoms_per_quote_lot;
            let charged = magnitude(fee as int) * header.quote_atoms_per_quote_lot;
            if net < 0 {
                math("fee exceeds output")
            } else if net > u64::MAX {
                math("rebate overflow")
            } else if out > u64::MAX {
                math("quote atoms overflow")
            } else if charged > u64::MAX {
                math("fee atoms overflow")
            } else {
                Ok(QuoteOutput { out_amount: out as u64, fee_amount: charged as u64 })
            }
        },
    }
}

/// Settles a buyer's match.
pub fn settle_buy(header: &MarketStateHeader, quote_lots: u64, base_lots: u64, fee_ppm: i32) -> (r:
    Result<QuoteOutput, ArcherAmmError>)
    ensures
        outcome(r) == bought(*header, quote_lots, base_lots, fee_ppm),
{
    let fee: i64 = calculate_fee(quote_lots, fee_ppm)?;
    let out_amount: u64 = match base_lots.checked_mul(header.base_atoms_per_base_lot) {
        Some(atoms) => atoms,
        None => {
            return Err(math_error("base atoms overflow"));
        },
    };
    match fee_in_atoms(fee, header.quote_atoms_per_quote_lot) {
        Some(fee_amount) => Ok(QuoteOutput { out_amount, fee_amount }),
        None => Err(math_error("fee atoms overflow")),
    }
}

/// Settles a seller's match.
pub fn settle_sell(header: &MarketStateHeader, quote_lots: u64, fee_ppm: i32) -> (r: Result<
    QuoteOutput,
    ArcherAmmError,
>)
    ensures
        outcome(r) == sold(*header, quote_lots, fee_ppm),
{
    let fee: i64 = calculate_fee(quote_lots, fee_ppm)?;
    let net: i128 = quote_lots as i128 - fee as i128;
    if net < 0 {
        return Err(math_error("fee exceeds output"));
    }
    if net > u64::MAX as i128 {
        return Err(math_error("rebate overflow"));
    }
    let out_amount: u64 = match (net as u64).checked_mul(header.quote_atoms_per_quote_lot) {
        Some(atoms) => atoms,
        None => {
            return Err(math_error("quote atoms overflow"));
        },
    };
    match fee_in_atoms(fee, header.quote_atoms_per_quote_lot) {
        Some(fee_amount) => Ok(QuoteOutput { out_amount, fee_amount }),
        None => Err(math_error("fee atoms overflow")),
    }
}

/// What buying for `input` quote lots on a ladder of asks gives.
pub open spec fn buy_outcome(
    input: u64,
    header: MarketStateHeader,
    asks: Seq<AggregatedLevel>,
    fee_ppm: i32,
) -> Result<QuoteOutput, ErrorModel> {
    let budget = grossed_down(input, fee_ppm);
    match ladder_walked(header, true, asks, budget, 0) {
        Err(e) => Err(e),
        Ok(p) => bought(header, (budget - p.remaining) as u64, p.gained, fee_ppm),
    }
}

/// What selling `input` base lots on a ladder of bids gives.
pub open spec fn sell_outcome(
    input: u64,
    header: MarketStateHeader,
    bids: Seq<AggregatedLevel>,
    fee_ppm: i32,
) -> Result<QuoteOutput, ErrorModel> {
    match ladder_walked(header, false, bids, input, 0) {
        Err(e) => Err(e),
        Ok(p) => sold(header, p.gained, fee_ppm),
    }
}

/// Quotes a purchase of base for a given amount of quote lots.
pub fn quote_buy_exact_in(
    input_quote_lots: u64,
    header: &MarketStateHeader,
    maker_books: &[(Pubkey, MakerBook)],
    effective_taker_fee_ppm: i32,
    current_slot: u64,
    taker: Option<&Pubkey>,
) -> (r: Result<QuoteOutput, ArcherAmmError>)
    ensures
        outcome(r) == buy_outcome(
            input_quote_lots,
            *header,
            liquidity(maker_books@, false, current_slot, taker, header.maker_fee_ppm),
            effective_taker_fee_ppm,
        ),
{
    let budget: u64 = gross_down(input_quote_lots, effective_taker_fee_ppm);
    let asks: Vec<AggregatedLevel> = collect_all_levels(
        maker_books,
        false,
        current_slot,
        taker,
        header.maker_fee_ppm,
    );
    let ladder: Vec<AggregatedLevel> = sort_levels(&asks, false);
    proof {
        lemma_same_walk(*header, true, ladder@, asks@, budget, 0);
        lemma_walk_spends(*header, true, ladder@, budget, 0);
    }
    let progress: Progress = walk_ladder(header, true, &ladder, budget)?;
    settle_buy(header, budget - progress.remaining, progress.gained, effective_taker_fee_ppm)
}

/// Quotes a sale of a given amount of base lots.
pub fn quote_sell_exact_in(
    input_base_lots: u64,
    header: &MarketStateHeader,
    maker_books: &[(Pubkey, MakerBook)],
    effective_taker_fee_ppm: i32,
    current_slot: u64,
    taker: Option<&Pubkey>,
) -> (r: Result<QuoteOutput, ArcherAmmError>)
    ensures
        outcome(r) == sell_outcome(
            input_base_lots,
            *header,
            liquidity(maker_books@, true, current_slot, taker, header.maker_fee_ppm),
            effective_taker_fee_ppm,
        ),
{
    let bids: Vec<AggregatedLevel> = collect_all_levels(
        maker_books,
        true,
        current_slot,
        taker,
        header.maker_fee_ppm,
    );
    let ladder: Vec<AggregatedLevel> = sort_levels(&bids, true);
    proof {
        lemma_same_walk(*header, false, ladder@, bids@, input_base_lots, 0);
    }
    let progress: Progress = walk_ladder(header, false, &ladder, input_base_lots)?;
    settle_sell(header, progress.gained, effective_taker_fee_ppm)
}

/// What a swap of `input` lots gives: nothing for nothing, on a market that
/// does not trade, and where no one offers anything.
pub open spec fn quote_outcome(
    input: u64,
    is_buy: bool,
    header: MarketStateHeader,
    books: Seq<(Pubkey, MakerBook)>,
    slot: u64,
    taker: Option<&Pubkey>,
) -> Result<QuoteOutput, ErrorModel> {
    let levels = liquidity(books, !is_buy, slot, taker, header.maker_fee_ppm);
    if input == 0 || header.status != MARKET_STATUS_ACTIVE || !has_offer(
        books,
        !is_buy,
        slot,
        taker,
        header.maker_fee_ppm,
    ) {
        Ok(QuoteOutput { out_amount: 0, fee_amount: 0 })
    } else if is_buy {
        buy_outcome(input, header, levels, header.taker_fee_ppm)
    } else {
        sell_outcome(input, header, levels, header.taker_fee_ppm)
    }
}

/// Quotes a swap of `input_lots`: quote lots for a purchase of base, base lots
/// for a sale.
pub fn compute_quote(
    input_lots: u64,
    is_buy: bool,
    header: &MarketStateHeader,
    maker_books: &[(Pubkey, MakerBook)],
    current_slot: u64,
    taker: Option<&Pubkey>,
) -> (r: Result<QuoteOutput, ArcherAmmError>)
    ensures
        outcome(r) == quote_outcome(
            input_lots,
            is_buy,
            *header,
            maker_books@,
            current_slot,
            taker,
        ),
{
    if input_lots == 0 {
        return Ok(QuoteOutput { out_amount: 0, fee_amount: 0 });
    }
    if !header.is_active() {
        return Ok(QuoteOutput { out_amount: 0, fee_amount: 0 });
    }
    if !has_matching_liquidity(maker_books, is_buy, current_slot, taker, header.maker_fee_ppm) {
        return Ok(QuoteOutput { out_amount: 0, fee_amount: 0 });
    }
    if is_buy {
        quote_buy_exact_in(
            input_lots,
            header,
            maker_books,
            header.taker_fee_ppm,
            current_slot,
            taker,
        )
    } else {
        quote_sell_exact_in(
            input_lots,
            header,
            maker_books,
            header.taker_fee_ppm,
            current_slot,
            taker,
        )
    }
}

} // verus!
