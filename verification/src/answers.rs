//! What the library's calls answer, told of the answers themselves.

use vstd::prelude::*;

use crate::amm::{ArcherAmm, Fits};
use crate::error::{AmmError, ArcherAmmError};
use crate::gathering::{law_every_open_level_is_met, lists_all, taken_from, tradable};
use crate::ladder::AggregatedLevel;
use crate::pricing::{
    Steps, answers_purchase, answers_sale, is_labelled, law_purchase_pays_each_mints_own_fee,
    law_sale_pays_each_mints_own_fee,
};
use crate::pubkey::{Pubkey, SPL_TOKEN_PROGRAM, TOKEN_2022_PROGRAM};
use crate::quote::{
    QuoteOutput, collect_all_levels, compute_quote, liquidity, quote_buy_exact_in,
    quote_sell_exact_in,
};
use crate::refreshing::{law_market_asks_for_what_it_reads, mentions, stands_for};
use crate::router::{
    Clock, KeyedAccount, Quote, QuoteParams, SwapAndAccountMetas, SwapMode, SwapParams,
};
use crate::settlement::{
    law_purchase_is_settled_on_its_fills, law_quote_is_settled_on_its_fills,
    law_sale_is_settled_on_its_fills, settles_purchase, settles_sale,
};
use crate::state::{MakerBook, MarketStateHeader};
use crate::swapping::{
    hands_over_all, law_every_book_that_takes_part_is_handed_over,
    law_token_programs_go_with_their_mints, law_where_the_fixed_accounts_stand, swap_accounts,
};
use crate::trades::Fill;

verus! {

/// Gathering answers with every tradable level, once and in order, and nothing else.
pub proof fn law_gathering_answers_with_every_level(
    books: &[(Pubkey, MakerBook)],
    bids: bool,
    slot: u64,
    taker: Option<&Pubkey>,
    maker_fee_ppm: i32,
    levels: Vec<AggregatedLevel>,
)
    requires
        call_ensures(collect_all_levels, (books, bids, slot, taker, maker_fee_ppm), levels),
        books@.len() <= usize::MAX,
    ensures
        exists|at: Seq<(int, int)>| #[trigger]
            lists_all(at, levels@, books@, bids, slot, taker, maker_fee_ppm),
        forall|m: int, i: int| #[trigger]
            tradable(books@, m, i, bids, slot, taker, maker_fee_ppm) ==> exists|k: int|
                0 <= k < levels@.len() && taken_from(#[trigger] levels@[k], books@, m, i, bids),
{
    law_every_open_level_is_met(books@, bids, slot, taker, maker_fee_ppm);
    let at = choose|at: Seq<(int, int)>| #[trigger]
        lists_all(at, levels@, books@, bids, slot, taker, maker_fee_ppm);
    assert forall|m: int, i: int| #[trigger]
        tradable(books@, m, i, bids, slot, taker, maker_fee_ppm) implies exists|k: int|
        0 <= k < levels@.len() && taken_from(#[trigger] levels@[k], books@, m, i, bids) by {
        assert(at.contains((m, i)));
        let k = choose|k: int| 0 <= k < at.len() && at[k] == (m, i);
        assert(at[k] == (m, i));
        assert(taken_from(levels@[k], books@, m, i, bids));
    }
}

/// A quoted purchase is settled on fills of the asks: the fee is that on the quote
/// lots that they cost.
pub proof fn law_purchase_answer_is_settled_on_its_fills(
    input: u64,
    header: &MarketStateHeader,
    books: &[(Pubkey, MakerBook)],
    ppm: i32,
    slot: u64,
    taker: Option<&Pubkey>,
    r: Result<QuoteOutput, ArcherAmmError>,
)
    requires
        call_ensures(quote_buy_exact_in, (input, header, books, ppm, slot, taker), r),
    ensures
        r matches Ok(output) ==> exists|fills: Seq<Fill>, unspent: int, fee: int| #[trigger]
            settles_purchase(
                output,
                fills,
                unspent,
                fee,
                input,
                *header,
                liquidity(books@, false, slot, taker, header.maker_fee_ppm),
                ppm,
            ),
{
    law_purchase_is_settled_on_its_fills(
        input,
        *header,
        liquidity(books@, false, slot, taker, header.maker_fee_ppm),
        ppm,
    );
}

/// A quoted sale is settled on fills of the bids.
pub proof fn law_sale_answer_is_settled_on_its_fills(
    input: u64,
    header: &MarketStateHeader,
    books: &[(Pubkey, MakerBook)],
    ppm: i32,
    slot: u64,
    taker: Option<&Pubkey>,
    r: Result<QuoteOutput, ArcherAmmError>,
)
    requires
        call_ensures(quote_sell_exact_in, (input, header, books, ppm, slot, taker), r),
    ensures
        r matches Ok(output) ==> exists|fills: Seq<Fill>, unspent: int, fee: int| #[trigger]
            settles_sale(
                output,
                fills,
                unspent,
                fee,
                input,
                *header,
                liquidity(books@, true, slot, taker, header.maker_fee_ppm),
                ppm,
            ),
{
    law_sale_is_settled_on_its_fills(
        input,
        *header,
        liquidity(books@, true, slot, taker, header.maker_fee_ppm),
        ppm,
    );
}

/// What a market that trades answers to a question for a quote is settled on fills,
/// at its taker fee; one that does not answers with nothing.
pub proof fn law_quote_answer_is_settled_on_its_fills(
    input: u64,
    is_buy: bool,
    header: &MarketStateHeader,
    books: &[(Pubkey, MakerBook)],
    slot: u64,
    taker: Option<&Pubkey>,
    r: Result<QuoteOutput, ArcherAmmError>,
)
    requires
        call_ensures(compute_quote, (input, is_buy, header, books, slot, taker), r),
        books@.len() <= usize::MAX,
    ensures
        header.status != 0 ==> (r matches Ok(output) && output.out_amount == 0 && output.fee_amount
            == 0),
        header.status == 0 && is_buy ==> (r matches Ok(output) ==> exists|
            fills: Seq<Fill>,
            unspent: int,
            fee: int,
        | #[trigger]
            settles_purchase(
                output,
                fills,
                unspent,
                fee,
                input,
                *header,
                liquidity(books@, false, slot, taker, header.maker_fee_ppm),
                header.taker_fee_ppm,
            )),
        header.status == 0 && !is_buy ==> (r matches Ok(output) ==> exists|
            fills: Seq<Fill>,
            unspent: int,
            fee: int,
        | #[trigger]
            settles_sale(
                output,
                fills,
                unspent,
                fee,
                input,
                *header,
                liquidity(books@, true, slot, taker, header.maker_fee_ppm),
                header.taker_fee_ppm,
            )),
        r is Err ==> input > 0,
{
    law_quote_is_settled_on_its_fills(input, is_buy, *header, books@, slot, taker);
}

/// A market's quote goes by its steps: each token costs the fee of its own mint, the
/// input's before the makers and the output's behind them.
pub proof fn law_market_answers_by_its_steps(
    amm: &ArcherAmm,
    params: &QuoteParams,
    clock: &Clock,
    r: Result<Quote, AmmError>,
)
    requires
        call_ensures(ArcherAmm::quote, (amm, params, clock), r),
    ensures
        r matches Ok(quote) ==> {
            &&& amm.market_header is Some
            &&& amm.market_header->0.status == 0
            &&& params.swap_mode == SwapMode::ExactIn
            &&& params.input_mint == amm.market_header->0.quote_mint ==> exists|
                steps: Steps,
            | #[trigger]
                answers_purchase(quote, steps, *amm, amm.market_header->0, *params, *clock)
                    && is_labelled(quote, steps.gross, amm.market_header->0, *params)
            &&& params.input_mint != amm.market_header->0.quote_mint ==> exists|
                steps: Steps,
            | #[trigger]
                answers_sale(quote, steps, *amm, amm.market_header->0, *params, *clock)
                    && is_labelled(quote, steps.gross, amm.market_header->0, *params)
        },
{
    if r is Ok {
        if params.input_mint == amm.market_header->0.quote_mint {
            law_purchase_pays_each_mints_own_fee(*amm, *params, *clock);
        } else {
            law_sale_pays_each_mints_own_fee(*amm, *params, *clock);
        }
    }
}

/// The accounts that a market answers with stand in their places: the fixed ones by
/// their roles, then every book that takes part.
pub proof fn law_swap_answer_stands_in_its_places(
    amm: &ArcherAmm,
    params: &SwapParams,
    clock: &Clock,
    r: Result<SwapAndAccountMetas, AmmError>,
)
    requires
        call_ensures(ArcherAmm::get_swap_and_account_metas, (amm, params, clock), r),
    ensures
        r is Ok <==> amm.market_header is Some,
        r matches Ok(swap) ==> {
            let header = amm.market_header->0;
            let metas = swap.account_metas@;
            &&& metas.len() >= 11
            &&& metas[0].pubkey == params.token_transfer_authority
            &&& metas[1].pubkey == amm.market_key
            &&& metas[2].pubkey == (match amm.builder_fee_wallet {
                Some(wallet) => wallet,
                None => metas[8].pubkey,
            })
            &&& metas[3].pubkey == header.base_mint
            &&& metas[4].pubkey == header.quote_mint
            &&& metas[5].pubkey == header.base_vault
            &&& metas[6].pubkey == header.quote_vault
            &&& metas[if params.source_mint == header.quote_mint {
                8int
            } else {
                7int
            }].pubkey == params.source_token_account
            &&& metas[if params.source_mint == header.quote_mint {
                7int
            } else {
                8int
            }].pubkey == params.destination_token_account
            &&& metas[9].pubkey == amm.base_token_program
            &&& metas[10].pubkey == amm.quote_token_program
            &&& exists|at: Seq<int>| #[trigger]
                hands_over_all(
                    at,
                    metas,
                    11,
                    amm.maker_books@,
                    clock.slot,
                    header.maker_fee_ppm,
                )
        },
{
    if r is Ok {
        let header = amm.market_header->0;
        assert(r->Ok_0.account_metas@ == swap_accounts(*amm, header, *params, clock.slot));
        law_where_the_fixed_accounts_stand(*amm, header, *params, clock.slot);
        law_every_book_that_takes_part_is_handed_over(*amm, header, *params, clock.slot);
    }
}

/// After an update that saw both mints, the tenth account that a market answers with
/// is the program with extensions exactly where that owns the base mint, and the
/// eleventh exactly where it owns the quote mint.
pub proof fn law_swap_answer_names_each_mints_program(
    before: ArcherAmm,
    amm: &ArcherAmm,
    accounts: Seq<KeyedAccount>,
    fits: Fits,
    params: &SwapParams,
    clock: &Clock,
    r: Result<SwapAndAccountMetas, AmmError>,
    base: int,
    quote: int,
)
    requires
        amm.updated_from(before, accounts, fits),
        amm.market_header is Some,
        stands_for(accounts, base, amm.market_header->0.base_mint),
        stands_for(accounts, quote, amm.market_header->0.quote_mint),
        call_ensures(ArcherAmm::get_swap_and_account_metas, (amm, params, clock), r),
    ensures
        r is Ok,
        ({
            let metas = r->Ok_0.account_metas@;
            let extended = TOKEN_2022_PROGRAM;
            &&& metas.len() >= 11
            &&& metas[3].pubkey == accounts[base].key
            &&& metas[4].pubkey == accounts[quote].key
            &&& metas[9].pubkey.bytes == extended <==> accounts[base].account.owner.bytes == extended
            &&& metas[10].pubkey.bytes == extended <==> accounts[quote].account.owner.bytes
                == extended
        }),
{
    let header = amm.market_header->0;
    assert(r->Ok_0.account_metas@ == swap_accounts(*amm, header, *params, clock.slot));
    law_token_programs_go_with_their_mints(
        before,
        *amm,
        accounts,
        fits,
        header,
        *params,
        clock.slot,
        base,
        quote,
    );
    assert(SPL_TOKEN_PROGRAM[4] != TOKEN_2022_PROGRAM[4]);
}

/// The addresses that a market answers with when asked what to look at are its own,
/// its registry's, its books' and its mints', and no others.
pub proof fn law_market_answers_what_to_look_at(amm: &ArcherAmm, r: Vec<Pubkey>, key: Pubkey)
    requires
        call_ensures(ArcherAmm::get_accounts_to_update, (amm,), r),
    ensures
        r@.contains(key) <==> {
            ||| key == amm.market_key
            ||| key == amm.registry_key
            ||| mentions(amm.maker_book_keys@, key)
            ||| amm.market_header matches Some(header) && (key == header.base_mint || key
                == header.quote_mint)
        },
{
    law_market_asks_for_what_it_reads(*amm, Seq::empty(), key);
}

} // verus!
