//! What a router is told of a swap: which token each transfer fee belongs to, what
//! of the input reaches the makers, and what of their output reaches the taker.

use vstd::prelude::*;

use crate::amm::{ArcherAmm, gross_outcome, net_outcome, spendable, whole_lots};
use crate::decimal::decimal_of;
use crate::lots::ceil_div;
use crate::pubkey::{Pubkey, TOKEN_2022_PROGRAM};
use crate::quote::{QuoteOutput, quote_outcome};
use crate::router::{Clock, Quote, QuoteParams, SwapMode};
use crate::state::MarketStateHeader;
use crate::token::{fee_outcome, mint_fees, mint_refusal};

verus! {

/// What is left of an amount after a fee; nothing where the fee is larger.
pub open spec fn less(amount: u64, fee: u64) -> int {
    if amount > fee {
        amount - fee
    } else {
        0
    }
}

/// Whether `lots` are the whole lots in a number of atoms.
pub open spec fn fills_lots(lots: int, per_lot: int, atoms: int) -> bool {
    lots * per_lot <= atoms < (lots + 1) * per_lot
}

/// The steps between a router's question and the answer.
pub struct Steps {
    /// The atoms that the taker sends: the whole lots of the amount.
    pub sent: u64,
    /// The fee on the transfer of the input.
    pub input_fee: u64,
    /// The whole lots of what arrives.
    pub lots: u64,
    /// What the makers give for them.
    pub gross: QuoteOutput,
    /// The fee on the transfer of the output.
    pub output_fee: u64,
}

/// Whether `quote` answers a sale, by these steps: the base token is sent, and
/// costs the fee of the base mint; quote comes back, and costs that of the quote
/// mint.
pub open spec fn answers_sale(
    quote: Quote,
    steps: Steps,
    amm: ArcherAmm,
    header: MarketStateHeader,
    params: QuoteParams,
    clock: Clock,
) -> bool {
    let lot = header.base_atoms_per_base_lot as int;
    &&& lot > 0
    &&& steps.sent <= params.amount < steps.sent + lot
    &&& steps.sent as int % lot == 0
    &&& fee_outcome(amm.base_mint_data@, amm.base_token_program, steps.sent, clock.epoch) == Ok::<
        u64,
        Seq<char>,
    >(steps.input_fee)
    &&& fills_lots(steps.lots as int, lot, less(steps.sent, steps.input_fee))
    &&& quote_outcome(steps.lots, false, header, amm.maker_books@, clock.slot, None) matches Ok(
        gross,
    ) && gross == steps.gross
    &&& fee_outcome(
        amm.quote_mint_data@,
        amm.quote_token_program,
        steps.gross.out_amount,
        clock.epoch,
    ) == Ok::<u64, Seq<char>>(steps.output_fee)
    &&& quote.out_amount == less(steps.gross.out_amount, steps.output_fee)
}

/// Whether `quote` answers a purchase, by these steps: the quote token is sent,
/// and costs the fee of the quote mint; base comes back, and costs that of the base
/// mint.
pub open spec fn answers_purchase(
    quote: Quote,
    steps: Steps,
    amm: ArcherAmm,
    header: MarketStateHeader,
    params: QuoteParams,
    clock: Clock,
) -> bool {
    let lot = header.quote_atoms_per_quote_lot as int;
    &&& lot > 0
    &&& steps.sent <= params.amount < steps.sent + lot
    &&& steps.sent as int % lot == 0
    &&& fee_outcome(amm.quote_mint_data@, amm.quote_token_program, steps.sent, clock.epoch) == Ok::<
        u64,
        Seq<char>,
    >(steps.input_fee)
    &&& fills_lots(steps.lots as int, lot, less(steps.sent, steps.input_fee))
    &&& quote_outcome(steps.lots, true, header, amm.maker_books@, clock.slot, None) matches Ok(
        gross,
    ) && gross == steps.gross
    &&& fee_outcome(
        amm.base_mint_data@,
        amm.base_token_program,
        steps.gross.out_amount,
        clock.epoch,
    ) == Ok::<u64, Seq<char>>(steps.output_fee)
    &&& quote.out_amount == less(steps.gross.out_amount, steps.output_fee)
}

/// Whether `quote` says of itself what every answer does: the whole amount as its
/// input, the market's fee as its fee, in the quote token, and the rate of it.
pub open spec fn is_labelled(
    quote: Quote,
    gross: QuoteOutput,
    header: MarketStateHeader,
    params: QuoteParams,
) -> bool {
    &&& quote.in_amount == params.amount
    &&& quote.fee_amount == gross.fee_amount
    &&& quote.fee_mint == header.quote_mint
    &&& header.taker_fee_ppm != 0 ==> quote.fee_pct == decimal_of(header.taker_fee_ppm as i64, 6)
    &&& header.taker_fee_ppm == 0 ==> quote.fee_pct == decimal_of(0, 0)
}

/// The whole lots of an amount, and those of what a fee leaves of them.
proof fn lemma_lots(amount: u64, per_lot: u64, fee: u64)
    requires
        per_lot > 0,
    ensures
        ({
            let sent = whole_lots(amount, per_lot);
            &&& sent <= amount < sent + per_lot
            &&& sent as int % per_lot as int == 0
            &&& fills_lots(
                spendable(amount, per_lot, fee) as int,
                per_lot as int,
                less(sent, fee),
            )
        }),
{
    let a = amount as int;
    let d = per_lot as int;
    let q = a / d;
    assert(0 <= q * d <= a < q * d + d && (q * d) % d == 0) by (nonlinear_arith)
        requires
            q == a / d,
            a >= 0,
            d > 0,
    ;
    let sent = whole_lots(amount, per_lot);
    let rest = less(sent, fee);
    let n = rest / d;
    assert(0 <= n <= rest && n * d <= rest < (n + 1) * d) by (nonlinear_arith)
        requires
            n == rest / d,
            rest >= 0,
            d > 0,
    ;
    if fee >= sent {
        assert(0 * d <= 0 < (0 + 1) * d) by (nonlinear_arith)
            requires
                d > 0,
        ;
    }
}

/// Numbers of whole lots are told apart by the atoms they fill.
proof fn lemma_lots_are_one(a: int, b: int, per_lot: int, atoms: int)
    requires
        per_lot > 0,
        fills_lots(a, per_lot, atoms),
        fills_lots(b, per_lot, atoms),
    ensures
        a == b,
{
    assert(a == b) by (nonlinear_arith)
        requires
            per_lot > 0,
            a * per_lot <= atoms < (a + 1) * per_lot,
            b * per_lot <= atoms < (b + 1) * per_lot,
    ;
}

/// Every answer to a sale goes by its steps, and what the steps give is the answer.
pub proof fn law_sale_pays_each_mints_own_fee(amm: ArcherAmm, params: QuoteParams, clock: Clock)
    requires
        amm.market_header matches Some(header) && header.status == 0 && params.input_mint
            != header.quote_mint,
        params.swap_mode == SwapMode::ExactIn,
    ensures
        ({
            let header = amm.market_header->0;
            &&& amm.quoted(params, clock) matches Ok(quote) ==> exists|steps: Steps| #[trigger]
                answers_sale(quote, steps, amm, header, params, clock) && is_labelled(
                    quote,
                    steps.gross,
                    header,
                    params,
                )
            &&& forall|quote: Quote, steps: Steps| #[trigger]
                answers_sale(quote, steps, amm, header, params, clock) && is_labelled(
                    quote,
                    steps.gross,
                    header,
                    params,
                ) ==> amm.quoted(params, clock) == Ok::<Quote, Seq<char>>(quote)
        }),
{
    let header = amm.market_header->0;
    let lot = header.base_atoms_per_base_lot;
    if lot > 0 {
        let sent = whole_lots(params.amount, lot);
        if amm.quoted(params, clock) is Ok {
            let quote = amm.quoted(params, clock)->Ok_0;
            let input_fee = amm.transfer_fee(false, sent, clock.epoch)->Ok_0;
            let lots = spendable(params.amount, lot, input_fee);
            let gross = gross_outcome(
                header,
                amm.maker_books@,
                params,
                clock.slot,
                input_fee,
            )->Ok_0;
            let output_fee = amm.transfer_fee(true, gross.out_amount, clock.epoch)->Ok_0;
            let steps = Steps { sent, input_fee, lots, gross, output_fee };
            lemma_lots(params.amount, lot, input_fee);
            assert(answers_sale(quote, steps, amm, header, params, clock));
            assert(is_labelled(quote, steps.gross, header, params));
        }
        assert forall|quote: Quote, steps: Steps| #[trigger]
            answers_sale(quote, steps, amm, header, params, clock) && is_labelled(
                quote,
                steps.gross,
                header,
                params,
            ) implies amm.quoted(params, clock) == Ok::<Quote, Seq<char>>(quote) by {
            lemma_lots(params.amount, lot, steps.input_fee);
            lemma_same_multiple(params.amount as int, lot as int, steps.sent as int, sent as int);
            lemma_lots_are_one(
                steps.lots as int,
                spendable(params.amount, lot, steps.input_fee) as int,
                lot as int,
                less(sent, steps.input_fee),
            );
            assert(quote == net_outcome(header, params.amount, steps.gross, steps.output_fee));
        }
    }
}

/// An amount has one largest multiple.
proof fn lemma_same_multiple(amount: int, lot: int, a: int, b: int)
    requires
        lot > 0,
        a <= amount < a + lot,
        b <= amount < b + lot,
        a % lot == 0,
        b % lot == 0,
    ensures
        a == b,
{
    let m = a / lot;
    let n = b / lot;
    assert(a == m * lot && b == n * lot) by (nonlinear_arith)
        requires
            m == a / lot,
            n == b / lot,
            a % lot == 0,
            b % lot == 0,
            lot > 0,
    ;
    assert(m == n) by (nonlinear_arith)
        requires
            lot > 0,
            m * lot <= amount < m * lot + lot,
            n * lot <= amount < n * lot + lot,
    ;
}

/// Every answer to a purchase goes by its steps, and what the steps give is the
/// answer.
pub proof fn law_purchase_pays_each_mints_own_fee(
    amm: ArcherAmm,
    params: QuoteParams,
    clock: Clock,
)
    requires
        amm.market_header matches Some(header) && header.status == 0 && params.input_mint
            == header.quote_mint,
        params.swap_mode == SwapMode::ExactIn,
    ensures
        ({
            let header = amm.market_header->0;
            &&& amm.quoted(params, clock) matches Ok(quote) ==> exists|steps: Steps| #[trigger]
                answers_purchase(quote, steps, amm, header, params, clock) && is_labelled(
                    quote,
                    steps.gross,
                    header,
                    params,
                )
            &&& forall|quote: Quote, steps: Steps| #[trigger]
                answers_purchase(quote, steps, amm, header, params, clock) && is_labelled(
                    quote,
                    steps.gross,
                    header,
                    params,
                ) ==> amm.quoted(params, clock) == Ok::<Quote, Seq<char>>(quote)
        }),
{
    let header = amm.market_header->0;
    let lot = header.quote_atoms_per_quote_lot;
    if lot > 0 {
        let sent = whole_lots(params.amount, lot);
        if amm.quoted(params, clock) is Ok {
            let quote = amm.quoted(params, clock)->Ok_0;
            let input_fee = amm.transfer_fee(true, sent, clock.epoch)->Ok_0;
            let lots = spendable(params.amount, lot, input_fee);
            let gross = gross_outcome(
                header,
                amm.maker_books@,
                params,
                clock.slot,
                input_fee,
            )->Ok_0;
            let output_fee = amm.transfer_fee(false, gross.out_amount, clock.epoch)->Ok_0;
            let steps = Steps { sent, input_fee, lots, gross, output_fee };
            lemma_lots(params.amount, lot, input_fee);
            assert(answers_purchase(quote, steps, amm, header, params, clock));
            assert(is_labelled(quote, steps.gross, header, params));
        }
        assert forall|quote: Quote, steps: Steps| #[trigger]
            answers_purchase(quote, steps, amm, header, params, clock) && is_labelled(
                quote,
                steps.gross,
                header,
                params,
            ) implies amm.quoted(params, clock) == Ok::<Quote, Seq<char>>(quote) by {
            lemma_lots(params.amount, lot, steps.input_fee);
            lemma_same_multiple(params.amount as int, lot as int, steps.sent as int, sent as int);
            lemma_lots_are_one(
                steps.lots as int,
                spendable(params.amount, lot, steps.input_fee) as int,
                lot as int,
                less(sent, steps.input_fee),
            );
            assert(quote == net_outcome(header, params.amount, steps.gross, steps.output_fee));
        }
    }
}

/// What a quote is refused for before anything is reckoned: a market that is not
/// loaded or does not trade, a question by the output, and a lot of no atoms.
/// Nothing else is, unless a transfer fee or the makers' answer is not to be had.
pub proof fn law_what_is_refused(amm: ArcherAmm, params: QuoteParams, clock: Clock)
    ensures
        amm.market_header is None ==> amm.quoted(params, clock) == Err::<Quote, Seq<char>>(
            "Market not loaded"@,
        ),
        amm.market_header matches Some(header) ==> {
            &&& header.status != 0 ==> amm.quoted(params, clock) == Err::<Quote, Seq<char>>(
                "Market not active"@,
            )
            &&& header.status == 0 && params.swap_mode == SwapMode::ExactOut ==> amm.quoted(
                params,
                clock,
            ) == Err::<Quote, Seq<char>>("ExactOut not supported"@)
            &&& header.status == 0 && params.swap_mode == SwapMode::ExactIn
                && params.input_mint == header.quote_mint && header.quote_atoms_per_quote_lot == 0
                ==> amm.quoted(params, clock) == Err::<Quote, Seq<char>>("lot size is 0"@)
            &&& header.status == 0 && params.swap_mode == SwapMode::ExactIn
                && params.input_mint != header.quote_mint && header.base_atoms_per_base_lot == 0
                ==> amm.quoted(params, clock) == Err::<Quote, Seq<char>>("lot size is 0"@)
        },
{
}

/// Only the program with extensions charges on a transfer, and only where a mint's
/// bytes are known.
pub proof fn law_plain_tokens_move_for_free(
    data: Seq<u8>,
    program: Pubkey,
    amount: u64,
    epoch: u64,
)
    ensures
        program.bytes != TOKEN_2022_PROGRAM || data.len() == 0 || (mint_refusal(data) is None
            && mint_fees(data) is None) ==> fee_outcome(data, program, amount, epoch) == Ok::<
            u64,
            Seq<char>,
        >(0),
        program.bytes == TOKEN_2022_PROGRAM && data.len() > 0 ==> (mint_refusal(data) matches Some(
            text,
        ) ==> fee_outcome(data, program, amount, epoch) == Err::<u64, Seq<char>>(
            "mint unpack: "@ + text,
        )),
{
}

/// A mint that charges takes the rate of its newer fee from that fee's epoch on and
/// of its older one before: that many ten-thousandths of the amount, rounded up, but
/// no more than the maximum that goes with the rate.
pub proof fn law_transfer_fee_is_the_epochs(
    data: Seq<u8>,
    program: Pubkey,
    amount: u64,
    epoch: u64,
    older: (u64, u64, u16),
    newer: (u64, u64, u16),
    share: int,
)
    requires
        program.bytes == TOKEN_2022_PROGRAM,
        data.len() > 0,
        mint_refusal(data) is None,
        mint_fees(data) == Some((older, newer)),
        ({
            let points = if epoch < newer.0 {
                older.2
            } else {
                newer.2
            };
            (share - 1) * 10_000 < amount * points <= share * 10_000
        }),
    ensures
        ({
            let most = if epoch < newer.0 {
                older.1
            } else {
                newer.1
            };
            let fee = fee_outcome(data, program, amount, epoch);
            &&& share > u64::MAX ==> fee == Err::<u64, Seq<char>>("transfer fee overflow"@)
            &&& share <= u64::MAX ==> fee == Ok::<u64, Seq<char>>(
                if share < most {
                    share as u64
                } else {
                    most
                },
            )
        }),
{
    let points = if epoch < newer.0 {
        older.2
    } else {
        newer.2
    };
    let raw = amount * points;
    assert(ceil_div(raw, 10_000) == (raw + 9_999) / 10_000);
    assert(raw >= 0 && (amount == 0 || points == 0 ==> raw == 0) && (raw == 0 ==> amount == 0
        || points == 0)) by (nonlinear_arith)
        requires
            raw == amount * points,
            amount >= 0,
            points >= 0,
    ;
}

/// A sale's gross output does not depend on the quote token: what a quote token that
/// charges leaves is what one that does not would give, less its own fee on that.
pub proof fn law_quote_token_charges_a_sale_on_its_output(
    plain: ArcherAmm,
    charging: ArcherAmm,
    params: QuoteParams,
    clock: Clock,
)
    requires
        plain.market_header == charging.market_header,
        plain.maker_books@ == charging.maker_books@,
        plain.base_mint_data@ == charging.base_mint_data@,
        plain.base_token_program == charging.base_token_program,
        plain.quote_token_program.bytes != TOKEN_2022_PROGRAM,
        plain.market_header matches Some(header) && params.input_mint != header.quote_mint,
    ensures
        plain.quoted(params, clock) matches Err(text) ==> charging.quoted(params, clock) == Err::<
            Quote,
            Seq<char>,
        >(text),
        plain.quoted(params, clock) matches Ok(all) ==> match fee_outcome(
            charging.quote_mint_data@,
            charging.quote_token_program,
            all.out_amount,
            clock.epoch,
        ) {
            Ok(fee) => charging.quoted(params, clock) matches Ok(quote) && quote.out_amount == less(
                all.out_amount,
                fee,
            ) && quote.fee_amount == all.fee_amount,
            Err(text) => charging.quoted(params, clock) == Err::<Quote, Seq<char>>(text),
        },
{
}

/// A purchase's gross output does not depend on the base token: what a base token
/// that charges leaves is what one that does not would give, less its own fee on
/// that.
pub proof fn law_base_token_charges_a_purchase_on_its_output(
    plain: ArcherAmm,
    charging: ArcherAmm,
    params: QuoteParams,
    clock: Clock,
)
    requires
        plain.market_header == charging.market_header,
        plain.maker_books@ == charging.maker_books@,
        plain.quote_mint_data@ == charging.quote_mint_data@,
        plain.quote_token_program == charging.quote_token_program,
        plain.base_token_program.bytes != TOKEN_2022_PROGRAM,
        plain.market_header matches Some(header) && params.input_mint == header.quote_mint,
    ensures
        plain.quoted(params, clock) matches Err(text) ==> charging.quoted(params, clock) == Err::<
            Quote,
            Seq<char>,
        >(text),
        plain.quoted(params, clock) matches Ok(all) ==> match fee_outcome(
            charging.base_mint_data@,
            charging.base_token_program,
            all.out_amount,
            clock.epoch,
        ) {
            Ok(fee) => charging.quoted(params, clock) matches Ok(quote) && quote.out_amount == less(
                all.out_amount,
                fee,
            ) && quote.fee_amount == all.fee_amount,
            Err(text) => charging.quoted(params, clock) == Err::<Quote, Seq<char>>(text),
        },
{
}

/// Where neither token charges, a quote is what the makers give for the whole lots
/// of the amount.
pub proof fn law_plain_tokens_are_quoted_gross(
    amm: ArcherAmm,
    params: QuoteParams,
    clock: Clock,
    lots: u64,
)
    requires
        amm.base_token_program.bytes != TOKEN_2022_PROGRAM,
        amm.quote_token_program.bytes != TOKEN_2022_PROGRAM,
        params.swap_mode == SwapMode::ExactIn,
        amm.market_header matches Some(header) && header.status == 0 && {
            let lot = if params.input_mint == header.quote_mint {
                header.quote_atoms_per_quote_lot as int
            } else {
                header.base_atoms_per_base_lot as int
            };
            lot > 0 && fills_lots(lots as int, lot, params.amount as int)
        },
    ensures
        ({
            let header = amm.market_header->0;
            let is_buy = params.input_mint == header.quote_mint;
            match quote_outcome(lots, is_buy, header, amm.maker_books@, clock.slot, None) {
                Ok(gross) => amm.quoted(params, clock) matches Ok(quote) && quote.out_amount
                    == gross.out_amount && quote.fee_amount == gross.fee_amount,
                Err(e) => amm.quoted(params, clock) == Err::<Quote, Seq<char>>(e.text()),
            }
        }),
{
    let header = amm.market_header->0;
    let lot = if params.input_mint == header.quote_mint {
        header.quote_atoms_per_quote_lot
    } else {
        header.base_atoms_per_base_lot
    };
    let sent = whole_lots(params.amount, lot);
    let q = params.amount as int / lot as int;
    lemma_lots(params.amount, lot, 0);
    let n = spendable(params.amount, lot, 0) as int;
    let l = lot as int;
    assert(0 <= q * l <= params.amount) by (nonlinear_arith)
        requires
            q == params.amount as int / l,
            params.amount >= 0,
            l > 0,
    ;
    assert(sent as int / l == q) by (nonlinear_arith)
        requires
            q == params.amount as int / l,
            sent == q * l,
            l > 0,
    ;
    assert(n == q) by {
        if sent == 0 {
            assert(q == 0) by (nonlinear_arith)
                requires
                    q * l == 0,
                    l > 0,
            ;
        }
    }
    assert(fills_lots(q, l, params.amount as int)) by (nonlinear_arith)
        requires
            q == params.amount as int / l,
            l > 0,
    ;
    lemma_lots_are_one(lots as int, q, l, params.amount as int);
}

} // verus!
