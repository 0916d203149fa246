//! Which accounts a swap hands to the program, and in which place.

use vstd::prelude::*;

use crate::amm::{ArcherAmm, Fits, book_metas};
use crate::pubkey::{Pubkey, SPL_TOKEN_PROGRAM, TOKEN_2022_PROGRAM};
use crate::quote::eligible;
use crate::refreshing::{law_update_takes_each_mint, stands_for};
use crate::router::{AccountMeta, KeyedAccount, SwapParams};
use crate::state::{MakerBook, MarketStateHeader};

verus! {

/// The accounts of a swap: the fixed ones, then the books.
pub open spec fn swap_accounts(
    amm: ArcherAmm,
    header: MarketStateHeader,
    params: SwapParams,
    slot: u64,
) -> Seq<AccountMeta> {
    amm.fixed_metas(header, params) + book_metas(
        amm.maker_books@,
        amm.maker_books@.len() as int,
        slot,
        header.maker_fee_ppm,
    )
}

/// Each token's program stands behind its own mint: after an update that saw both
/// mints, the tenth account is the program with extensions exactly where that owns
/// the fourth, which is the base mint, and the eleventh exactly where it owns the
/// fifth, the quote mint; otherwise it is the plain program.
pub proof fn law_token_programs_go_with_their_mints(
    before: ArcherAmm,
    amm: ArcherAmm,
    accounts: Seq<KeyedAccount>,
    fits: Fits,
    header: MarketStateHeader,
    params: SwapParams,
    slot: u64,
    base: int,
    quote: int,
)
    requires
        amm.updated_from(before, accounts, fits),
        amm.market_header == Some(header),
        stands_for(accounts, base, header.base_mint),
        stands_for(accounts, quote, header.quote_mint),
    ensures
        ({
            let metas = swap_accounts(amm, header, params, slot);
            let extended = TOKEN_2022_PROGRAM;
            &&& metas.len() >= 11
            &&& metas[3].pubkey == accounts[base].key
            &&& metas[4].pubkey == accounts[quote].key
            &&& metas[9].pubkey.bytes == (if accounts[base].account.owner.bytes == extended {
                extended
            } else {
                SPL_TOKEN_PROGRAM
            })
            &&& metas[10].pubkey.bytes == (if accounts[quote].account.owner.bytes == extended {
                extended
            } else {
                SPL_TOKEN_PROGRAM
            })
        }),
{
    law_update_takes_each_mint(before, amm, accounts, fits);
    law_where_the_fixed_accounts_stand(amm, header, params, slot);
}

/// The fixed accounts stand in their places: the taker's authority, the market,
/// the account of the builder's fee, the mints, the vaults, the taker's token
/// accounts and the token programs, the base one of each two first. Of the taker's
/// accounts, the source pays the source mint and the destination gets the other;
/// without a builder the taker's quote account stands for it. Only the authority
/// signs; the mints and programs, like it, are only read.
pub proof fn law_where_the_fixed_accounts_stand(
    amm: ArcherAmm,
    header: MarketStateHeader,
    params: SwapParams,
    slot: u64,
)
    ensures
        ({
            let metas = swap_accounts(amm, header, params, slot);
            &&& metas.len() >= 11
            &&& metas[0].pubkey == params.token_transfer_authority
            &&& metas[1].pubkey == amm.market_key
            &&& amm.builder_fee_wallet matches Some(wallet) ==> metas[2].pubkey == wallet
            &&& amm.builder_fee_wallet is None ==> metas[2].pubkey == metas[8].pubkey
            &&& metas[3].pubkey == header.base_mint
            &&& metas[4].pubkey == header.quote_mint
            &&& metas[5].pubkey == header.base_vault
            &&& metas[6].pubkey == header.quote_vault
            &&& params.source_mint == header.quote_mint ==> metas[8].pubkey
                == params.source_token_account && metas[7].pubkey
                == params.destination_token_account
            &&& params.source_mint != header.quote_mint ==> metas[7].pubkey
                == params.source_token_account && metas[8].pubkey
                == params.destination_token_account
            &&& metas[9].pubkey == amm.base_token_program
            &&& metas[10].pubkey == amm.quote_token_program
            &&& forall|i: int| 0 <= i < metas.len() ==> (#[trigger] metas[i]).is_signer == (i == 0)
            &&& forall|i: int|
                0 <= i < metas.len() ==> (#[trigger] metas[i]).is_writable == (i != 0 && i != 3 && i
                    != 4 && i != 9 && i != 10)
        }),
{
    let fixed = amm.fixed_metas(header, params);
    let n = amm.maker_books@.len() as int;
    let books = book_metas(amm.maker_books@, n, slot, header.maker_fee_ppm);
    let metas = swap_accounts(amm, header, params, slot);
    assert(fixed.len() == 11);
    lemma_book_places(amm.maker_books@, n, slot, header.maker_fee_ppm);
    assert forall|i: int| 0 <= i < metas.len() implies metas[i] == (if i < 11 {
        fixed[i]
    } else {
        books[i - 11]
    }) by {}
    assert forall|i: int| 11 <= i < metas.len() implies !(#[trigger] metas[i]).is_signer
        && metas[i].is_writable by {
        assert(metas[i] == books[i - 11]);
    }
}

/// Whether the accounts from `from` on are the books at the places `at`, and these
/// are all that take part for a taker who is not known, in order.
pub open spec fn hands_over_all(
    at: Seq<int>,
    metas: Seq<AccountMeta>,
    from: int,
    books: Seq<(Pubkey, MakerBook)>,
    slot: u64,
    maker_fee_ppm: i32,
) -> bool {
    &&& metas.len() == from + at.len()
    &&& forall|k: int|
        0 <= k < at.len() ==> {
            &&& 0 <= #[trigger] at[k] < books.len()
            &&& eligible(books[at[k]].1, slot, None, maker_fee_ppm)
            &&& metas[from + k].pubkey == books[at[k]].0
        }
    &&& forall|k: int, l: int| 0 <= k < l < at.len() ==> #[trigger] at[k] < #[trigger] at[l]
    &&& forall|m: int|
        0 <= m < books.len() && eligible(books[m].1, slot, None, maker_fee_ppm)
            ==> #[trigger] at.contains(m)
}

/// The places of the books that take part.
spec fn book_places(books: Seq<(Pubkey, MakerBook)>, n: int, slot: u64, maker_fee_ppm: i32) -> Seq<
    int,
>
    decreases n,
{
    if n <= 0 {
        Seq::empty()
    } else {
        let before = book_places(books, n - 1, slot, maker_fee_ppm);
        if eligible(books[n - 1].1, slot, None, maker_fee_ppm) {
            before.push(n - 1)
        } else {
            before
        }
    }
}

/// The books' accounts stand for the books at their places.
proof fn lemma_book_places(
    books: Seq<(Pubkey, MakerBook)>,
    n: int,
    slot: u64,
    maker_fee_ppm: i32,
)
    requires
        0 <= n <= books.len(),
    ensures
        ({
            let at = book_places(books, n, slot, maker_fee_ppm);
            let metas = book_metas(books, n, slot, maker_fee_ppm);
            &&& metas.len() == at.len()
            &&& forall|k: int|
                0 <= k < at.len() ==> {
                    &&& 0 <= #[trigger] at[k] < n
                    &&& eligible(books[at[k]].1, slot, None, maker_fee_ppm)
                    &&& metas[k].pubkey == books[at[k]].0
                }
            &&& forall|k: int|
                0 <= k < metas.len() ==> !(#[trigger] metas[k]).is_signer && metas[k].is_writable
            &&& forall|k: int, l: int| 0 <= k < l < at.len() ==> #[trigger] at[k] < #[trigger] at[l]
            &&& forall|m: int|
                0 <= m < n && eligible(books[m].1, slot, None, maker_fee_ppm)
                    ==> #[trigger] at.contains(m)
        }),
    decreases n,
{
    if n > 0 {
        lemma_book_places(books, n - 1, slot, maker_fee_ppm);
        let before = book_places(books, n - 1, slot, maker_fee_ppm);
        let at = book_places(books, n, slot, maker_fee_ppm);
        assert forall|m: int|
            0 <= m < n && eligible(books[m].1, slot, None, maker_fee_ppm) implies #[trigger] at.contains(
            m,
        ) by {
            if m < n - 1 {
                assert(before.contains(m));
                let k = choose|k: int| 0 <= k < before.len() && before[k] == m;
                assert(at[k] == m);
            } else {
                assert(at[at.len() - 1] == m);
            }
        }
    }
}

/// Behind the fixed accounts stand the books that take part, all of them and in
/// order.
pub proof fn law_every_book_that_takes_part_is_handed_over(
    amm: ArcherAmm,
    header: MarketStateHeader,
    params: SwapParams,
    slot: u64,
)
    ensures
        exists|at: Seq<int>| #[trigger]
            hands_over_all(
                at,
                swap_accounts(amm, header, params, slot),
                11,
                amm.maker_books@,
                slot,
                header.maker_fee_ppm,
            ),
{
    let books = amm.maker_books@;
    let n = books.len() as int;
    let ppm = header.maker_fee_ppm;
    let at = book_places(books, n, slot, ppm);
    let fixed = amm.fixed_metas(header, params);
    let metas = swap_accounts(amm, header, params, slot);
    lemma_book_places(books, n, slot, ppm);
    assert(fixed.len() == 11);
    assert forall|k: int| 0 <= k < at.len() implies metas[11 + k].pubkey == books[#[trigger] at[k]].0 by {
        assert(metas[11 + k] == book_metas(books, n, slot, ppm)[k]);
    }
    assert(hands_over_all(at, metas, 11, books, slot, ppm));
}

} // verus!
