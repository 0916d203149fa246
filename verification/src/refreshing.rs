//! What a market knows after a look at accounts, and where it has it from.

use vstd::prelude::*;

use crate::amm::{
    ArcherAmm, Fits, book_at, books_at, distinct, header_after, kept, keys_after, usable,
};
use crate::decode::{book_in, market_in, registry_in};
use crate::pubkey::{Pubkey, SPL_TOKEN_PROGRAM, TOKEN_2022_PROGRAM};
use crate::router::{Clock, KeyedAccount, Quote, QuoteParams, found};
use crate::state::{MakerBook, MakerRegistry};

verus! {

/// Whether the account at place `i` is the one that counts for an address: the
/// first that has it.
pub open spec fn stands_for(accounts: Seq<KeyedAccount>, i: int, key: Pubkey) -> bool {
    &&& 0 <= i < accounts.len()
    &&& accounts[i].key == key
    &&& forall|j: int| 0 <= j < i ==> (#[trigger] accounts[j]).key != key
}

/// Whether no account has an address.
pub open spec fn is_missing(accounts: Seq<KeyedAccount>, key: Pubkey) -> bool {
    forall|j: int| 0 <= j < accounts.len() ==> (#[trigger] accounts[j]).key != key
}

/// The account that is looked up at an address is the first that has it; there is
/// none exactly where no account has it.
pub proof fn law_first_account_counts(accounts: Seq<KeyedAccount>, key: Pubkey)
    ensures
        forall|i: int| #[trigger]
            stands_for(accounts, i, key) ==> found(accounts, key) == Some(accounts[i].account),
        found(accounts, key) is None <==> is_missing(accounts, key),
        is_missing(accounts, key) || exists|i: int| #[trigger] stands_for(accounts, i, key),
    decreases accounts.len(),
{
    if accounts.len() > 0 {
        let rest = accounts.drop_first();
        assert(forall|j: int| 0 <= j < rest.len() ==> #[trigger] rest[j] == accounts[j + 1]);
        if accounts[0].key == key {
            assert(stands_for(accounts, 0, key));
            assert forall|i: int| #[trigger] stands_for(accounts, i, key) implies i == 0 by {
                assert(i > 0 ==> accounts[0].key != key);
            }
        } else {
            law_first_account_counts(rest, key);
            assert forall|i: int| #[trigger] stands_for(accounts, i, key) implies found(
                accounts,
                key,
            ) == Some(accounts[i].account) by {
                assert forall|j: int| 0 <= j < i - 1 implies (#[trigger] rest[j]).key != key by {
                    assert(rest[j] == accounts[j + 1]);
                }
                assert(stands_for(rest, i - 1, key));
            }
            if is_missing(rest, key) {
                assert forall|j: int| 0 <= j < accounts.len() implies (#[trigger] accounts[j]).key
                    != key by {
                    if j > 0 {
                        assert(rest[j - 1] == accounts[j]);
                    }
                }
            } else {
                let i = choose|i: int| #[trigger] stands_for(rest, i, key);
                assert forall|j: int| 0 <= j < i + 1 implies (#[trigger] accounts[j]).key
                    != key by {
                    if j > 0 {
                        assert(rest[j - 1] == accounts[j]);
                    }
                }
                assert(stands_for(accounts, i + 1, key));
                assert(!is_missing(accounts, key));
            }
        }
    }
}

/// How many of a registry's entries count: as many as it says it holds, and no
/// more than it has room for.
pub open spec fn entries(registry: MakerRegistry) -> int {
    if registry.num_makers <= 64 {
        registry.num_makers as int
    } else {
        64
    }
}

/// Whether a registry mentions a key.
pub open spec fn mentions(makers: Seq<Pubkey>, key: Pubkey) -> bool {
    exists|j: int| 0 <= j < makers.len() && #[trigger] makers[j] == key
}

/// Whether keys are those that are mentioned, all of them, each once, and in the
/// order of their first mention.
pub open spec fn lists_mentioned(keys: Seq<Pubkey>, makers: Seq<Pubkey>) -> bool {
    &&& forall|a: int, b: int| 0 <= a < b < keys.len() ==> #[trigger] keys[a] != #[trigger] keys[b]
    &&& forall|a: int| 0 <= a < keys.len() ==> mentions(makers, #[trigger] keys[a])
    &&& forall|j: int| 0 <= j < makers.len() ==> mentions(keys, #[trigger] makers[j])
    &&& forall|a: int, b: int, j: int|
        0 <= a < b < keys.len() && 0 <= j < makers.len() && #[trigger] makers[j]
            == #[trigger] keys[b] ==> mentions(makers.take(j), #[trigger] keys[a])
}

/// Repetitions go, and nothing else does.
proof fn lemma_distinct_lists(makers: Seq<Pubkey>)
    ensures
        lists_mentioned(distinct(makers), makers),
    decreases makers.len(),
{
    let keys = distinct(makers);
    if makers.len() > 0 {
        let front = makers.drop_last();
        let last = makers.last();
        let before = distinct(front);
        lemma_distinct_lists(front);
        let n = makers.len() - 1;
        assert(forall|j: int| 0 <= j < n ==> #[trigger] front[j] == makers[j]);
        assert(forall|a: int| 0 <= a < before.len() ==> #[trigger] before[a] == keys[a]);
        assert(mentions(keys, last)) by {
            if before.contains(last) {
                let a = choose|a: int| 0 <= a < before.len() && before[a] == last;
                assert(keys[a] == last);
            } else {
                assert(keys[keys.len() - 1] == last);
            }
        }
        assert forall|j: int| 0 <= j < makers.len() implies mentions(keys, #[trigger] makers[j]) by {
            if j < n {
                assert(mentions(before, front[j]));
                let a = choose|a: int| 0 <= a < before.len() && #[trigger] before[a] == front[j];
                assert(keys[a] == makers[j]);
            }
        }
        assert forall|a: int| 0 <= a < keys.len() implies mentions(makers, #[trigger] keys[a]) by {
            if a < before.len() {
                assert(mentions(front, before[a]));
                let j = choose|j: int| 0 <= j < front.len() && #[trigger] front[j] == before[a];
                assert(makers[j] == keys[a]);
            } else {
                assert(makers[n] == keys[a]);
            }
        }
        assert forall|a: int, b: int, j: int|
            0 <= a < b < keys.len() && 0 <= j < makers.len() && #[trigger] makers[j]
                == #[trigger] keys[b] implies mentions(makers.take(j), #[trigger] keys[a]) by {
            assert(a < before.len());
            if j < n {
                assert(front.take(j) =~= makers.take(j));
                if b < before.len() {
                    assert(front[j] == before[b]);
                    assert(mentions(front.take(j), before[a]));
                } else {
                    assert(mentions(before, front[j]));
                    let c = choose|c: int| 0 <= c < before.len() && #[trigger] before[c]
                        == front[j];
                    assert(before.contains(last));
                }
            } else {
                assert(makers.take(j) =~= front);
                assert(mentions(front, before[a]));
            }
        }
        assert forall|a: int, b: int| 0 <= a < b < keys.len() implies #[trigger] keys[a]
            != #[trigger] keys[b] by {
            assert(keys[a] == before[a]);
            if b < before.len() {
                assert(keys[b] == before[b]);
            } else {
                assert(!before.contains(last));
            }
        }
    }
}

/// Where the registry's account holds a registry, the book keys after an update
/// are the ones its entries mention, each once, in the order of their first
/// mention, whatever they were before. Where it does not, they stay.
pub proof fn law_update_takes_the_registrys_keys(
    before: ArcherAmm,
    after: ArcherAmm,
    accounts: Seq<KeyedAccount>,
    fits: Fits,
)
    requires
        after.updated_from(before, accounts, fits),
    ensures
        forall|i: int| #[trigger]
            stands_for(accounts, i, before.registry_key) ==> match registry_in(
                accounts[i].account.data@,
            ) {
                Some(registry) => lists_mentioned(
                    after.maker_book_keys@,
                    registry.makers@.take(entries(registry)),
                ),
                None => after.maker_book_keys@ == before.maker_book_keys@,
            },
        is_missing(accounts, before.registry_key) ==> after.maker_book_keys@
            == before.maker_book_keys@,
{
    law_known_keys(before, accounts);
}

/// The book keys that a market goes by when it looks at accounts: those that its
/// registry mentions, where it is there, and otherwise those it knew.
pub proof fn law_known_keys(before: ArcherAmm, accounts: Seq<KeyedAccount>)
    ensures
        forall|i: int| #[trigger]
            stands_for(accounts, i, before.registry_key) ==> match registry_in(
                accounts[i].account.data@,
            ) {
                Some(registry) => lists_mentioned(
                    keys_after(before, accounts),
                    registry.makers@.take(entries(registry)),
                ),
                None => keys_after(before, accounts) == before.maker_book_keys@,
            },
        is_missing(accounts, before.registry_key) ==> keys_after(before, accounts)
            == before.maker_book_keys@,
{
    law_first_account_counts(accounts, before.registry_key);
    assert forall|i: int| #[trigger]
        stands_for(accounts, i, before.registry_key) implies match registry_in(
        accounts[i].account.data@,
    ) {
        Some(registry) => lists_mentioned(
            keys_after(before, accounts),
            registry.makers@.take(entries(registry)),
        ),
        None => keys_after(before, accounts) == before.maker_book_keys@,
    } by {
        if let Some(registry) = registry_in(accounts[i].account.data@) {
            lemma_distinct_lists(registry.makers@.take(entries(registry)));
        }
    }
}

/// Two markets with one registry that see it in the same accounts go by the same
/// book keys, whatever each knew before.
pub proof fn law_past_keys_do_not_matter(
    a: ArcherAmm,
    b: ArcherAmm,
    accounts: Seq<KeyedAccount>,
    i: int,
)
    requires
        a.registry_key == b.registry_key,
        stands_for(accounts, i, a.registry_key),
        registry_in(accounts[i].account.data@) is Some,
    ensures
        keys_after(a, accounts) == keys_after(b, accounts),
{
    law_first_account_counts(accounts, a.registry_key);
}

/// Whether place `i` among the keys has a book that a market takes over: there is
/// an account, its bytes fit and hold a book, the book names the market, and its
/// status byte is one or two.
pub open spec fn has_book(
    accounts: Seq<KeyedAccount>,
    keys: Seq<Pubkey>,
    i: int,
    market: Pubkey,
    fits: Set<int>,
    at: int,
    book: MakerBook,
) -> bool {
    &&& 0 <= i < keys.len()
    &&& stands_for(accounts, at, keys[i])
    &&& fits.contains(i)
    &&& book_in(accounts[at].account.data@) == Some(book)
    &&& book.market == market
    &&& book.status == 1 || book.status == 2
}

/// Whether `books` are the books at the places `at` among the keys, and these are
/// all that have one, in order.
pub open spec fn takes_over_all(
    at: Seq<int>,
    books: Seq<(Pubkey, MakerBook)>,
    accounts: Seq<KeyedAccount>,
    keys: Seq<Pubkey>,
    market: Pubkey,
    fits: Set<int>,
) -> bool {
    &&& at.len() == books.len()
    &&& forall|k: int|
        0 <= k < at.len() ==> {
            &&& 0 <= #[trigger] at[k] < keys.len()
            &&& books[k].0 == keys[at[k]]
            &&& exists|a: int| #[trigger]
                has_book(accounts, keys, at[k], market, fits, a, books[k].1)
        }
    &&& forall|k: int, l: int| 0 <= k < l < at.len() ==> #[trigger] at[k] < #[trigger] at[l]
    &&& forall|i: int, a: int, book: MakerBook| #[trigger]
        has_book(accounts, keys, i, market, fits, a, book) ==> at.contains(i)
}

/// The places of the books that are kept.
spec fn kept_places(decoded: Seq<Option<MakerBook>>, n: int, market: Pubkey) -> Seq<int>
    decreases n,
{
    if n <= 0 {
        Seq::empty()
    } else {
        let before = kept_places(decoded, n - 1, market);
        if decoded[n - 1] matches Some(book) && usable(book, market) {
            before.push(n - 1)
        } else {
            before
        }
    }
}

/// The books that are kept stand at their places.
proof fn lemma_kept_places(
    keys: Seq<Pubkey>,
    decoded: Seq<Option<MakerBook>>,
    n: int,
    market: Pubkey,
)
    requires
        0 <= n <= keys.len(),
    ensures
        ({
            let at = kept_places(decoded, n, market);
            let books = kept(keys, decoded, n, market);
            &&& at.len() == books.len()
            &&& forall|k: int|
                0 <= k < at.len() ==> {
                    &&& 0 <= #[trigger] at[k] < n
                    &&& books[k].0 == keys[at[k]]
                    &&& decoded[at[k]] == Some(books[k].1)
                    &&& usable(books[k].1, market)
                }
            &&& forall|k: int, l: int| 0 <= k < l < at.len() ==> #[trigger] at[k] < #[trigger] at[l]
            &&& forall|i: int|
                0 <= i < n && (#[trigger] decoded[i] matches Some(book) && usable(book, market))
                    ==> at.contains(i)
        }),
    decreases n,
{
    if n > 0 {
        lemma_kept_places(keys, decoded, n - 1, market);
        let before = kept_places(decoded, n - 1, market);
        let at = kept_places(decoded, n, market);
        assert forall|i: int|
            0 <= i < n && (#[trigger] decoded[i] matches Some(book) && usable(
                book,
                market,
            )) implies at.contains(i) by {
            if i < n - 1 {
                assert(before.contains(i));
                let k = choose|k: int| 0 <= k < before.len() && before[k] == i;
                assert(at[k] == i);
            } else {
                assert(at[at.len() - 1] == i);
            }
        }
    }
}

/// After an update the market has every book that it can take over, in the order
/// of the keys, and no other.
pub proof fn law_update_takes_over_every_book(
    before: ArcherAmm,
    after: ArcherAmm,
    accounts: Seq<KeyedAccount>,
    fits: Fits,
)
    requires
        after.updated_from(before, accounts, fits),
    ensures
        exists|at: Seq<int>| #[trigger]
            takes_over_all(
                at,
                after.maker_books@,
                accounts,
                after.maker_book_keys@,
                before.market_key,
                fits.books,
            ),
{
    let keys = after.maker_book_keys@;
    let market = before.market_key;
    let decoded = books_at(accounts, keys, fits.books);
    let at = kept_places(decoded, keys.len() as int, market);
    let books = after.maker_books@;
    lemma_kept_places(keys, decoded, keys.len() as int, market);
    assert forall|k: int| 0 <= k < at.len() implies exists|a: int| #[trigger]
        has_book(accounts, keys, #[trigger] at[k], market, fits.books, a, books[k].1) by {
        let i = at[k];
        assert(decoded[i] == book_at(accounts, keys[i], fits.books.contains(i)));
        law_first_account_counts(accounts, keys[i]);
        let a = choose|a: int| #[trigger] stands_for(accounts, a, keys[i]);
        assert(has_book(accounts, keys, i, market, fits.books, a, books[k].1));
    }
    assert forall|i: int, a: int, book: MakerBook| #[trigger]
        has_book(accounts, keys, i, market, fits.books, a, book) implies at.contains(i) by {
        law_first_account_counts(accounts, keys[i]);
        assert(decoded[i] == book_at(accounts, keys[i], fits.books.contains(i)));
    }
    assert(takes_over_all(at, books, accounts, keys, market, fits.books));
}

/// After an update the header is that of the market's account, where there is
/// one, and otherwise the one that was known.
pub proof fn law_update_takes_the_header(
    before: ArcherAmm,
    after: ArcherAmm,
    accounts: Seq<KeyedAccount>,
    fits: Fits,
)
    requires
        after.updated_from(before, accounts, fits),
    ensures
        forall|i: int| #[trigger]
            stands_for(accounts, i, before.market_key) ==> after.market_header is Some
                && after.market_header == market_in(accounts[i].account.data@),
        is_missing(accounts, before.market_key) ==> after.market_header == before.market_header,
        after.market_key == before.market_key,
        after.registry_key == before.registry_key,
        after.builder_fee_wallet == before.builder_fee_wallet,
{
    law_first_account_counts(accounts, before.market_key);
}

/// Whether a token is known as an account shows it: its bytes are the account's,
/// and its program is the one with extensions exactly where that owns the account,
/// and the plain one otherwise.
pub open spec fn known_from(
    program: Pubkey,
    data: Seq<u8>,
    mint: KeyedAccount,
) -> bool {
    &&& data == mint.account.data@
    &&& program.bytes == TOKEN_2022_PROGRAM <==> mint.account.owner.bytes == TOKEN_2022_PROGRAM
    &&& program.bytes == TOKEN_2022_PROGRAM || program.bytes == SPL_TOKEN_PROGRAM
}

/// After an update each token is known as its own mint's account shows it, where
/// that was there, and otherwise as it was.
pub proof fn law_update_takes_each_mint(
    before: ArcherAmm,
    after: ArcherAmm,
    accounts: Seq<KeyedAccount>,
    fits: Fits,
)
    requires
        after.updated_from(before, accounts, fits),
    ensures
        after.market_header matches Some(header) ==> {
            &&& forall|i: int| #[trigger]
                stands_for(accounts, i, header.base_mint) ==> known_from(
                    after.base_token_program,
                    after.base_mint_data@,
                    accounts[i],
                )
            &&& forall|i: int| #[trigger]
                stands_for(accounts, i, header.quote_mint) ==> known_from(
                    after.quote_token_program,
                    after.quote_mint_data@,
                    accounts[i],
                )
            &&& is_missing(accounts, header.base_mint) ==> after.base_token_program
                == before.base_token_program && after.base_mint_data@ == before.base_mint_data@
            &&& is_missing(accounts, header.quote_mint) ==> after.quote_token_program
                == before.quote_token_program && after.quote_mint_data@ == before.quote_mint_data@
        },
        after.market_header is None ==> {
            &&& after.base_token_program == before.base_token_program
            &&& after.base_mint_data@ == before.base_mint_data@
            &&& after.quote_token_program == before.quote_token_program
            &&& after.quote_mint_data@ == before.quote_mint_data@
        },
{
    assert(SPL_TOKEN_PROGRAM[4] != TOKEN_2022_PROGRAM[4]);
    if let Some(header) = after.market_header {
        law_first_account_counts(accounts, header.base_mint);
        law_first_account_counts(accounts, header.quote_mint);
    }
}

/// The mints of a loaded market are its two, base first.
pub proof fn law_base_mint_comes_first(amm: ArcherAmm)
    ensures
        amm.market_header is None <==> amm.mints().len() == 0,
        amm.market_header matches Some(header) ==> amm.mints().len() == 2 && amm.mints()[0]
            == header.base_mint && amm.mints()[1] == header.quote_mint,
{
}

/// Whether a key is among keys, by its place.
proof fn lemma_mentions(keys: Seq<Pubkey>, key: Pubkey)
    ensures
        mentions(keys, key) <==> keys.contains(key),
{
    if mentions(keys, key) {
        let j = choose|j: int| 0 <= j < keys.len() && #[trigger] keys[j] == key;
        assert(keys[j] == key);
    }
}

/// A key is among keys put together where it is among some of them.
proof fn lemma_contains_either(a: Seq<Pubkey>, b: Seq<Pubkey>, key: Pubkey)
    ensures
        (a + b).contains(key) <==> a.contains(key) || b.contains(key),
{
    let all = a + b;
    if a.contains(key) {
        let i = choose|i: int| 0 <= i < a.len() && a[i] == key;
        assert(all[i] == key);
    }
    if b.contains(key) {
        let i = choose|i: int| 0 <= i < b.len() && b[i] == key;
        assert(all[a.len() + i] == key);
    }
}

/// A market asks for the accounts of itself, its registry, its books and, once it is
/// loaded, its mints, and no others. These are the ones that an update looks at which
/// shows nothing new of the market, neither a header nor book keys.
pub proof fn law_market_asks_for_what_it_reads(
    amm: ArcherAmm,
    accounts: Seq<KeyedAccount>,
    key: Pubkey,
)
    ensures
        amm.asked_for().contains(key) <==> {
            ||| key == amm.market_key
            ||| key == amm.registry_key
            ||| mentions(amm.maker_book_keys@, key)
            ||| amm.market_header matches Some(header) && (key == header.base_mint || key
                == header.quote_mint)
        },
        keys_after(amm, accounts) == amm.maker_book_keys@ && header_after(amm, accounts, true)
            == Some(amm.market_header) ==> (amm.looked_at(accounts).contains(key)
            <==> amm.asked_for().contains(key)),
{
    let first = seq![amm.market_key, amm.registry_key];
    let mints = amm.mints();
    let books = amm.maker_book_keys@;
    lemma_mentions(books, key);
    lemma_contains_either(first, books, key);
    lemma_contains_either(first + books, mints, key);
    lemma_contains_either(first, mints, key);
    lemma_contains_either(first + mints, books, key);
    assert(first.contains(key) <==> key == amm.market_key || key == amm.registry_key) by {
        assert(first[0] == amm.market_key && first[1] == amm.registry_key);
    }
    if let Some(header) = amm.market_header {
        assert(mints[0] == header.base_mint && mints[1] == header.quote_mint);
    }
}

/// A market of which nothing is loaded gives no quote, whatever it is asked, and
/// charges nothing for moving its tokens, which count as plain ones.
pub proof fn law_unloaded_market_gives_nothing(
    amm: ArcherAmm,
    key: Pubkey,
    registry: Pubkey,
    params: QuoteParams,
    clock: Clock,
    of_quote: bool,
    amount: u64,
)
    requires
        amm.unloaded(key, registry),
    ensures
        amm.market_key == key && amm.registry_key == registry,
        amm.quoted(params, clock) == Err::<Quote, Seq<char>>("Market not loaded"@),
        amm.transfer_fee(of_quote, amount, clock.epoch) == Ok::<u64, Seq<char>>(0),
        amm.base_token_program.bytes == SPL_TOKEN_PROGRAM,
        amm.quote_token_program.bytes == SPL_TOKEN_PROGRAM,
        amm.asked_for() =~= seq![key, registry],
        amm.builder_fee_wallet is None,
{
}

} // verus!
