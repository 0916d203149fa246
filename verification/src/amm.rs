//! A market as a router sees it: which accounts it wants to read, what a swap
//! gives, and which accounts a swap touches.

use vstd::prelude::*;

use crate::address::{has_registry, is_registry_of, registry_address};
use crate::decimal::{decimal, decimal_of};
use crate::decode::{self, book_in, law_one_market, market_in, registry_in};
use crate::error::{
    AmmError, ArcherAmmError, ErrorModel, amm_error, amm_error_because, amm_outcome,
};
use crate::layout::{has_tag, starts_with_tag};
use crate::pubkey::{ARCHER_PROGRAM_ID, Pubkey, SPL_TOKEN_PROGRAM};
use crate::quote::{QuoteOutput, book_is_eligible, compute_quote, eligible, quote_outcome};
use crate::refreshing::{
    entries, is_missing, law_update_takes_the_registrys_keys, lists_mentioned, stands_for,
};
use crate::router::{
    Account, AccountMeta, Clock, KeyedAccount, Quote, QuoteParams, Swap, SwapAndAccountMetas,
    SwapMode, SwapParams, find_account, found, readonly, writable,
};
use crate::state::{
    MARKET_DISCRIMINATOR, MARKET_STATUS_ACTIVE, MAX_MAKERS, MakerBook, MakerRegistry,
    MarketStateHeader, market_header_given,
};
use crate::token::{fee_outcome, token_program_for_mint, token_program_of, transfer_fee_atoms};

verus! {

/// A copy of bytes.
fn copy_bytes(data: &Vec<u8>) -> (copy: Vec<u8>)
    ensures
        copy@ == data@,
{
    let copy: Vec<u8> = data.clone();
    assert(copy@ =~= data@);
    copy
}

/// The keys without those that came before.
pub open spec fn distinct(keys: Seq<Pubkey>) -> Seq<Pubkey>
    decreases keys.len(),
{
    if keys.len() == 0 {
        keys
    } else {
        let before = distinct(keys.drop_last());
        if before.contains(keys.last()) {
            before
        } else {
            before.push(keys.last())
        }
    }
}

/// The books that a registry lists, each once, in the order of their first
/// mention.
pub open spec fn listed(registry: MakerRegistry) -> Seq<Pubkey> {
    distinct(registry.makers@.take(registry.seated()))
}

/// Whether `key` is among the keys.
fn contains_key(keys: &Vec<Pubkey>, key: &Pubkey) -> (r: bool)
    ensures
        r == keys@.contains(*key),
{
    let mut i: usize = 0;
    while i < keys.len()
        invariant
            i <= keys.len(),
            forall|j: int| 0 <= j < i ==> keys@[j] != *key,
        decreases keys.len() - i,
    {
        if keys[i] == *key {
            assert(keys@[i as int] == *key);
            return true;
        }
        i = i + 1;
    }
    false
}

/// The books that a registry lists.
pub fn listed_books(registry: &MakerRegistry) -> (keys: Vec<Pubkey>)
    ensures
        keys@ == listed(*registry),
{
    let num: usize = if (registry.num_makers as usize) < MAX_MAKERS {
        registry.num_makers as usize
    } else {
        MAX_MAKERS
    };
    let mut keys: Vec<Pubkey> = Vec::with_capacity(num);
    let mut i: usize = 0;
    assert(registry.makers@.take(0) =~= Seq::empty());
    while i < num
        invariant
            i <= num <= MAX_MAKERS,
            keys@ == distinct(registry.makers@.take(i as int)),
        decreases num - i,
    {
        let key: Pubkey = registry.makers[i];
        assert(registry.makers@.take(i + 1).drop_last() =~= registry.makers@.take(i as int));
        assert(registry.makers@.take(i + 1).last() == key);
        if !contains_key(&keys, &key) {
            keys.push(key);
        }
        i = i + 1;
    }
    keys
}

/// Whether a book is one of this market's, with a status that says something.
pub open spec fn usable(book: MakerBook, market: Pubkey) -> bool {
    book.market == market && book.status_model() is Some
}

/// The usable ones among the books decoded at the first `n` keys.
pub open spec fn kept(
    keys: Seq<Pubkey>,
    decoded: Seq<Option<MakerBook>>,
    n: int,
    market: Pubkey,
) -> Seq<(Pubkey, MakerBook)>
    decreases n,
{
    if n <= 0 {
        Seq::empty()
    } else {
        let before = kept(keys, decoded, n - 1, market);
        match decoded[n - 1] {
            Some(book) => if usable(book, market) {
                before.push((keys[n - 1], book))
            } else {
                before
            },
            None => before,
        }
    }
}

/// Keeps the usable ones among the books decoded at `keys`.
pub fn keep_books(keys: &Vec<Pubkey>, decoded: &Vec<Option<MakerBook>>, market: &Pubkey) -> (books:
    Vec<(Pubkey, MakerBook)>)
    requires
        keys@.len() == decoded@.len(),
    ensures
        books@ == kept(keys@, decoded@, keys@.len() as int, *market),
{
    let mut books: Vec<(Pubkey, MakerBook)> = Vec::new();
    let mut i: usize = 0;
    while i < keys.len()
        invariant
            i <= keys.len(),
            keys@.len() == decoded@.len(),
            books@ == kept(keys@, decoded@, i as int, *market),
        decreases keys.len() - i,
    {
        if let Some(book) = decoded[i] {
            if book.market == *market && book.get_status().is_some() {
                books.push((keys[i], book));
            }
        }
        i = i + 1;
    }
    books
}

/// Which accounts' bytes lie where the program's types can be laid over them:
/// the market's, and those of the books, by their place among the keys. It is a
/// matter of addresses, and nothing is said of it.
pub struct Fits {
    pub market: bool,
    pub books: Set<int>,
}

/// The book that the account at a key holds, where its bytes fit.
pub open spec fn book_at(accounts: Seq<KeyedAccount>, key: Pubkey, fits: bool) -> Option<
    MakerBook,
> {
    match found(accounts, key) {
        Some(account) => if fits {
            book_in(account.data@)
        } else {
            None
        },
        None => None,
    }
}

/// The books that the accounts at the keys hold, where their bytes fit.
pub open spec fn books_at(accounts: Seq<KeyedAccount>, keys: Seq<Pubkey>, fits: Set<int>) -> Seq<
    Option<MakerBook>,
> {
    Seq::new(keys.len(), |i: int| book_at(accounts, keys[i], fits.contains(i)))
}

/// Whether `decoded` is what the decoder answered on these bytes: a book, or
/// none where it refused them.
pub open spec fn book_decoded(data: Seq<u8>, decoded: Option<MakerBook>) -> bool {
    exists|bytes: &[u8], r: Result<MakerBook, ArcherAmmError>|
        {
            &&& bytes@ == data
            &&& #[trigger] call_ensures(decode::maker_book, (bytes,), r)
            &&& decoded == (match r {
                Ok(book) => Some(book),
                Err(_) => None,
            })
        }
}

/// Whether `decoded` is what the decoder answered on the accounts at the keys,
/// and none where there is no account.
pub open spec fn books_decoded(
    accounts: Seq<KeyedAccount>,
    keys: Seq<Pubkey>,
    decoded: Seq<Option<MakerBook>>,
) -> bool {
    &&& decoded.len() == keys.len()
    &&& forall|i: int|
        0 <= i < keys.len() ==> match found(accounts, #[trigger] keys[i]) {
            Some(account) => book_decoded(account.data@, decoded[i]),
            None => decoded[i] is None,
        }
}

/// Whether `market` is what the decoder answered on a market's account, if there
/// is one.
pub open spec fn market_decoded(
    account: Option<Account>,
    market: Option<Result<MarketStateHeader, ArcherAmmError>>,
) -> bool {
    match (account, market) {
        (Some(account), Some(r)) => exists|bytes: &[u8]|
            bytes@ == account.data@ && #[trigger] call_ensures(
                decode::market_header,
                (bytes,),
                r,
            ),
        (None, None) => true,
        _ => false,
    }
}

/// Decodes the books at `keys`. Every account that holds a book gives it, unless
/// its bytes do not fit.
pub fn decode_books(keys: &Vec<Pubkey>, accounts: &[KeyedAccount]) -> (decoded: Vec<
    Option<MakerBook>,
>)
    ensures
        books_decoded(accounts@, keys@, decoded@),
        exists|fits: Set<int>| decoded@ == #[trigger] books_at(accounts@, keys@, fits),
{
    let mut decoded: Vec<Option<MakerBook>> = Vec::new();
    let ghost mut fits: Set<int> = Set::empty();
    let mut i: usize = 0;
    while i < keys.len()
        invariant
            i <= keys.len(),
            decoded@.len() == i,
            forall|j: int| fits.contains(j) ==> 0 <= j < i,
            forall|j: int|
                0 <= j < i ==> #[trigger] decoded@[j] == book_at(
                    accounts@,
                    keys@[j],
                    fits.contains(j),
                ),
            forall|j: int|
                0 <= j < i ==> match found(accounts@, #[trigger] keys@[j]) {
                    Some(account) => book_decoded(account.data@, decoded@[j]),
                    None => decoded@[j] is None,
                },
        decreases keys.len() - i,
    {
        let mut book: Option<MakerBook> = None;
        if let Some(account) = find_account(accounts, &keys[i]) {
            let bytes: &[u8] = account.data.as_slice();
            let r: Result<MakerBook, ArcherAmmError> = decode::maker_book(bytes);
            assert(call_ensures(decode::maker_book, (bytes,), r));
            if let Ok(read) = r {
                book = Some(read);
                proof {
                    fits = fits.insert(i as int);
                }
            }
            assert(book_decoded(account.data@, book));
        }
        decoded.push(book);
        i = i + 1;
    }
    assert(decoded@ =~= books_at(accounts@, keys@, fits));
    decoded
}

/// One Archer market.
#[derive(Debug, Clone)]
pub struct ArcherAmm {
    pub market_key: Pubkey,
    pub registry_key: Pubkey,
    pub market_header: Option<MarketStateHeader>,
    pub maker_book_keys: Vec<Pubkey>,
    pub maker_books: Vec<(Pubkey, MakerBook)>,
    pub base_token_program: Pubkey,
    pub quote_token_program: Pubkey,
    /// The bytes of the base mint, as last seen.
    pub base_mint_data: Vec<u8>,
    /// The bytes of the quote mint, as last seen.
    pub quote_mint_data: Vec<u8>,
    /// Quote token account that receives the builder fee.
    pub builder_fee_wallet: Option<Pubkey>,
}

/// The lot in which a swap's input is counted: quote lots buy, base lots sell.
pub open spec fn input_lot(header: MarketStateHeader, is_buy: bool) -> u64 {
    if is_buy {
        header.quote_atoms_per_quote_lot
    } else {
        header.base_atoms_per_base_lot
    }
}

/// The atoms in the whole lots of an amount.
pub open spec fn whole_lots(amount: u64, per_lot: u64) -> u64 {
    ((amount as int / per_lot as int) * per_lot) as u64
}

/// The whole lots that arrive where `fee` is charged on the transfer of an
/// amount's whole lots.
pub open spec fn spendable(amount: u64, per_lot: u64, fee: u64) -> u64 {
    let sent = whole_lots(amount, per_lot);
    if fee >= sent {
        0
    } else {
        ((sent - fee) / per_lot as int) as u64
    }
}

/// The whole lots of an amount, in atoms.
pub fn budget_atoms(amount: u64, per_lot: u64) -> (r: u64)
    requires
        per_lot > 0,
    ensures
        r == whole_lots(amount, per_lot),
        r <= amount,
        r as int % per_lot as int == 0,
{
    let lots: u64 = amount / per_lot;
    proof {
        let a = amount as int;
        let d = per_lot as int;
        assert(0 <= (a / d) * d <= a && ((a / d) * d) % d == 0) by (nonlinear_arith)
            requires
                a >= 0,
                d > 0,
        ;
    }
    lots * per_lot
}

/// The whole lots that arrive where `fee` is charged on the transfer of an
/// amount's whole lots.
pub fn spendable_lots(amount: u64, per_lot: u64, fee: u64) -> (r: u64)
    requires
        per_lot > 0,
    ensures
        r == spendable(amount, per_lot, fee),
{
    let sent: u64 = budget_atoms(amount, per_lot);
    let arrived: u64 = sent.saturating_sub(fee);
    assert(0int / per_lot as int == 0) by (nonlinear_arith)
        requires
            per_lot > 0,
    ;
    arrived / per_lot
}

/// What a swap gives before the fee on the transfer of its output.
pub open spec fn gross_outcome(
    header: MarketStateHeader,
    books: Seq<(Pubkey, MakerBook)>,
    params: QuoteParams,
    slot: u64,
    input_fee: u64,
) -> Result<QuoteOutput, Seq<char>> {
    let is_buy = params.input_mint == header.quote_mint;
    let lots = spendable(params.amount, input_lot(header, is_buy), input_fee);
    match quote_outcome(lots, is_buy, header, books, slot, None) {
        Ok(output) => Ok(output),
        Err(e) => Err(e.text()),
    }
}

/// The quote that is left of `output` after the fee on its transfer. The fee
/// rate is that of the market, in parts per million.
pub open spec fn net_outcome(
    header: MarketStateHeader,
    amount: u64,
    output: QuoteOutput,
    output_fee: u64,
) -> Quote {
    Quote {
        in_amount: amount,
        out_amount: if output_fee >= output.out_amount {
            0
        } else {
            (output.out_amount - output_fee) as u64
        },
        fee_amount: output.fee_amount,
        fee_mint: header.quote_mint,
        fee_pct: if header.taker_fee_ppm != 0 {
            decimal_of(header.taker_fee_ppm as i64, 6)
        } else {
            decimal_of(0, 0)
        },
    }
}

/// What a swap gives before the fee on the transfer of its output.
pub fn gross_quote(
    header: &MarketStateHeader,
    maker_books: &[(Pubkey, MakerBook)],
    params: &QuoteParams,
    slot: u64,
    input_fee: u64,
) -> (r: Result<QuoteOutput, AmmError>)
    requires
        input_lot(*header, params.input_mint == header.quote_mint) > 0,
    ensures
        amm_outcome(r) == gross_outcome(*header, maker_books@, *params, slot, input_fee),
{
    let is_buy: bool = params.input_mint == header.quote_mint;
    let per_lot: u64 = if is_buy {
        header.quote_atoms_per_quote_lot
    } else {
        header.base_atoms_per_base_lot
    };
    let lots: u64 = spendable_lots(params.amount, per_lot, input_fee);
    match compute_quote(lots, is_buy, header, maker_books, slot, None) {
        Ok(output) => Ok(output),
        Err(e) => Err(amm_error(e.to_text().as_str())),
    }
}

/// The quote that is left of `output` after the fee on its transfer.
pub fn net_quote(header: &MarketStateHeader, amount: u64, output: &QuoteOutput, output_fee: u64) -> (r:
    Quote)
    ensures
        r == net_outcome(*header, amount, *output, output_fee),
{
    let fee_pct: rust_decimal::Decimal = if header.taker_fee_ppm != 0 {
        decimal(header.taker_fee_ppm as i64, 6)
    } else {
        decimal(0, 0)
    };
    Quote {
        in_amount: amount,
        out_amount: output.out_amount.saturating_sub(output_fee),
        fee_amount: output.fee_amount,
        fee_mint: header.quote_mint,
        fee_pct,
    }
}

/// The market header after a look at the accounts; none where the market's
/// account does not hold one, or its bytes do not fit.
pub open spec fn header_after(amm: ArcherAmm, accounts: Seq<KeyedAccount>, fits: bool) -> Option<
    Option<MarketStateHeader>,
> {
    match found(accounts, amm.market_key) {
        Some(account) => match market_in(account.data@) {
            Some(header) => if fits {
                Some(Some(header))
            } else {
                None
            },
            None => None,
        },
        None => Some(amm.market_header),
    }
}

/// The book keys after a look at the accounts: those that the registry lists,
/// where its account holds one.
pub open spec fn keys_after(amm: ArcherAmm, accounts: Seq<KeyedAccount>) -> Seq<Pubkey> {
    match found(accounts, amm.registry_key) {
        Some(account) => match registry_in(account.data@) {
            Some(registry) => listed(registry),
            None => amm.maker_book_keys@,
        },
        None => amm.maker_book_keys@,
    }
}

/// A mint's token program and bytes after a look at its account.
pub open spec fn mint_after(account: Option<Account>, program: Pubkey, data: Seq<u8>) -> (
    Pubkey,
    Seq<u8>,
) {
    match account {
        Some(account) => (token_program_of(account.owner), account.data@),
        None => (program, data),
    }
}

/// The books among the first `n` that take part in a swap, as accounts that are
/// written to.
pub open spec fn book_metas(
    books: Seq<(Pubkey, MakerBook)>,
    n: int,
    slot: u64,
    maker_fee_ppm: i32,
) -> Seq<AccountMeta>
    decreases n,
{
    if n <= 0 {
        Seq::empty()
    } else {
        let before = book_metas(books, n - 1, slot, maker_fee_ppm);
        if eligible(books[n - 1].1, slot, None, maker_fee_ppm) {
            before.push(writable(books[n - 1].0))
        } else {
            before
        }
    }
}

/// Whether `before` becomes `after`, with the outcome `r`, where the market and
/// the books at the keys decoded as said: a market that did not decode is
/// reported and changes nothing; otherwise what decoded is taken over.
pub open spec fn updates(
    before: ArcherAmm,
    after: ArcherAmm,
    r: Result<(), Seq<char>>,
    accounts: Seq<KeyedAccount>,
    market: Option<Result<MarketStateHeader, ArcherAmmError>>,
    keys: Seq<Pubkey>,
    decoded: Seq<Option<MakerBook>>,
) -> bool {
    match market {
        Some(Err(cause)) => {
            &&& r == Err::<(), Seq<char>>("Failed to deserialize market: "@ + cause@.text())
            &&& after == before
        },
        Some(Ok(header)) => r is Ok && after.taken_over(
            before,
            accounts,
            Some(header),
            keys,
            decoded,
        ),
        None => r is Ok && after.taken_over(
            before,
            accounts,
            before.market_header,
            keys,
            decoded,
        ),
    }
}

/// Keys that are each there once stay so, and there are no more of them.
proof fn lemma_distinct(keys: Seq<Pubkey>)
    ensures
        distinct(keys).no_duplicates(),
        distinct(keys).len() <= keys.len(),
    decreases keys.len(),
{
    if keys.len() > 0 {
        lemma_distinct(keys.drop_last());
    }
}

/// The books kept are found at the keys and belong to the market.
proof fn lemma_kept(
    keys: Seq<Pubkey>,
    decoded: Seq<Option<MakerBook>>,
    n: int,
    market: Pubkey,
)
    requires
        0 <= n <= keys.len(),
    ensures
        kept(keys, decoded, n, market).len() <= n,
        forall|i: int|
            0 <= i < kept(keys, decoded, n, market).len() ==> {
                let (key, book) = #[trigger] kept(keys, decoded, n, market)[i];
                keys.contains(key) && usable(book, market)
            },
    decreases n,
{
    if n > 0 {
        lemma_kept(keys, decoded, n - 1, market);
        assert(keys.contains(keys[n - 1]));
    }
}

/// An update keeps a market in shape.
proof fn lemma_update_keeps_wf(
    before: ArcherAmm,
    after: ArcherAmm,
    accounts: Seq<KeyedAccount>,
    fits: Fits,
)
    requires
        after.updated_from(before, accounts, fits),
    ensures
        before.wf() ==> after.wf(),
{
    match found(accounts, before.registry_key) {
        Some(account) => match registry_in(account.data@) {
            Some(registry) => {
                lemma_distinct(registry.makers@.take(registry.seated()));
            },
            None => {},
        },
        None => {},
    }
    let keys = after.maker_book_keys@;
    lemma_kept(
        keys,
        books_at(accounts, keys, fits.books),
        keys.len() as int,
        after.market_key,
    );
}

impl ArcherAmm {
    /// Whether this is market `key` with registry `registry` of which nothing
    /// has been loaded.
    pub open spec fn unloaded(&self, key: Pubkey, registry: Pubkey) -> bool {
        &&& self.market_key == key
        &&& self.registry_key == registry
        &&& self.market_header is None
        &&& self.maker_book_keys@.len() == 0
        &&& self.maker_books@.len() == 0
        &&& self.base_token_program.bytes == SPL_TOKEN_PROGRAM
        &&& self.quote_token_program.bytes == SPL_TOKEN_PROGRAM
        &&& self.base_mint_data@.len() == 0
        &&& self.quote_mint_data@.len() == 0
        &&& self.builder_fee_wallet is None
    }

    /// What every market that only [`Self::update`] has changed looks like: no
    /// book key is there twice, and every book is one of this market's, found
    /// at one of the keys, with a status that says something.
    pub open spec fn wf(&self) -> bool {
        &&& self.maker_book_keys@.no_duplicates()
        &&& self.maker_book_keys@.len() <= MAX_MAKERS
        &&& self.maker_books@.len() <= self.maker_book_keys@.len()
        &&& forall|i: int|
            0 <= i < self.maker_books@.len() ==> {
                let (key, book) = #[trigger] self.maker_books@[i];
                self.maker_book_keys@.contains(key) && usable(book, self.market_key)
            }
    }

    /// The market whose account this is, with the given registry address.
    pub fn with_registry(keyed_account: &KeyedAccount, registry_key: Pubkey) -> (r: Result<
        ArcherAmm,
        AmmError,
    >)
        ensures
            match r {
                Ok(amm) => {
                    &&& has_tag(keyed_account.account.data@, MARKET_DISCRIMINATOR)
                    &&& amm.unloaded(keyed_account.key, registry_key)
                    &&& amm.wf()
                },
                Err(e) => {
                    &&& !has_tag(keyed_account.account.data@, MARKET_DISCRIMINATOR)
                    &&& e@ == "Not an Archer market"@
                },
            },
    {
        if !starts_with_tag(keyed_account.account.data.as_slice(), MARKET_DISCRIMINATOR) {
            return Err(amm_error("Not an Archer market"));
        }
        Ok(
            ArcherAmm {
                market_key: keyed_account.key,
                registry_key,
                market_header: None,
                maker_book_keys: Vec::new(),
                maker_books: Vec::new(),
                base_token_program: Pubkey::new_from_array(SPL_TOKEN_PROGRAM),
                quote_token_program: Pubkey::new_from_array(SPL_TOKEN_PROGRAM),
                base_mint_data: Vec::new(),
                quote_mint_data: Vec::new(),
                builder_fee_wallet: None,
            },
        )
    }

    /// The market whose account this is. An account without the market tag is
    /// refused.
    pub fn from_keyed_account(keyed_account: &KeyedAccount) -> (r: Result<ArcherAmm, AmmError>)
        requires
            has_tag(keyed_account.account.data@, MARKET_DISCRIMINATOR) ==> has_registry(
                keyed_account.key,
            ),
        ensures
            match r {
                Ok(amm) => {
                    &&& has_tag(keyed_account.account.data@, MARKET_DISCRIMINATOR)
                    &&& is_registry_of(amm.registry_key, keyed_account.key)
                    &&& amm.unloaded(keyed_account.key, amm.registry_key)
                    &&& amm.wf()
                },
                Err(e) => {
                    &&& !has_tag(keyed_account.account.data@, MARKET_DISCRIMINATOR)
                    &&& e@ == "Not an Archer market"@
                },
            },
    {
        if !starts_with_tag(keyed_account.account.data.as_slice(), MARKET_DISCRIMINATOR) {
            return Err(amm_error("Not an Archer market"));
        }
        match registry_address(&keyed_account.key) {
            Some(registry_key) => ArcherAmm::with_registry(keyed_account, registry_key),
            None => Err(amm_error("Not an Archer market")),
        }
    }

    /// [`Self::from_keyed_account`]; nothing for a market that has no registry
    /// address.
    pub fn try_from_keyed_account(keyed_account: &KeyedAccount) -> (r: Option<
        Result<ArcherAmm, AmmError>,
    >)
        ensures
            match r {
                Some(Ok(amm)) => {
                    &&& has_tag(keyed_account.account.data@, MARKET_DISCRIMINATOR)
                    &&& is_registry_of(amm.registry_key, keyed_account.key)
                    &&& amm.unloaded(keyed_account.key, amm.registry_key)
                    &&& amm.wf()
                },
                Some(Err(e)) => {
                    &&& !has_tag(keyed_account.account.data@, MARKET_DISCRIMINATOR)
                    &&& e@ == "Not an Archer market"@
                },
                None => {
                    &&& has_tag(keyed_account.account.data@, MARKET_DISCRIMINATOR)
                    &&& !has_registry(keyed_account.key)
                },
            },
    {
        if starts_with_tag(keyed_account.account.data.as_slice(), MARKET_DISCRIMINATOR)
            && registry_address(&keyed_account.key).is_none() {
            return None;
        }
        Some(ArcherAmm::from_keyed_account(keyed_account))
    }

    /// The name under which a router lists the market.
    pub fn label(&self) -> (r: &'static str)
        ensures
            r@ == "Archer"@,
    {
        "Archer"
    }

    /// The program that the market belongs to.
    pub fn program_id(&self) -> (r: Pubkey)
        ensures
            r.bytes == ARCHER_PROGRAM_ID,
    {
        Pubkey::new_from_array(ARCHER_PROGRAM_ID)
    }

    /// The market's address.
    pub fn key(&self) -> (r: Pubkey)
        ensures
            r == self.market_key,
    {
        self.market_key
    }

    /// The two mints, base first; none before the market is loaded.
    pub open spec fn mints(&self) -> Seq<Pubkey> {
        match self.market_header {
            Some(h) => seq![h.base_mint, h.quote_mint],
            None => Seq::empty(),
        }
    }

    /// The two mints, base first.
    pub fn get_reserve_mints(&self) -> (r: Vec<Pubkey>)
        ensures
            r@ == self.mints(),
    {
        let mut mints: Vec<Pubkey> = Vec::new();
        if let Some(h) = &self.market_header {
            mints.push(h.base_mint);
            mints.push(h.quote_mint);
        }
        assert(mints@ =~= self.mints());
        mints
    }

    /// The addresses of the accounts that [`Self::update`] wants to see: the
    /// market, its registry, the books, and the mints.
    pub open spec fn asked_for(&self) -> Seq<Pubkey> {
        seq![self.market_key, self.registry_key] + self.maker_book_keys@ + self.mints()
    }

    /// The accounts that [`Self::update`] wants to see.
    pub fn get_accounts_to_update(&self) -> (r: Vec<Pubkey>)
        ensures
            r@ == self.asked_for(),
    {
        let mut accounts: Vec<Pubkey> = Vec::new();
        accounts.push(self.market_key);
        accounts.push(self.registry_key);
        let mut i: usize = 0;
        while i < self.maker_book_keys.len()
            invariant
                i <= self.maker_book_keys.len(),
                accounts@ == seq![self.market_key, self.registry_key] + self.maker_book_keys@.take(
                    i as int,
                ),
            decreases self.maker_book_keys.len() - i,
        {
            accounts.push(self.maker_book_keys[i]);
            i = i + 1;
        }
        if let Some(h) = &self.market_header {
            accounts.push(h.base_mint);
            accounts.push(h.quote_mint);
        }
        assert(accounts@ =~= seq![self.market_key, self.registry_key] + self.maker_book_keys@
            + self.mints());
        accounts
    }

    /// Whether `self` is `before` with this header, these book keys, what the
    /// accounts say of the header's mints, and the usable ones of the books
    /// decoded at the keys.
    pub open spec fn taken_over(
        &self,
        before: ArcherAmm,
        accounts: Seq<KeyedAccount>,
        header: Option<MarketStateHeader>,
        keys: Seq<Pubkey>,
        decoded: Seq<Option<MakerBook>>,
    ) -> bool {
        &&& self.market_key == before.market_key
        &&& self.registry_key == before.registry_key
        &&& self.builder_fee_wallet == before.builder_fee_wallet
        &&& self.market_header == header
        &&& match header {
            Some(h) => {
                &&& (self.base_token_program, self.base_mint_data@) == mint_after(
                    found(accounts, h.base_mint),
                    before.base_token_program,
                    before.base_mint_data@,
                )
                &&& (self.quote_token_program, self.quote_mint_data@) == mint_after(
                    found(accounts, h.quote_mint),
                    before.quote_token_program,
                    before.quote_mint_data@,
                )
            },
            None => {
                &&& self.base_token_program == before.base_token_program
                &&& self.base_mint_data@ == before.base_mint_data@
                &&& self.quote_token_program == before.quote_token_program
                &&& self.quote_mint_data@ == before.quote_mint_data@
            },
        }
        &&& self.maker_book_keys@ == keys
        &&& self.maker_books@ == kept(keys, decoded, keys.len() as int, self.market_key)
    }

    /// Takes over what was decoded from the accounts: the market, where its
    /// account was there, and the books at their keys. Fails where the market
    /// did not decode, and then changes nothing.
    pub fn update_given(
        &mut self,
        accounts: &[KeyedAccount],
        market: Option<Result<MarketStateHeader, ArcherAmmError>>,
        keys: Vec<Pubkey>,
        decoded: Vec<Option<MakerBook>>,
    ) -> (r: Result<(), AmmError>)
        requires
            keys@.len() == decoded@.len(),
        ensures
            updates(
                *old(self),
                *final(self),
                amm_outcome(r),
                accounts@,
                market,
                keys@,
                decoded@,
            ),
    {
        match market {
            Some(Ok(header)) => {
                self.market_header = Some(header);
            },
            Some(Err(cause)) => {
                return Err(
                    amm_error_because("Failed to deserialize market: ", cause.to_text().as_str()),
                );
            },
            None => {},
        }
        if let Some(header) = self.market_header {
            if let Some(account) = find_account(accounts, &header.base_mint) {
                self.base_token_program = token_program_for_mint(&account.owner);
                self.base_mint_data = copy_bytes(&account.data);
            }
            if let Some(account) = find_account(accounts, &header.quote_mint) {
                self.quote_token_program = token_program_for_mint(&account.owner);
                self.quote_mint_data = copy_bytes(&account.data);
            }
        }
        self.maker_books = keep_books(&keys, &decoded, &self.market_key);
        self.maker_book_keys = keys;
        Ok(())
    }

    /// Whether `self` is what `before` becomes after a look at the accounts,
    /// where their bytes lie as `fits` says.
    pub open spec fn updated_from(
        &self,
        before: ArcherAmm,
        accounts: Seq<KeyedAccount>,
        fits: Fits,
    ) -> bool {
        let keys = keys_after(before, accounts);
        header_after(before, accounts, fits.market) matches Some(header) && self.taken_over(
            before,
            accounts,
            header,
            keys,
            books_at(accounts, keys, fits.books),
        )
    }

    /// The book keys after a look at the accounts.
    fn current_keys(&self, accounts: &[KeyedAccount]) -> (keys: Vec<Pubkey>)
        ensures
            keys@ == keys_after(*self, accounts@),
    {
        if let Some(account) = find_account(accounts, &self.registry_key) {
            if let Ok(registry) = decode::registry(account.data.as_slice()) {
                return listed_books(&registry);
            }
        }
        let keys: Vec<Pubkey> = self.maker_book_keys.clone();
        assert(keys@ =~= self.maker_book_keys@);
        keys
    }

    /// Takes over what the accounts say. Fails where the market's account does
    /// not hold a market, and then changes nothing; accounts that are missing
    /// or hold something else leave what was known, but for the books, of which
    /// only those remain that are found. A market or book whose bytes do not
    /// fit at their address counts as not held.
    pub fn update(&mut self, accounts: &[KeyedAccount]) -> (r: Result<(), AmmError>)
        ensures
            match r {
                Ok(_) => exists|fits: Fits| #[trigger]
                    final(self).updated_from(*old(self), accounts@, fits),
                Err(e) => {
                    &&& header_after(*old(self), accounts@, false) is None
                    &&& *final(self) == *old(self)
                    &&& e@ == "Failed to deserialize market: "@ + ErrorModel::DeserializationFailed(
                        "invalid discriminator: expected ACHRMKT1"@,
                    ).text()
                },
            },
            exists|
                market: Option<Result<MarketStateHeader, ArcherAmmError>>,
                decoded: Seq<Option<MakerBook>>,
            |
                {
                    &&& #[trigger] market_decoded(found(accounts@, old(self).market_key), market)
                    &&& #[trigger] books_decoded(
                        accounts@,
                        keys_after(*old(self), accounts@),
                        decoded,
                    )
                    &&& updates(
                        *old(self),
                        *final(self),
                        amm_outcome(r),
                        accounts@,
                        market,
                        keys_after(*old(self), accounts@),
                        decoded,
                    )
                },
            r is Ok ==> forall|i: int| #[trigger]
                stands_for(accounts@, i, old(self).registry_key) ==> match registry_in(
                    accounts@[i].account.data@,
                ) {
                    Some(registry) => lists_mentioned(
                        final(self).maker_book_keys@,
                        registry.makers@.take(entries(registry)),
                    ),
                    None => final(self).maker_book_keys@ == old(self).maker_book_keys@,
                },
            r is Ok && is_missing(accounts@, old(self).registry_key) ==> final(self).maker_book_keys@
                == old(self).maker_book_keys@,
            old(self).wf() ==> final(self).wf(),
    {
        let market: Option<Result<MarketStateHeader, ArcherAmmError>> = match find_account(
            accounts,
            &self.market_key,
        ) {
            Some(account) => {
                let bytes: &[u8] = account.data.as_slice();
                let r: Result<MarketStateHeader, ArcherAmmError> = decode::market_header(bytes);
                assert(call_ensures(decode::market_header, (bytes,), r));
                Some(r)
            },
            None => None,
        };
        let ghost answer = market;
        assert(market_decoded(found(accounts@, self.market_key), answer));
        let keys: Vec<Pubkey> = self.current_keys(accounts);
        let decoded: Vec<Option<MakerBook>> = decode_books(&keys, accounts);
        let ghost books = choose|fits: Set<int>|
            decoded@ == #[trigger] books_at(accounts@, keys@, fits);
        let r: Result<(), AmmError> = self.update_given(accounts, market, keys, decoded);
        proof {
            if r is Ok {
                let fits = Fits { market: true, books };
                assert(self.updated_from(*old(self), accounts@, fits));
                lemma_update_keeps_wf(*old(self), *self, accounts@, fits);
                law_update_takes_the_registrys_keys(*old(self), *self, accounts@, fits);
            }
        }
        r
    }

    /// The addresses that [`Self::update`] looks at, where the accounts of the
    /// market and its registry are what `accounts` says: these two, the mints
    /// of the market, and the books that the registry lists.
    pub open spec fn looked_at(&self, accounts: Seq<KeyedAccount>) -> Seq<Pubkey> {
        let header = match header_after(*self, accounts, true) {
            Some(header) => header,
            None => None,
        };
        seq![self.market_key, self.registry_key] + (match header {
            Some(h) => seq![h.base_mint, h.quote_mint],
            None => Seq::empty(),
        }) + keys_after(*self, accounts)
    }

    /// The addresses that [`Self::update`] looks at, given the accounts of the
    /// market and its registry.
    pub fn accounts_read(&self, accounts: &[KeyedAccount]) -> (r: Vec<Pubkey>)
        ensures
            r@ == self.looked_at(accounts@),
    {
        let mut keys: Vec<Pubkey> = Vec::new();
        keys.push(self.market_key);
        keys.push(self.registry_key);
        let header: Option<MarketStateHeader> = match find_account(accounts, &self.market_key) {
            Some(account) => match market_header_given(account.data.as_slice(), Ok(())) {
                Ok(header) => {
                    proof {
                        law_one_market(account.data@, header, market_in(account.data@)->0);
                    }
                    Some(header)
                },
                Err(_) => None,
            },
            None => self.market_header,
        };
        if let Some(h) = header {
            keys.push(h.base_mint);
            keys.push(h.quote_mint);
        }
        let ghost fixed = keys@;
        let books: Vec<Pubkey> = self.current_keys(accounts);
        let mut i: usize = 0;
        while i < books.len()
            invariant
                i <= books.len(),
                keys@ == fixed + books@.take(i as int),
            decreases books.len() - i,
        {
            keys.push(books[i]);
            i = i + 1;
            assert(keys@ =~= fixed + books@.take(i as int));
        }
        assert(books@.take(i as int) =~= books@);
        assert(keys@ =~= self.looked_at(accounts@));
        keys
    }

    /// What a swap gives at a time of the clock, or why it gives nothing.
    pub open spec fn quoted(&self, params: QuoteParams, clock: Clock) -> Result<Quote, Seq<char>> {
        match self.market_header {
            None => Err("Market not loaded"@),
            Some(header) => {
                let is_buy = params.input_mint == header.quote_mint;
                let per_lot = input_lot(header, is_buy);
                if header.status != MARKET_STATUS_ACTIVE {
                    Err("Market not active"@)
                } else if params.swap_mode == SwapMode::ExactOut {
                    Err("ExactOut not supported"@)
                } else if per_lot == 0 {
                    Err("lot size is 0"@)
                } else {
                    match self.transfer_fee(
                        is_buy,
                        whole_lots(params.amount, per_lot),
                        clock.epoch,
                    ) {
                        Err(text) => Err(text),
                        Ok(input_fee) => match gross_outcome(
                            header,
                            self.maker_books@,
                            params,
                            clock.slot,
                            input_fee,
                        ) {
                            Err(text) => Err(text),
                            Ok(output) => match self.transfer_fee(
                                !is_buy,
                                output.out_amount,
                                clock.epoch,
                            ) {
                                Err(text) => Err(text),
                                Ok(output_fee) => Ok(
                                    net_outcome(header, params.amount, output, output_fee),
                                ),
                            },
                        },
                    }
                }
            },
        }
    }

    /// The fee on a transfer of the quote or the base token.
    pub open spec fn transfer_fee(&self, of_quote: bool, amount: u64, epoch: u64) -> Result<
        u64,
        Seq<char>,
    > {
        if of_quote {
            fee_outcome(self.quote_mint_data@, self.quote_token_program, amount, epoch)
        } else {
            fee_outcome(self.base_mint_data@, self.base_token_program, amount, epoch)
        }
    }

    /// The fee on a transfer of the quote or the base token.
    fn token_transfer_fee(&self, of_quote: bool, amount: u64, epoch: u64) -> (r: Result<
        u64,
        AmmError,
    >)
        ensures
            amm_outcome(r) == self.transfer_fee(of_quote, amount, epoch),
    {
        if of_quote {
            transfer_fee_atoms(
                self.quote_mint_data.as_slice(),
                &self.quote_token_program,
                amount,
                epoch,
            )
        } else {
            transfer_fee_atoms(
                self.base_mint_data.as_slice(),
                &self.base_token_program,
                amount,
                epoch,
            )
        }
    }

    /// Quotes a swap at a time of the clock. The input mint says the direction:
    /// the quote mint buys base, anything else sells it.
    pub fn quote(&self, quote_params: &QuoteParams, clock: &Clock) -> (r: Result<Quote, AmmError>)
        ensures
            amm_outcome(r) == self.quoted(*quote_params, *clock),
    {
        let header: MarketStateHeader = match self.market_header {
            Some(header) => header,
            None => {
                return Err(amm_error("Market not loaded"));
            },
        };
        if !header.is_active() {
            return Err(amm_error("Market not active"));
        }
        if quote_params.swap_mode == SwapMode::ExactOut {
            return Err(amm_error("ExactOut not supported"));
        }
        let is_buy: bool = quote_params.input_mint == header.quote_mint;
        let per_lot: u64 = if is_buy {
            header.quote_atoms_per_quote_lot
        } else {
            header.base_atoms_per_base_lot
        };
        if per_lot == 0 {
            return Err(amm_error("lot size is 0"));
        }
        let sent: u64 = budget_atoms(quote_params.amount, per_lot);
        let input_fee: u64 = self.token_transfer_fee(is_buy, sent, clock.epoch)?;
        let output: QuoteOutput = gross_quote(
            &header,
            self.maker_books.as_slice(),
            quote_params,
            clock.slot,
            input_fee,
        )?;
        let output_fee: u64 = self.token_transfer_fee(!is_buy, output.out_amount, clock.epoch)?;
        Ok(net_quote(&header, quote_params.amount, &output, output_fee))
    }

    /// The accounts of a swap that do not depend on the books.
    pub open spec fn fixed_metas(&self, header: MarketStateHeader, params: SwapParams) -> Seq<
        AccountMeta,
    > {
        let is_buy = params.source_mint == header.quote_mint;
        let taker_base = if is_buy {
            params.destination_token_account
        } else {
            params.source_token_account
        };
        let taker_quote = if is_buy {
            params.source_token_account
        } else {
            params.destination_token_account
        };
        seq![
            AccountMeta {
                pubkey: params.token_transfer_authority,
                is_signer: true,
                is_writable: false,
            },
            writable(self.market_key),
            writable(
                match self.builder_fee_wallet {
                    Some(wallet) => wallet,
                    None => taker_quote,
                },
            ),
            readonly(header.base_mint),
            readonly(header.quote_mint),
            writable(header.base_vault),
            writable(header.quote_vault),
            writable(taker_base),
            writable(taker_quote),
            readonly(self.base_token_program),
            readonly(self.quote_token_program),
        ]
    }

    /// The accounts of a swap at a slot: the fixed ones, then the books that
    /// take part.
    pub fn get_swap_and_account_metas(&self, swap_params: &SwapParams, clock: &Clock) -> (r: Result<
        SwapAndAccountMetas,
        AmmError,
    >)
        ensures
            match r {
                Ok(s) => {
                    &&& self.market_header is Some
                    &&& s.swap == Swap::Archer
                    &&& s.account_metas@ == self.fixed_metas(self.market_header->0, *swap_params)
                        + book_metas(
                        self.maker_books@,
                        self.maker_books@.len() as int,
                        clock.slot,
                        self.market_header->0.maker_fee_ppm,
                    )
                },
                Err(e) => self.market_header is None && e@ == "Market not loaded"@,
            },
    {
        let header: MarketStateHeader = match self.market_header {
            Some(header) => header,
            None => {
                return Err(amm_error("Market not loaded"));
            },
        };
        let is_buy: bool = swap_params.source_mint == header.quote_mint;
        let (taker_base, taker_quote): (Pubkey, Pubkey) = if is_buy {
            (swap_params.destination_token_account, swap_params.source_token_account)
        } else {
            (swap_params.source_token_account, swap_params.destination_token_account)
        };
        let builder: Pubkey = match self.builder_fee_wallet {
            Some(wallet) => wallet,
            None => taker_quote,
        };
        let mut account_metas: Vec<AccountMeta> = vec![
            AccountMeta::new_readonly(swap_params.token_transfer_authority, true),
            AccountMeta::new(self.market_key, false),
            AccountMeta::new(builder, false),
            AccountMeta::new_readonly(header.base_mint, false),
            AccountMeta::new_readonly(header.quote_mint, false),
            AccountMeta::new(header.base_vault, false),
            AccountMeta::new(header.quote_vault, false),
            AccountMeta::new(taker_base, false),
            AccountMeta::new(taker_quote, false),
            AccountMeta::new_readonly(self.base_token_program, false),
            AccountMeta::new_readonly(self.quote_token_program, false),
        ];
        let ghost fixed = self.fixed_metas(header, *swap_params);
        assert(account_metas@ =~= fixed);
        assert(fixed + Seq::<AccountMeta>::empty() =~= fixed);
        let mut i: usize = 0;
        while i < self.maker_books.len()
            invariant
                i <= self.maker_books.len(),
                account_metas@ == fixed + book_metas(
                    self.maker_books@,
                    i as int,
                    clock.slot,
                    header.maker_fee_ppm,
                ),
            decreases self.maker_books.len() - i,
        {
            if book_is_eligible(&self.maker_books[i].1, clock.slot, None, header.maker_fee_ppm) {
                account_metas.push(AccountMeta::new(self.maker_books[i].0, false));
            }
            i = i + 1;
            assert(account_metas@ =~= fixed + book_metas(
                self.maker_books@,
                i as int,
                clock.slot,
                header.maker_fee_ppm,
            ));
        }
        Ok(SwapAndAccountMetas { swap: Swap::Archer, account_metas })
    }

    /// Whether the market is loaded and trades.
    pub fn is_active(&self) -> (r: bool)
        ensures
            r == (self.market_header matches Some(h) && h.status == MARKET_STATUS_ACTIVE),
    {
        match &self.market_header {
            Some(h) => h.is_active(),
            None => false,
        }
    }

    /// Whether the accounts of a swap change over time.
    pub fn has_dynamic_accounts(&self) -> (r: bool)
        ensures
            r,
    {
        true
    }

    /// Whether the mints are known only after an update.
    pub fn requires_update_for_reserve_mints(&self) -> (r: bool)
        ensures
            r,
    {
        true
    }

    /// Whether a swap can be asked for by its output.
    pub fn supports_exact_out(&self) -> (r: bool)
        ensures
            !r,
    {
        false
    }

    /// The most accounts that a swap touches: eleven fixed ones and the books.
    pub fn get_accounts_len(&self) -> (r: usize)
        requires
            self.maker_books@.len() + 11 <= usize::MAX,
        ensures
            r == 11 + self.maker_books@.len(),
    {
        11 + self.maker_books.len()
    }
}

} // verus!
