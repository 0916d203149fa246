//! The calls into `archer_sdk`: how the on-chain program prices a level,
//! converts lots, judges a maker's balances and recognises its accounts. And one
//! into `bytemuck`: whether words can be read where bytes lie.

use archer_sdk::onchain::ArcherUnit;
use vstd::prelude::*;

use crate::layout::has_tag;
use crate::state::{
    MAKER_BOOK_DISCRIMINATOR, MAKER_BOOK_LEN, MAKER_REGISTRY_LEN, MARKET_DISCRIMINATOR,
    MARKET_HEADER_LEN, MakerBook, MakerLevel, MarketStateHeader, REGISTRY_DISCRIMINATOR,
};

verus! {

/// The price at which a level rests: the mid price plus the offset, where the
/// mid price is no more than `i64::MAX` and the sum is positive and no more
/// than `i64::MAX`.
pub open spec fn resting_price(level: MakerLevel, mid_price_ticks: u64) -> Option<u64> {
    let price = mid_price_ticks + level.price_offset_ticks;
    if mid_price_ticks <= i64::MAX && 0 < price <= i64::MAX {
        Some(price as u64)
    } else {
        None
    }
}

/// Calls `archer_sdk`'s `MakerLevel::absolute_price`.
///
/// Claimed of it: the reference price is read as an `i64`, the offset is added
/// with an overflow check, and only a positive sum is a price.
#[verifier::external_body]
pub(crate) fn level_price(level: &MakerLevel, mid_price_ticks: u64) -> (r: Option<u64>)
    ensures
        r == resting_price(*level, mid_price_ticks),
{
    let size = archer_sdk::onchain::BaseLots::new(level.size_in_base_lots);
    archer_sdk::onchain::MakerLevel::new(size, level.price_offset_ticks).absolute_price(mid_price_ticks)
}

/// Calls `archer_sdk`'s `MarketStateHeader::base_atoms_per_base_unit`.
///
/// Claimed of it: ten to the base decimals, times the raw base units of a base
/// unit, where neither leaves `u128`; otherwise the error whose debug text is
/// `ArithmeticOverflow`.
#[verifier::external_body]
pub(crate) fn unit_atoms(header: &MarketStateHeader) -> (r: Result<u128, String>)
    ensures
        match r {
            Ok(atoms) => header.decimal_power() <= u128::MAX && atoms == header.unit_atoms(),
            Err(text) => {
                &&& header.decimal_power() > u128::MAX || header.unit_atoms() > u128::MAX
                &&& text@ == "ArithmeticOverflow"@
            },
        },
{
    let mut h = <archer_sdk::onchain::MarketStateHeader as bytemuck::Zeroable>::zeroed();
    h.base_decimals = header.base_decimals;
    h.raw_base_units_per_base_unit = header.raw_base_units_per_base_unit;
    h.base_atoms_per_base_unit().map_err(|e| format!("{e:?}"))
}

/// Whether `base_lots` at `price_ticks` have a value in whole quote atoms: no
/// intermediate product leaves `u128`, a base unit is not empty, and the value
/// fits in `u64`.
pub open spec fn priceable(header: MarketStateHeader, base_lots: u64, price_ticks: u64) -> bool {
    let cost = header.cost_numerator(base_lots as int, price_ticks as int);
    &&& header.decimal_power() <= u128::MAX
    &&& 0 < header.unit_atoms() <= u128::MAX
    &&& base_lots * header.base_atoms_per_base_lot * price_ticks <= u128::MAX
    &&& cost <= u128::MAX
    &&& cost / header.unit_atoms() <= u64::MAX
}

/// Calls `archer_sdk`'s `MarketStateHeader::base_lots_to_quote_atoms`.
///
/// Claimed of it: lots times atoms per lot times price times tick size, divided
/// by the atoms of a base unit and rounded down, each product checked against
/// `u128` and the quotient against `u64`; on any failure the error whose debug
/// text is `ArithmeticOverflow`.
#[verifier::external_body]
pub(crate) fn quote_atoms(header: &MarketStateHeader, base_lots: u64, price_ticks: u64) -> (r: Result<
    u64,
    String,
>)
    ensures
        match r {
            Ok(atoms) => {
                &&& priceable(*header, base_lots, price_ticks)
                &&& atoms == header.cost_numerator(base_lots as int, price_ticks as int)
                    / header.unit_atoms()
            },
            Err(text) => {
                &&& !priceable(*header, base_lots, price_ticks)
                &&& text@ == "ArithmeticOverflow"@
            },
        },
{
    let mut h = <archer_sdk::onchain::MarketStateHeader as bytemuck::Zeroable>::zeroed();
    h.base_decimals = header.base_decimals;
    h.raw_base_units_per_base_unit = header.raw_base_units_per_base_unit;
    h.base_atoms_per_base_lot = ArcherUnit::new(header.base_atoms_per_base_lot);
    h.tick_size_in_quote_atoms_per_base_unit = ArcherUnit::new(
        header.tick_size_in_quote_atoms_per_base_unit,
    );
    h.base_lots_to_quote_atoms(ArcherUnit::new(base_lots), ArcherUnit::new(price_ticks))
        .map(|atoms| atoms.as_u64())
        .map_err(|e| format!("{e:?}"))
}

/// Levels as pairs of size and price offset.
pub open spec fn level_pairs(levels: Seq<MakerLevel>) -> Seq<(u64, i64)> {
    levels.map_values(|l: MakerLevel| (l.size_in_base_lots, l.price_offset_ticks))
}

/// The quote lots that `archer_sdk`'s `MakerBook::required_quote_reserve` says
/// must be locked for a book with this mid price, tick conversion fraction and
/// bids, at this maker fee; none where it fails.
pub uninterp spec fn required_reserve(
    mid_price_ticks: u64,
    tick_conversion_num: u64,
    tick_conversion_den: u64,
    bids: Seq<(u64, i64)>,
    maker_fee_ppm: i32,
) -> Option<u64>;

/// Whether a book has not been repriced since its balances were brought up to
/// date.
pub open spec fn in_sync(book: MakerBook) -> bool {
    book.mid_at_last_sync == 0 || book.mid_at_last_sync == book.mid_price_ticks
}

/// Whether a balance of `locked` and `free` quote lots covers a reserve.
pub open spec fn covers(locked: u64, free: u64, reserve: Option<u64>) -> bool {
    reserve matches Some(lots) && lots <= locked + free <= u64::MAX
}

/// Whether the maker's quote balance backs the book's bids at its mid price: it
/// does while the two are in sync, and otherwise where it covers the reserve
/// that the bids need.
pub open spec fn fundable(book: MakerBook, maker_fee_ppm: i32) -> bool {
    in_sync(book) || covers(
        book.quote_locked,
        book.quote_free,
        required_reserve(
            book.mid_price_ticks,
            book.tick_conversion_num,
            book.tick_conversion_den,
            level_pairs(book.bid_levels@),
            maker_fee_ppm,
        ),
    )
}

/// Calls `archer_sdk`'s `MakerBook::is_quote_sync_fundable`.
///
/// Claimed of it: a book whose mid price has not moved since its balances were
/// brought up to date, or that was never repriced, is fundable; another one is
/// exactly where its locked and free quote lots add up within `u64`, the
/// reserve that `MakerBook::required_quote_reserve` computes exists, and they
/// cover it. That reserve depends on the mid price, the tick conversion, the
/// bids and the fee alone; how it is computed is left unsaid.
#[verifier::external_body]
pub(crate) fn is_fundable(book: &MakerBook, maker_fee_ppm: i32) -> (r: bool)
    ensures
        r == (in_sync(*book) || covers(
            book.quote_locked,
            book.quote_free,
            required_reserve(
                book.mid_price_ticks,
                book.tick_conversion_num,
                book.tick_conversion_den,
                level_pairs(book.bid_levels@),
                maker_fee_ppm,
            ),
        )),
{
    let mut b = <archer_sdk::onchain::MakerBook as bytemuck::Zeroable>::zeroed();
    b.mid_price_ticks = book.mid_price_ticks;
    b.mid_at_last_sync = book.mid_at_last_sync;
    b.quote_locked = ArcherUnit::new(book.quote_locked);
    b.quote_free = ArcherUnit::new(book.quote_free);
    b.tick_conversion_num = book.tick_conversion_num;
    b.tick_conversion_den = book.tick_conversion_den;
    b.bid_levels = book.bid_levels.map(
        |l| archer_sdk::onchain::MakerLevel::new(ArcherUnit::new(l.size_in_base_lots), l.price_offset_ticks),
    );
    b.is_quote_sync_fundable(maker_fee_ppm)
}

/// Calls `archer_sdk`'s `accounts::parse_market_state` and hands back the bytes it
/// accepted.
///
/// Claimed of it: it accepts only data that is long enough and carries the
/// market tag, reads the header off the front, and otherwise reports an invalid
/// discriminator. It lays the header over the bytes where they lie, and refuses
/// with the same report where their address does not suit it: whether data of
/// the right length and tag is accepted is left unsaid for that reason.
#[verifier::external_body]
pub(crate) fn accepted_market(data: &[u8]) -> (r: Result<Vec<u8>, String>)
    ensures
        match r {
            Ok(image) => {
                &&& data@.len() >= MARKET_HEADER_LEN
                &&& has_tag(data@, MARKET_DISCRIMINATOR)
                &&& image@ == data@.take(MARKET_HEADER_LEN as int)
            },
            Err(text) => text@ == "invalid discriminator: expected ACHRMKT1"@,
        },
{
    match archer_sdk::accounts::parse_market_state(data) {
        Ok(header) => Ok(bytemuck::bytes_of(header).to_vec()),
        Err(e) => Err(e.to_string()),
    }
}

/// Calls `archer_sdk`'s `accounts::parse_maker_book` and hands back the bytes it
/// accepted.
///
/// Claimed of it: it accepts only data that is long enough and carries the
/// maker book tag, reads the book off the front, and otherwise reports an invalid
/// discriminator. It lays the book over the bytes where they lie, and refuses
/// with the same report where their address does not suit it: whether data of
/// the right length and tag is accepted is left unsaid for that reason.
#[verifier::external_body]
pub(crate) fn accepted_maker_book(data: &[u8]) -> (r: Result<Vec<u8>, String>)
    ensures
        match r {
            Ok(image) => {
                &&& data@.len() >= MAKER_BOOK_LEN
                &&& has_tag(data@, MAKER_BOOK_DISCRIMINATOR)
                &&& image@ == data@.take(MAKER_BOOK_LEN as int)
            },
            Err(text) => text@ == "invalid discriminator: expected ACHRMKR1"@,
        },
{
    match archer_sdk::accounts::parse_maker_book(data) {
        Ok(book) => Ok(bytemuck::bytes_of(book).to_vec()),
        Err(e) => Err(e.to_string()),
    }
}

/// Calls `archer_sdk`'s `accounts::parse_maker_registry` and hands back the
/// bytes it accepted. A registry has no alignment of its own.
///
/// Claimed of it: it accepts exactly the data that is long enough and carries
/// the registry tag, reads the registry off the front, and otherwise reports an
/// invalid discriminator.
#[verifier::external_body]
pub(crate) fn accepted_registry(data: &[u8]) -> (r: Result<Vec<u8>, String>)
    ensures
        match r {
            Ok(image) => {
                &&& data@.len() >= MAKER_REGISTRY_LEN
                &&& has_tag(data@, REGISTRY_DISCRIMINATOR)
                &&& image@ == data@.take(MAKER_REGISTRY_LEN as int)
            },
            Err(text) => {
                &&& !(data@.len() >= MAKER_REGISTRY_LEN && has_tag(data@, REGISTRY_DISCRIMINATOR))
                &&& text@ == "invalid discriminator: expected ACHRREG1"@
            },
        },
{
    match archer_sdk::accounts::parse_maker_registry(data) {
        Ok(registry) => Ok(bytemuck::bytes_of(registry).to_vec()),
        Err(e) => Err(e.to_string()),
    }
}

/// Calls `bytemuck`'s `try_cast_slice` from bytes to 64-bit words and keeps
/// whether it worked.
///
/// Claimed of it: bytes of whole words are refused for one reason alone, that
/// their address does not suit a word, and the error's text says so. Which
/// addresses do is left unsaid: it is a matter of where the bytes lie, not of
/// what they are.
#[verifier::external_body]
pub(crate) fn words_fit(bytes: &[u8]) -> (r: Result<(), String>)
    requires
        bytes@.len() % 8 == 0,
    ensures
        r matches Err(text) ==> text@ == "TargetAlignmentGreaterAndInputNotAligned"@,
{
    bytemuck::try_cast_slice::<u8, u64>(bytes).map(|_| ()).map_err(|e| e.to_string())
}

} // verus!
