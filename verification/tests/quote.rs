//! Quotes on small books.

use archer_jup::lots::{calculate_fee, quote_to_base_lots};
use archer_jup::pubkey::Pubkey;
use archer_jup::quote::{book_is_eligible, compute_quote, has_matching_liquidity};
use archer_jup::state::{MakerBook, MakerLevel, MarketStateHeader, MAKER_BOOK_LEN, MARKET_HEADER_LEN};
use archer_sdk::onchain::ArcherUnit;

fn unique() -> Pubkey {
    Pubkey::new_from_array(solana_pubkey::Pubkey::new_unique().to_bytes())
}

/// The same book as a value of the SDK.
fn sdk_book(b: &MakerBook) -> archer_sdk::onchain::MakerBook {
    let mut s = <archer_sdk::onchain::MakerBook as bytemuck::Zeroable>::zeroed();
    s.mid_price_ticks = b.mid_price_ticks;
    s.mid_at_last_sync = b.mid_at_last_sync;
    s.tick_conversion_num = b.tick_conversion_num;
    s.tick_conversion_den = b.tick_conversion_den;
    s.quote_locked = ArcherUnit::new(b.quote_locked);
    s.quote_free = ArcherUnit::new(b.quote_free);
    for i in 0..b.bid_levels.len() {
        let l = b.bid_levels[i];
        s.bid_levels[i] = archer_sdk::onchain::MakerLevel::new(
            ArcherUnit::new(l.size_in_base_lots),
            l.price_offset_ticks,
        );
    }
    s
}

#[test]
fn test_calculate_fee_positive() {
    assert_eq!(calculate_fee(1000, 5000).unwrap(), 5);
    assert_eq!(calculate_fee(1001, 5000).unwrap(), 6);
    assert_eq!(calculate_fee(1, 1).unwrap(), 1);
}

#[test]
fn test_calculate_fee_negative() {
    assert_eq!(calculate_fee(1000, -5000).unwrap(), -5);
    assert_eq!(calculate_fee(1001, -5000).unwrap(), -5);
}

#[test]
fn test_calculate_fee_zero() {
    assert_eq!(calculate_fee(1000, 0).unwrap(), 0);
    assert_eq!(calculate_fee(0, 5000).unwrap(), 0);
}

/// 1:1 lot/tick market: 1 base lot at price p costs p quote lots.
fn header(maker_fee_ppm: i32, taker_fee_ppm: i32) -> MarketStateHeader {
    let mut h = MarketStateHeader::zeroed();
    h.status = 0;
    h.base_decimals = 6;
    h.quote_decimals = 6;
    h.base_atoms_per_base_lot = 1_000_000;
    h.quote_atoms_per_quote_lot = 1;
    h.tick_size_in_quote_atoms_per_base_unit = 1;
    h.raw_base_units_per_base_unit = 1;
    h.maker_fee_ppm = maker_fee_ppm;
    h.taker_fee_ppm = taker_fee_ppm;
    h
}

fn empty_book(active: bool) -> MakerBook {
    let mut b = MakerBook::zeroed();
    b.mid_price_ticks = 100;
    b.tick_conversion_num = 1;
    b.tick_conversion_den = 1;
    b.status = if active { 1 } else { 2 };
    b
}

/// A book that the program would accept: balances lock exactly what the
/// resting levels need (1:1 market, `maker_fee_ppm` buffer on bids).
fn book(mid: u64, bids: &[(u64, i64)], asks: &[(u64, i64)], maker_fee_ppm: i32) -> MakerBook {
    let mut b = empty_book(true);
    b.mid_price_ticks = mid;
    b.mid_at_last_sync = mid;
    let mut base = 0u64;
    for (i, (size, off)) in asks.iter().enumerate() {
        b.ask_levels[i] = MakerLevel::new(*size, *off);
        base += size;
    }
    for (i, (size, off)) in bids.iter().enumerate() {
        b.bid_levels[i] = MakerLevel::new(*size, *off);
    }
    b.base_locked = base;
    b.quote_locked = sdk_book(&b).required_quote_reserve(maker_fee_ppm).unwrap();
    b
}

#[test]
fn test_has_matching_liquidity_detects_active_with_levels() {
    let mut book = empty_book(true);
    book.ask_levels[0] = MakerLevel::new(10, 5);
    let books = vec![(unique(), book)];
    assert!(has_matching_liquidity(&books, true, 0, None, 0));
    assert!(!has_matching_liquidity(&books, false, 0, None, 0));
}

#[test]
fn test_has_matching_liquidity_skips_stale_book() {
    let mut book = empty_book(true);
    book.ask_levels[0] = MakerLevel::new(10, 5);
    book.last_updated_slot = 100;
    book.expiry_in_slots = 50;
    let books = vec![(unique(), book)];
    assert!(has_matching_liquidity(&books, true, 149, None, 0));
    assert!(!has_matching_liquidity(&books, true, 150, None, 0));
    assert!(!has_matching_liquidity(&books, true, 10_000, None, 0));
}

#[test]
fn test_has_matching_liquidity_skips_self_trade_and_delegate() {
    let maker = unique();
    let delegate = unique();
    let mut book = empty_book(true);
    book.maker = maker;
    book.delegate = delegate;
    book.ask_levels[0] = MakerLevel::new(10, 5);
    let books = vec![(unique(), book)];
    assert!(has_matching_liquidity(&books, true, 0, None, 0));
    assert!(has_matching_liquidity(&books, true, 0, Some(&unique()), 0));
    assert!(!has_matching_liquidity(&books, true, 0, Some(&maker), 0));
    assert!(!has_matching_liquidity(&books, true, 0, Some(&delegate), 0));
    // A book with no delegate must not exclude a taker at the default key.
    book.delegate = Pubkey::default();
    let books = vec![(unique(), book)];
    assert!(has_matching_liquidity(&books, true, 0, Some(&Pubkey::default()), 0));
}

#[test]
fn test_suspended_and_undecodable_status_are_ineligible() {
    let mut book = empty_book(false);
    book.ask_levels[0] = MakerLevel::new(10, 5);
    assert!(!book_is_eligible(&book, 0, None, 0));
    book.status = 0;
    assert!(!book_is_eligible(&book, 0, None, 0));
    book.status = 1;
    assert!(book_is_eligible(&book, 0, None, 0));
}

/// A maker who repriced further than their quote balance can back is
/// dropped from the auction on-chain, so the quote must skip them too.
#[test]
fn test_unfundable_book_is_skipped() {
    let mut book = empty_book(true);
    book.ask_levels[0] = MakerLevel::new(10, 5);
    book.bid_levels[0] = MakerLevel::new(1_000, -100);
    book.mid_at_last_sync = 100_000;
    book.mid_price_ticks = 100_010;
    book.quote_locked = 99_900_000;
    book.quote_free = 10_000;
    assert!(!sdk_book(&book).is_quote_sync_fundable(200));
    book.quote_free = 200_000;
    assert_eq!(
        sdk_book(&book).projected_quote_balances(200).unwrap(),
        (99_910_000 + 19_982, 100_100_000 - 99_910_000 - 19_982)
    );
    assert!(book_is_eligible(&book, 0, None, 200));
    book.quote_free = 10_000;
    let books = vec![(unique(), book)];
    assert!(!has_matching_liquidity(&books, true, 0, None, 200));
    assert!(!book_is_eligible(&book, 0, None, 200));
}

#[test]
fn test_zero_anchor_is_always_fundable() {
    let mut book = empty_book(true);
    book.mid_at_last_sync = 0;
    book.mid_price_ticks = 500_000;
    book.bid_levels[0] = MakerLevel::new(u64::MAX / 2, -1);
    assert!(sdk_book(&book).is_quote_sync_fundable(200));
    assert_eq!(sdk_book(&book).projected_quote_balances(200).ok(), Some((0, 0)));
    assert!(book_is_eligible(&book, 0, None, 200));
}

/// A book keeps its place with every lot more, up to where the sum leaves its
/// range.
#[test]
fn more_balance_keeps_a_book() {
    let mut book = empty_book(true);
    book.bid_levels[0] = MakerLevel::new(1_000, -100);
    book.mid_at_last_sync = 100_000;
    book.mid_price_ticks = 100_010;
    let needed = 99_910_000 + 19_982;
    book.quote_free = needed - 1;
    assert!(!book_is_eligible(&book, 0, None, 200));
    for more in [needed, needed + 1, u64::MAX] {
        book.quote_free = more;
        assert!(book_is_eligible(&book, 0, None, 200));
    }
    book.quote_locked = 1;
    assert!(!book_is_eligible(&book, 0, None, 200));
    // In sync, nothing is asked of the balances.
    book.mid_at_last_sync = book.mid_price_ticks;
    assert!(book_is_eligible(&book, 0, None, 200));
}

/// Three makers with one lot each at the same price, taker wants two:
/// pro-rata floors every non-last share to zero, the last maker fills one
/// lot, and the program comes back to the same price for the second lot.
/// Moving to the next price after one pass would quote the wrong price.
#[test]
fn test_pro_rata_dust_revisits_the_same_price() {
    let h = header(0, 0);
    let books: Vec<_> = (0..3).map(|_| (unique(), book(100, &[], &[(1, 5)], 0))).collect();
    // One more maker further out that a fall-through would hit.
    let mut all = books.clone();
    all.push((unique(), book(100, &[], &[(5, 50)], 0)));

    let q = compute_quote(2 * 105, true, &h, &all, 0, None).unwrap();
    assert_eq!(q.out_amount, 2 * 1_000_000, "both lots fill at 105");
    // Exactly 210 quote lots spent: the second lot came from price 105,
    // not 150.
    let q3 = compute_quote(3 * 105, true, &h, &all, 0, None).unwrap();
    assert_eq!(q3.out_amount, 3 * 1_000_000);
    let q4 = compute_quote(3 * 105 + 149, true, &h, &all, 0, None).unwrap();
    assert_eq!(q4.out_amount, 3 * 1_000_000, "149 is not enough for a lot at 150");
    let q5 = compute_quote(3 * 105 + 150, true, &h, &all, 0, None).unwrap();
    assert_eq!(q5.out_amount, 4 * 1_000_000);
}

#[test]
fn test_buy_grosses_down_by_taker_fee_and_sell_nets_it() {
    let h = header(0, 10_000); // 1% taker fee
    let books = vec![(unique(), book(100, &[(10, -5)], &[(10, 5)], 0))];
    // 1010 quote lots gross down to 1000 -> 9 lots at 105 (945), fee ceil(9.45)=10.
    let q = compute_quote(1_010, true, &h, &books, 0, None).unwrap();
    assert_eq!(q.out_amount, 9 * 1_000_000);
    assert_eq!(q.fee_amount, 10);
    // Sell 10 lots at 95 = 950, fee ceil(9.5) = 10, net 940.
    let q = compute_quote(10, false, &h, &books, 0, None).unwrap();
    assert_eq!(q.out_amount, 940);
    assert_eq!(q.fee_amount, 10);
}

#[test]
fn test_raw_base_units_conversion_matches_v1() {
    fn header(raw: u64) -> MarketStateHeader {
        let mut h = MarketStateHeader::zeroed();
        h.base_decimals = 6;
        h.base_atoms_per_base_lot = 1_000_000;
        h.tick_size_in_quote_atoms_per_base_unit = 1_000_000;
        h.quote_atoms_per_quote_lot = 1;
        h.raw_base_units_per_base_unit = raw;
        h
    }
    let q1 = header(1).base_lots_to_quote_atoms(1, 1).unwrap();
    let q10 = header(10).base_lots_to_quote_atoms(1, 1).unwrap();
    assert_eq!(q1, 1_000_000);
    assert_eq!(q10, 100_000);
    assert_eq!(quote_to_base_lots(&header(1), q1, 1, false).unwrap(), 1);
    assert_eq!(quote_to_base_lots(&header(10), q10, 1, false).unwrap(), 1);
}

#[test]
fn layout_sizes_match_the_program() {
    assert_eq!(core::mem::size_of::<MakerBook>(), 776);
    assert_eq!(core::mem::size_of::<MarketStateHeader>(), 272);
    assert_eq!(MAKER_BOOK_LEN, core::mem::size_of::<archer_sdk::onchain::MakerBook>());
    assert_eq!(MARKET_HEADER_LEN, core::mem::size_of::<archer_sdk::onchain::MarketStateHeader>());
}
