//! Lots, passes over a group, and walks along a ladder.

use archer_jup::error::ArcherAmmError;
use archer_jup::fills::{distribute, group_total};
use archer_jup::ladder::{copy_levels, sort_levels, AggregatedLevel};
use archer_jup::lots::{base_to_quote_lots, calculate_fee, calculate_pro_rata, quote_to_base_lots};
use archer_jup::matching::{clear_price, walk_ladder};
use archer_jup::quote::{gross_down, settle_buy, settle_sell};
use archer_jup::state::MarketStateHeader;

/// One base lot at price p costs p quote lots.
fn header() -> MarketStateHeader {
    let mut h = MarketStateHeader::zeroed();
    h.base_decimals = 6;
    h.base_atoms_per_base_lot = 1_000_000;
    h.quote_atoms_per_quote_lot = 1;
    h.tick_size_in_quote_atoms_per_base_unit = 1;
    h.raw_base_units_per_base_unit = 1;
    h
}

fn level(price_ticks: u64, size_base_lots: u64, maker_index: usize) -> AggregatedLevel {
    AggregatedLevel { price_ticks, size_base_lots, maker_index }
}

fn text<T>(r: Result<T, ArcherAmmError>) -> String {
    match r {
        Ok(_) => String::new(),
        Err(e) => e.to_text(),
    }
}

fn sizes(group: &[AggregatedLevel]) -> Vec<u64> {
    group.iter().map(|l| l.size_base_lots).collect()
}

#[test]
fn quote_lots_round_both_ways() {
    let mut h = header();
    h.quote_atoms_per_quote_lot = 10;
    // 3 lots at 7 are 21 atoms: two lots and a bit.
    assert_eq!(base_to_quote_lots(&h, 3, 7, false).unwrap(), 2);
    assert_eq!(base_to_quote_lots(&h, 3, 7, true).unwrap(), 3);
    // 2 quote lots are 20 atoms: two base lots at 7, and a bit.
    assert_eq!(quote_to_base_lots(&h, 2, 7, false).unwrap(), 2);
    assert_eq!(quote_to_base_lots(&h, 2, 7, true).unwrap(), 3);
}

#[test]
fn conversions_report_why_they_fail() {
    let mut h = header();
    h.quote_atoms_per_quote_lot = 0;
    assert_eq!(text(base_to_quote_lots(&h, 1, 1, true)), "Math error: quote_atoms_per_lot is 0");
    h.base_decimals = 39;
    assert_eq!(text(base_to_quote_lots(&h, 1, 1, true)), "Math error: ArithmeticOverflow");
    assert_eq!(text(quote_to_base_lots(&h, 1, 1, true)), "Math error: ArithmeticOverflow");
    let h = header();
    assert_eq!(text(quote_to_base_lots(&h, 1, 0, false)), "Math error: denominator is 0");
    let mut h = header();
    h.base_decimals = 38;
    h.quote_atoms_per_quote_lot = u64::MAX;
    assert_eq!(text(quote_to_base_lots(&h, 4, 1, false)), "Math error: overflow");
    let mut h = header();
    h.quote_atoms_per_quote_lot = u64::MAX;
    h.base_atoms_per_base_lot = 1;
    assert_eq!(text(quote_to_base_lots(&h, 1 << 40, 1, false)), "Math error: base lots overflow u64");
    // The numerator is the largest u128 there is below 2^64 * (2^64 - 1).
    let mut h = header();
    h.base_decimals = 0;
    h.quote_atoms_per_quote_lot = u64::MAX;
    h.tick_size_in_quote_atoms_per_base_unit = u64::MAX;
    h.base_atoms_per_base_lot = 1;
    assert_eq!(text(quote_to_base_lots(&h, u64::MAX, u64::MAX, true)), "Math error: ceiling overflow");
    assert_eq!(quote_to_base_lots(&h, u64::MAX, u64::MAX, false).unwrap(), 1);
}

#[test]
fn fee_that_does_not_fit() {
    assert_eq!(text(calculate_fee(u64::MAX, 1_000_000)), "Math error: fee overflow i64");
    assert_eq!(calculate_fee(i64::MAX as u64, 1_000_000).unwrap(), i64::MAX);
    assert_eq!(calculate_fee(1 << 63, -1_000_000).unwrap(), i64::MIN);
}

#[test]
fn pro_rata_rounds_down() {
    assert_eq!(calculate_pro_rata(10, 1, 3).unwrap(), 3);
    assert_eq!(calculate_pro_rata(2, 1, 3).unwrap(), 0);
    assert_eq!(calculate_pro_rata(u64::MAX, u64::MAX, u64::MAX).unwrap(), u64::MAX);
    // Only the low bits are kept where the share exceeds the shares.
    assert_eq!(calculate_pro_rata(1 << 63, 6, 2).unwrap(), 1 << 63);
    assert_eq!(text(calculate_pro_rata(1, 1, 0)), "Math error: pro-rata div zero");
}

#[test]
fn group_totals() {
    assert_eq!(group_total(&[]).unwrap(), 0);
    assert_eq!(group_total(&[level(1, 4, 0), level(1, 5, 1)]).unwrap(), 9);
    assert_eq!(
        text(group_total(&[level(1, u64::MAX, 0), level(1, 1, 1)])),
        "Math error: group size overflow"
    );
}

#[test]
fn distribution_gives_the_rest_to_the_last() {
    let mut group = vec![level(1, 5, 0), level(1, 0, 1), level(1, 3, 2), level(1, 2, 3), level(1, 0, 4)];
    let r = distribute(&mut group, 7, 10, |share| Ok(share * 10)).unwrap();
    // 3 of 5, 2 of 3, and the last gets what is left: 2 of 2.
    assert_eq!(r, (7, 70));
    assert_eq!(sizes(&group), vec![2, 0, 1, 0, 0]);
    assert_eq!(group[2].maker_index, 2);
}

/// What the shares are worth makes no difference to the shares.
#[test]
fn distribution_shares_alike_whatever_the_quotes() {
    let calls = std::cell::Cell::new(0u64);
    let mut group = vec![level(1, 5, 0), level(1, 3, 1), level(1, 2, 2)];
    let moody = |_: u64| {
        calls.set(calls.get() + 1);
        Ok(calls.get() * 100)
    };
    assert_eq!(distribute(&mut group, 7, 10, moody).unwrap(), (7, 600));
    assert_eq!(sizes(&group), vec![2, 1, 0]);
}

/// An answer that fails ends the pass: the shares before it stay taken.
#[test]
fn distribution_ends_with_the_answer_that_fails() {
    let shares = std::cell::RefCell::new(Vec::new());
    let mut group = vec![level(1, 5, 0), level(1, 3, 1), level(1, 2, 2)];
    let fails_second = |share: u64| {
        shares.borrow_mut().push(share);
        if shares.borrow().len() == 2 {
            Err(ArcherAmmError::MissingState("second".into()))
        } else {
            Ok(1)
        }
    };
    let r = distribute(&mut group, 7, 10, fails_second);
    assert_eq!(text(r), "Missing state: second");
    assert_eq!(shares.into_inner(), vec![3, 2]);
    assert_eq!(sizes(&group), vec![2, 3, 2]);
}

#[test]
fn distribution_reports_why_it_stops() {
    let mut group = vec![level(1, 5, 0), level(1, 5, 1)];
    let r = distribute(&mut group, 4, 10, |_| Err(ArcherAmmError::MarketNotActive));
    assert_eq!(text(r), "Market not active");
    assert_eq!(sizes(&group), vec![5, 5]);
    assert_eq!(text(distribute(&mut group, 4, 0, |s| Ok(s))), "Math error: pro-rata div zero");
    assert_eq!(sizes(&group), vec![5, 5]);
    let r = distribute(&mut group, 10, 10, |_| Ok(u64::MAX));
    assert_eq!(text(r), "Math error: quote overflow");
    assert_eq!(sizes(&group), vec![0, 0]);
    // Shares out of too small a total.
    let mut group = vec![level(1, 5, 0), level(1, 5, 1)];
    let r = distribute(&mut group, 4, 5, |s| Ok(s));
    assert_eq!(r.unwrap(), (4, 4));
    let mut group = vec![level(1, 5, 0), level(1, 5, 1), level(1, 5, 2)];
    assert_eq!(text(distribute(&mut group, 4, 5, |s| Ok(s))), "Math error: distributed underflow");
    assert_eq!(sizes(&group), vec![1, 1, 5]);
    let mut group = vec![level(1, u64::MAX, 0), level(1, u64::MAX, 1), level(1, 1, 2)];
    let r = distribute(&mut group, u64::MAX, u64::MAX, |_| Ok(0));
    assert_eq!(text(r), "Math error: base overflow");
    assert_eq!(sizes(&group), vec![0, 0, 1]);
}

#[test]
fn sorting_keeps_the_order_at_a_price() {
    let levels: Vec<AggregatedLevel> =
        [7, 3, 9, 3, 7, 1, 3].iter().enumerate().map(|(i, p)| level(*p, 1, i)).collect();
    let order = |v: Vec<AggregatedLevel>| -> Vec<(u64, usize)> {
        v.iter().map(|l| (l.price_ticks, l.maker_index)).collect()
    };
    assert_eq!(
        order(sort_levels(&levels, false)),
        vec![(1, 5), (3, 1), (3, 3), (3, 6), (7, 0), (7, 4), (9, 2)]
    );
    assert_eq!(
        order(sort_levels(&levels, true)),
        vec![(9, 2), (7, 0), (7, 4), (3, 1), (3, 3), (3, 6), (1, 5)]
    );
    assert_eq!(order(copy_levels(&levels, 1, 3)), vec![(3, 1), (9, 2)]);
}

#[test]
fn price_is_cleared_pass_after_pass() {
    let h = header();
    // Two of three single lots: a pass fills one, so it takes two.
    let makers = vec![level(105, 1, 0), level(105, 1, 1), level(105, 1, 2)];
    let p = clear_price(&h, true, 105, makers.clone(), 215, 4).unwrap();
    assert_eq!((p.remaining, p.gained, p.done), (5, 6, true));
    let p = clear_price(&h, true, 105, makers.clone(), 1_000, 0).unwrap();
    assert_eq!((p.remaining, p.gained, p.done), (685, 3, false));
    let p = clear_price(&h, false, 105, makers.clone(), 2, 0).unwrap();
    assert_eq!((p.remaining, p.gained, p.done), (0, 210, true));
    let p = clear_price(&h, false, 105, makers.clone(), 3, 0).unwrap();
    assert_eq!((p.remaining, p.gained, p.done), (0, 315, false));
    let p = clear_price(&h, false, 105, vec![], 3, 1).unwrap();
    assert_eq!((p.remaining, p.gained, p.done), (3, 1, false));
    assert_eq!(text(clear_price(&h, false, 105, makers, 3, u64::MAX)), "Math error: quote overflow");
}

#[test]
fn price_reports_what_overflows() {
    let mut h = header();
    h.base_decimals = 0;
    h.base_atoms_per_base_lot = 1;
    assert_eq!(
        text(clear_price(&h, true, 1, vec![level(1, 5, 0)], 9, u64::MAX)),
        "Math error: base overflow"
    );
    assert_eq!(
        text(clear_price(&h, true, 1, vec![level(1, u64::MAX, 0), level(1, 1, 1)], 9, 0)),
        "Math error: group size overflow"
    );
    // Three quarters of a quote lot for a base lot: two base lots cost two
    // quote lots where each is rounded up, and the budget was one and a half.
    h.quote_atoms_per_quote_lot = 4;
    assert_eq!(
        text(clear_price(&h, true, 3, vec![level(3, 1, 0), level(3, 1, 1)], 1, 0)),
        ""
    );
    let makers = vec![level(3, 2, 0), level(3, 2, 1)];
    assert_eq!(text(clear_price(&h, true, 3, makers, 3, 0)), "Math error: remaining underflow");
}

#[test]
fn ladder_is_walked_best_price_first() {
    let h = header();
    let asks = sort_levels(&vec![level(11, 2, 0), level(10, 3, 1), level(12, 9, 0)], false);
    // 3 at 10, 2 at 11, 1 at 12, and 7 left over.
    let p = walk_ladder(&h, true, &asks, 30 + 22 + 12 + 7).unwrap();
    assert_eq!((p.remaining, p.gained), (7, 6));
    let bids = sort_levels(&vec![level(11, 2, 0), level(10, 3, 1), level(12, 9, 0)], true);
    let p = walk_ladder(&h, false, &bids, 12).unwrap();
    assert_eq!((p.remaining, p.gained), (0, 9 * 12 + 2 * 11 + 10));
    let p = walk_ladder(&h, false, &bids, 100).unwrap();
    assert_eq!((p.remaining, p.gained), (86, 9 * 12 + 2 * 11 + 3 * 10));
    let p = walk_ladder(&h, false, &vec![], 100).unwrap();
    assert_eq!((p.remaining, p.gained), (100, 0));
}

#[test]
fn input_is_grossed_down_by_the_fee() {
    assert_eq!(gross_down(1_010, 10_000), 1_000);
    assert_eq!(gross_down(1_009, 10_000), 999);
    assert_eq!(gross_down(1_010, 0), 1_010);
    assert_eq!(gross_down(1_010, -10_000), 1_010);
    assert_eq!(gross_down(u64::MAX, i32::MAX), 8_585_936_457_774_468);
}

#[test]
fn settlement_reports_what_overflows() {
    let mut h = header();
    h.quote_atoms_per_quote_lot = 1 << 60;
    assert_eq!(text(settle_buy(&h, 0, u64::MAX, 0)), "Math error: base atoms overflow");
    assert_eq!(text(settle_buy(&h, 16_000_000, 1, 1_000)), "Math error: fee atoms overflow");
    assert_eq!(text(settle_buy(&h, u64::MAX, 1, 1_000_000)), "Math error: fee overflow i64");
    assert_eq!(text(settle_sell(&h, 10, 1_100_000)), "Math error: fee exceeds output");
    assert_eq!(text(settle_sell(&h, u64::MAX, -1)), "Math error: rebate overflow");
    assert_eq!(text(settle_sell(&h, 16, 0)), "Math error: quote atoms overflow");
    // Nearly all of it is fee: what is left fits, the fee does not.
    assert_eq!(text(settle_sell(&h, 17, 999_999)), "Math error: fee atoms overflow");
    let h = header();
    let q = settle_sell(&h, 1_001, -5_000).unwrap();
    assert_eq!((q.out_amount, q.fee_amount), (1_006, 5));
    let q = settle_buy(&h, 1_001, 3, -5_000).unwrap();
    assert_eq!((q.out_amount, q.fee_amount), (3_000_000, 5));
}
