//! A market as a router drives it, and laws on concrete values.

use archer_jup::address::registry_address;
use archer_jup::amm::{budget_atoms, gross_quote, listed_books, net_quote, spendable_lots};
use archer_jup::error::{AmmError, ArcherAmmError};
use archer_jup::pubkey::{Pubkey, SPL_TOKEN_PROGRAM, TOKEN_2022_PROGRAM};
use archer_jup::quote::{collect_all_levels, compute_quote, has_matching_liquidity, QuoteOutput};
use archer_jup::router::{
    find_account, Account, AccountMeta, Clock, KeyedAccount, QuoteParams, Swap, SwapMode, SwapParams,
};
use archer_jup::state::{MakerBook, MakerRegistry, MarketStateHeader};
use archer_jup::{ArcherAmm, ARCHER_PROGRAM_ID};
use archer_sdk::onchain::ArcherUnit;
use bytemuck::Zeroable;
use rust_decimal::Decimal;
use spl_token_2022::extension::transfer_fee::TransferFeeConfig;
use spl_token_2022::extension::{BaseStateWithExtensionsMut, ExtensionType, StateWithExtensionsMut};
use spl_token_2022::state::Mint;

fn key(n: u8) -> Pubkey {
    Pubkey::new_from_array([n; 32])
}

fn sdk_key(n: u8) -> solana_pubkey::Pubkey {
    solana_pubkey::Pubkey::new_from_array([n; 32])
}

const MARKET: u8 = 1;
const BASE_MINT: u8 = 2;
const QUOTE_MINT: u8 = 3;

/// One base lot of a thousand atoms costs one quote lot of ten atoms per tick.
fn market() -> archer_sdk::onchain::MarketStateHeader {
    let mut h = archer_sdk::onchain::MarketStateHeader::zeroed();
    h.discriminator = *b"ACHRMKT1";
    h.base_mint = sdk_key(BASE_MINT);
    h.quote_mint = sdk_key(QUOTE_MINT);
    h.base_vault = sdk_key(4);
    h.quote_vault = sdk_key(5);
    h.base_decimals = 3;
    h.base_atoms_per_base_lot = ArcherUnit::new(1_000);
    h.quote_atoms_per_quote_lot = ArcherUnit::new(10);
    h.tick_size_in_quote_atoms_per_base_unit = ArcherUnit::new(10);
    h.raw_base_units_per_base_unit = 1;
    h.taker_fee_ppm = 10_000;
    h
}

fn book(market: u8, mid: u64) -> archer_sdk::onchain::MakerBook {
    let mut b = archer_sdk::onchain::MakerBook::zeroed();
    b.discriminator = *b"ACHRMKR1";
    b.market = sdk_key(market);
    b.maker = sdk_key(77);
    b.status = 1;
    b.mid_price_ticks = mid;
    b.tick_conversion_num = 1;
    b.tick_conversion_den = 1;
    b.ask_levels[0] = archer_sdk::onchain::MakerLevel::new(ArcherUnit::new(10), 5);
    b.bid_levels[0] = archer_sdk::onchain::MakerLevel::new(ArcherUnit::new(10), -5);
    b
}

fn registry(makers: &[u8], count: u8) -> archer_sdk::onchain::MakerRegistry {
    let mut g = archer_sdk::onchain::MakerRegistry::zeroed();
    g.discriminator = *b"ACHRREG1";
    g.market = sdk_key(MARKET);
    g.num_makers = count;
    for (i, m) in makers.iter().enumerate() {
        g.makers[i] = sdk_key(*m);
    }
    g
}

fn at(key: Pubkey, data: Vec<u8>, owner: [u8; 32]) -> KeyedAccount {
    KeyedAccount { key, account: Account { owner: Pubkey::new_from_array(owner), data } }
}

fn unloaded() -> ArcherAmm {
    let account = at(key(MARKET), bytemuck::bytes_of(&market()).to_vec(), ARCHER_PROGRAM_ID);
    ArcherAmm::try_from_keyed_account(&account).unwrap().unwrap()
}

/// A mint of the program with extensions that charges one percent.
fn fee_mint() -> Vec<u8> {
    let len = ExtensionType::try_calculate_account_len::<Mint>(&[ExtensionType::TransferFeeConfig])
        .unwrap();
    let mut data = vec![0u8; len];
    let mut state = StateWithExtensionsMut::<Mint>::unpack_uninitialized(&mut data).unwrap();
    let config = state.init_extension::<TransferFeeConfig>(true).unwrap();
    config.newer_transfer_fee.maximum_fee = u64::MAX.into();
    config.newer_transfer_fee.transfer_fee_basis_points = 100.into();
    state.base = Mint { is_initialized: true, ..Default::default() };
    state.pack_base();
    state.init_account_type().unwrap();
    data
}

/// Books 10 to 13 are listed, 10 twice; 11 is of another market, 12 is missing.
fn accounts(amm: &ArcherAmm) -> Vec<KeyedAccount> {
    vec![
        at(key(MARKET), bytemuck::bytes_of(&market()).to_vec(), ARCHER_PROGRAM_ID),
        at(
            amm.registry_key,
            bytemuck::bytes_of(&registry(&[10, 11, 10, 12, 13], 5)).to_vec(),
            ARCHER_PROGRAM_ID,
        ),
        at(key(10), bytemuck::bytes_of(&book(MARKET, 100)).to_vec(), ARCHER_PROGRAM_ID),
        at(key(11), bytemuck::bytes_of(&book(9, 100)).to_vec(), ARCHER_PROGRAM_ID),
        at(key(13), bytemuck::bytes_of(&book(MARKET, 101)).to_vec(), ARCHER_PROGRAM_ID),
        at(key(BASE_MINT), vec![7; 5], SPL_TOKEN_PROGRAM),
        at(key(QUOTE_MINT), vec![8; 6], SPL_TOKEN_PROGRAM),
    ]
}

fn loaded() -> ArcherAmm {
    let mut amm = unloaded();
    let accounts = accounts(&amm);
    amm.update(&accounts).unwrap();
    amm
}

fn ask(amount: u64, input: u8, output: u8) -> QuoteParams {
    QuoteParams {
        amount,
        input_mint: key(input),
        output_mint: key(output),
        swap_mode: SwapMode::ExactIn,
    }
}

const NOW: Clock = Clock { slot: 7, epoch: 0 };

fn text<T>(r: Result<T, AmmError>) -> String {
    match r {
        Ok(_) => String::new(),
        Err(e) => e.to_text(),
    }
}

#[test]
fn market_starts_unloaded() {
    let amm = unloaded();
    assert_eq!(amm.key(), key(MARKET));
    assert_eq!(amm.label(), "Archer");
    assert_eq!(amm.program_id().bytes, ARCHER_PROGRAM_ID);
    assert_eq!(Some(amm.registry_key), registry_address(&key(MARKET)));
    assert!(!amm.is_active());
    assert_eq!(amm.get_reserve_mints(), vec![]);
    assert_eq!(amm.get_accounts_to_update(), vec![key(MARKET), amm.registry_key]);
    assert_eq!(amm.get_accounts_len(), 11);
    assert!(amm.has_dynamic_accounts() && amm.requires_update_for_reserve_mints());
    assert!(!amm.supports_exact_out());
    assert_eq!(text(amm.quote(&ask(1, QUOTE_MINT, BASE_MINT), &NOW)), "Market not loaded");
    assert_eq!(text(amm.get_swap_and_account_metas(&swap(BASE_MINT), &NOW)), "Market not loaded");
}

#[test]
fn other_accounts_are_no_market() {
    for data in [vec![], b"ACHRMKT".to_vec(), b"ACHRMKR1xxxx".to_vec()] {
        let account = at(key(MARKET), data, ARCHER_PROGRAM_ID);
        let r = ArcherAmm::try_from_keyed_account(&account).unwrap();
        assert_eq!(text(r), "Not an Archer market");
        assert_eq!(text(ArcherAmm::with_registry(&account, key(9))), "Not an Archer market");
    }
    // The tag alone is enough.
    let account = at(key(MARKET), b"ACHRMKT1".to_vec(), ARCHER_PROGRAM_ID);
    assert!(ArcherAmm::from_keyed_account(&account).is_ok());
    assert_eq!(ArcherAmm::with_registry(&account, key(9)).unwrap().registry_key, key(9));
}

#[test]
fn update_takes_over_what_the_accounts_hold() {
    let amm = loaded();
    assert!(amm.is_active());
    assert_eq!(amm.maker_book_keys, vec![key(10), key(11), key(12), key(13)]);
    let books: Vec<Pubkey> = amm.maker_books.iter().map(|(k, _)| *k).collect();
    assert_eq!(books, vec![key(10), key(13)]);
    assert_eq!(amm.get_reserve_mints(), vec![key(BASE_MINT), key(QUOTE_MINT)]);
    assert_eq!(
        amm.get_accounts_to_update(),
        vec![
            key(MARKET),
            amm.registry_key,
            key(10),
            key(11),
            key(12),
            key(13),
            key(BASE_MINT),
            key(QUOTE_MINT),
        ]
    );
    assert_eq!(amm.get_accounts_len(), 13);
    assert_eq!((amm.base_mint_data.clone(), amm.quote_mint_data.clone()), (vec![7; 5], vec![8; 6]));
    assert_eq!(amm.base_token_program.bytes, SPL_TOKEN_PROGRAM);
}

#[test]
fn update_is_idempotent() {
    let mut amm = loaded();
    let before = format!("{:?}", amm);
    let accounts = accounts(&amm);
    amm.update(&accounts).unwrap();
    assert_eq!(format!("{:?}", amm), before);
}

#[test]
fn update_with_nothing_drops_the_books_only() {
    let mut amm = loaded();
    amm.update(&[]).unwrap();
    assert!(amm.is_active());
    assert!(amm.maker_books.is_empty());
    assert_eq!(amm.maker_book_keys.len(), 4);
    assert_eq!(amm.base_mint_data, vec![7; 5]);
}

#[test]
fn update_with_a_broken_market_changes_nothing() {
    let mut amm = loaded();
    let before = format!("{:?}", amm);
    let mut accounts = accounts(&amm);
    accounts[0].account.data.truncate(100);
    assert_eq!(
        text(amm.update(&accounts)),
        "Failed to deserialize market: Deserialization failed: invalid discriminator: expected ACHRMKT1"
    );
    assert_eq!(format!("{:?}", amm), before);
}

#[test]
fn update_given_what_was_decoded() {
    let mut amm = unloaded();
    let accounts = accounts(&amm);
    let header = MarketStateHeader::read(bytemuck::bytes_of(&market()));
    let own = MakerBook::read(bytemuck::bytes_of(&book(MARKET, 100)));
    let other = MakerBook::read(bytemuck::bytes_of(&book(9, 100)));
    let mut blank = own;
    blank.status = 0;
    let keys = vec![key(20), key(21), key(22), key(23)];
    let decoded = vec![Some(other), Some(own), None, Some(blank)];
    let cause = ArcherAmmError::MathError("x".into());
    assert_eq!(
        text(amm.update_given(&accounts, Some(Err(cause)), keys.clone(), decoded.clone())),
        "Failed to deserialize market: Math error: x"
    );
    assert!(amm.market_header.is_none() && amm.maker_book_keys.is_empty());
    amm.update_given(&accounts, None, keys.clone(), decoded.clone()).unwrap();
    assert!(amm.market_header.is_none() && amm.base_mint_data.is_empty());
    amm.update_given(&accounts, Some(Ok(header)), keys.clone(), decoded).unwrap();
    assert!(amm.is_active());
    assert_eq!((amm.base_mint_data.clone(), amm.quote_mint_data.clone()), (vec![7; 5], vec![8; 6]));
    assert_eq!(amm.maker_book_keys, keys);
    assert_eq!(amm.maker_books.len(), 1);
    assert_eq!(amm.maker_books[0].0, key(21));
}

#[test]
fn update_ignores_a_broken_registry_and_broken_books() {
    let mut amm = loaded();
    let mut accounts = accounts(&amm);
    accounts[1].account.data[0] = 0;
    accounts[2].account.data.truncate(700);
    accounts[4].account.data[160] = 9;
    amm.update(&accounts).unwrap();
    assert_eq!(amm.maker_book_keys.len(), 4);
    assert!(amm.maker_books.is_empty());
}

#[test]
fn update_looks_at_few_accounts() {
    let amm = unloaded();
    let all = accounts(&amm);
    assert_eq!(amm.accounts_read(&[]), vec![key(MARKET), amm.registry_key]);
    let read = amm.accounts_read(&all[..2]);
    assert_eq!(
        read,
        vec![
            key(MARKET),
            amm.registry_key,
            key(BASE_MINT),
            key(QUOTE_MINT),
            key(10),
            key(11),
            key(12),
            key(13),
        ]
    );
    // Accounts at other addresses make no difference.
    let mut more = accounts(&amm);
    more.push(at(key(99), bytemuck::bytes_of(&book(MARKET, 3)).to_vec(), ARCHER_PROGRAM_ID));
    let mut a = unloaded();
    let mut b = unloaded();
    a.update(&all).unwrap();
    b.update(&more).unwrap();
    assert_eq!(format!("{:?}", a), format!("{:?}", b));
    assert_eq!(a.accounts_read(&[])[2..], read[2..]);
}

#[test]
fn registry_lists_each_book_once() {
    let read = |g: &archer_sdk::onchain::MakerRegistry| {
        listed_books(&MakerRegistry::read(bytemuck::bytes_of(g)))
    };
    assert_eq!(read(&registry(&[5, 6, 5, 5, 7], 5)), vec![key(5), key(6), key(7)]);
    assert_eq!(read(&registry(&[5, 6, 5, 5, 7], 2)), vec![key(5), key(6)]);
    // A count past the end means all of them; the empty slots are one key.
    assert_eq!(read(&registry(&[5, 6], 255)), vec![key(5), key(6), key(0)]);
    assert_eq!(read(&registry(&[5, 6], 0)), vec![]);
}

#[test]
fn lookup_finds_the_first() {
    let list = [at(key(1), vec![1], [0; 32]), at(key(2), vec![2], [0; 32]), at(key(1), vec![3], [0; 32])];
    assert_eq!(find_account(&list, &key(1)).unwrap().data, vec![1]);
    assert_eq!(find_account(&list, &key(2)).unwrap().data, vec![2]);
    assert!(find_account(&list, &key(3)).is_none());
}

#[test]
fn quote_buys_and_sells() {
    let amm = loaded();
    // 10,105 atoms are 1,010 quote lots, of which 1,000 are matched: nine lots
    // at 105 for 945, and a fee of ten lots.
    let q = amm.quote(&ask(10_105, QUOTE_MINT, BASE_MINT), &NOW).unwrap();
    assert_eq!((q.in_amount, q.out_amount, q.fee_amount), (10_105, 9_000, 100));
    assert_eq!(q.fee_mint, key(QUOTE_MINT));
    assert_eq!(q.fee_pct, Decimal::new(10_000, 6));
    assert_eq!(q.fee_pct.to_string(), "0.010000");
    // Twelve lots: ten at 96, two at 95, less one percent.
    let q = amm.quote(&ask(12_999, BASE_MINT, QUOTE_MINT), &NOW).unwrap();
    assert_eq!((q.out_amount, q.fee_amount), ((960 + 190 - 12) * 10, 120));
}

#[test]
fn quote_without_fee_has_rate_zero() {
    let mut amm = loaded();
    amm.market_header.as_mut().unwrap().taker_fee_ppm = 0;
    let q = amm.quote(&ask(1_050, QUOTE_MINT, BASE_MINT), &NOW).unwrap();
    assert_eq!((q.out_amount, q.fee_amount), (1_000, 0));
    assert_eq!(q.fee_pct, Decimal::ZERO);
    assert_eq!(q.fee_pct.serialize(), Decimal::ZERO.serialize());
    amm.market_header.as_mut().unwrap().taker_fee_ppm = -500;
    let q = amm.quote(&ask(1_050, QUOTE_MINT, BASE_MINT), &NOW).unwrap();
    assert_eq!(q.fee_pct.to_string(), "-0.000500");
}

#[test]
fn quote_reports_why_there_is_none() {
    let mut amm = loaded();
    let mut exact_out = ask(1_000, QUOTE_MINT, BASE_MINT);
    exact_out.swap_mode = SwapMode::ExactOut;
    assert_eq!(text(amm.quote(&exact_out, &NOW)), "ExactOut not supported");
    amm.market_header.as_mut().unwrap().base_atoms_per_base_lot = 0;
    assert_eq!(text(amm.quote(&ask(1, BASE_MINT, QUOTE_MINT), &NOW)), "lot size is 0");
    amm.market_header.as_mut().unwrap().base_atoms_per_base_lot = 1_000;
    amm.market_header.as_mut().unwrap().base_decimals = 39;
    assert_eq!(
        text(amm.quote(&ask(10_000, QUOTE_MINT, BASE_MINT), &NOW)),
        "Math error: ArithmeticOverflow"
    );
    amm.market_header.as_mut().unwrap().status = 1;
    assert_eq!(text(amm.quote(&ask(1, QUOTE_MINT, BASE_MINT), &NOW)), "Market not active");
}

#[test]
fn quote_pays_transfer_fees_on_both_sides() {
    let mut amm = loaded();
    let mut accounts = accounts(&amm);
    accounts[5] = at(key(BASE_MINT), fee_mint(), TOKEN_2022_PROGRAM);
    accounts[6] = at(key(QUOTE_MINT), fee_mint(), TOKEN_2022_PROGRAM);
    amm.update(&accounts).unwrap();
    // 1,080 lots are sent and 1,069 arrive: 1,058 matched, ten lots at 105 for
    // 1,050 and no eleventh at 106; one percent of the output stays behind.
    let q = amm.quote(&ask(10_805, QUOTE_MINT, BASE_MINT), &NOW).unwrap();
    assert_eq!((q.in_amount, q.out_amount, q.fee_amount), (10_805, 9_900, 110));
    accounts[6].account.data.truncate(81);
    amm.update(&accounts).unwrap();
    assert_eq!(
        text(amm.quote(&ask(10_805, QUOTE_MINT, BASE_MINT), &NOW)),
        "mint unpack: An account's data contents was invalid"
    );
}

#[test]
fn amounts_are_cut_to_whole_lots() {
    assert_eq!(budget_atoms(109, 10), 100);
    assert_eq!(budget_atoms(9, 10), 0);
    assert_eq!(spendable_lots(109, 10, 0), 10);
    assert_eq!(spendable_lots(109, 10, 1), 9);
    assert_eq!(spendable_lots(109, 10, 100), 0);
    assert_eq!(spendable_lots(109, 10, u64::MAX), 0);
}

#[test]
fn quote_given_the_fees() {
    let amm = loaded();
    let header = amm.market_header.unwrap();
    let output =
        gross_quote(&header, &amm.maker_books, &ask(10_805, QUOTE_MINT, BASE_MINT), 7, 108).unwrap();
    assert_eq!(output, QuoteOutput { out_amount: 10_000, fee_amount: 110 });
    let q = net_quote(&header, 10_805, &output, 100);
    assert_eq!((q.in_amount, q.out_amount, q.fee_amount), (10_805, 9_900, 110));
    assert_eq!(net_quote(&header, 5, &output, 10_001).out_amount, 0);
}

fn swap(source: u8) -> SwapParams {
    SwapParams {
        source_mint: key(source),
        destination_mint: key(if source == BASE_MINT { QUOTE_MINT } else { BASE_MINT }),
        source_token_account: key(31),
        destination_token_account: key(32),
        token_transfer_authority: key(30),
    }
}

fn metas(list: &[AccountMeta]) -> Vec<(Pubkey, bool, bool)> {
    list.iter().map(|m| (m.pubkey, m.is_signer, m.is_writable)).collect()
}

#[test]
fn swap_accounts_buy_and_sell() {
    let mut amm = loaded();
    let expected = |base: u8, quote: u8, builder: u8| {
        vec![
            (key(30), true, false),
            (key(MARKET), false, true),
            (key(builder), false, true),
            (key(BASE_MINT), false, false),
            (key(QUOTE_MINT), false, false),
            (key(4), false, true),
            (key(5), false, true),
            (key(base), false, true),
            (key(quote), false, true),
            (Pubkey::new_from_array(SPL_TOKEN_PROGRAM), false, false),
            (Pubkey::new_from_array(SPL_TOKEN_PROGRAM), false, false),
            (key(10), false, true),
            (key(13), false, true),
        ]
    };
    let s = amm.get_swap_and_account_metas(&swap(QUOTE_MINT), &NOW).unwrap();
    assert_eq!(s.swap, Swap::Archer);
    assert_eq!(metas(&s.account_metas), expected(32, 31, 31));
    let s = amm.get_swap_and_account_metas(&swap(BASE_MINT), &NOW).unwrap();
    assert_eq!(metas(&s.account_metas), expected(31, 32, 32));
    assert!(s.account_metas.len() <= amm.get_accounts_len());
    amm.builder_fee_wallet = Some(key(50));
    amm.maker_books[0].1.expiry_in_slots = 1;
    let s = amm.get_swap_and_account_metas(&swap(BASE_MINT), &NOW).unwrap();
    let mut rest = expected(31, 32, 50);
    rest.remove(11);
    assert_eq!(metas(&s.account_metas), rest);
}

#[test]
fn swapping_more_never_gives_less() {
    let amm = loaded();
    for (input, output, step) in [(QUOTE_MINT, BASE_MINT, 37), (BASE_MINT, QUOTE_MINT, 333)] {
        let mut last = 0;
        for i in 0..800u64 {
            let q = amm.quote(&ask(i * step, input, output), &NOW).unwrap();
            assert!(last <= q.out_amount);
            last = q.out_amount;
        }
        assert!(last > 0);
    }
}

/// Half a quote lot for a base lot: three makers with two lots each share a
/// sale of three lots one each, and each share is worth nothing.
#[test]
fn uneven_lots_can_give_less_for_more() {
    let mut h = MarketStateHeader::zeroed();
    h.base_atoms_per_base_lot = 1;
    h.quote_atoms_per_quote_lot = 2;
    h.tick_size_in_quote_atoms_per_base_unit = 1;
    h.raw_base_units_per_base_unit = 1;
    let mut b = MakerBook::read(bytemuck::bytes_of(&book(MARKET, 6)));
    b.bid_levels[0].size_in_base_lots = 2;
    let books: Vec<_> = (0..3).map(|i| (key(i), b)).collect();
    assert_eq!(compute_quote(2, false, &h, &books, 0, None).unwrap().out_amount, 2);
    assert_eq!(compute_quote(3, false, &h, &books, 0, None).unwrap().out_amount, 0);
}

#[test]
fn buying_never_costs_more_than_the_input() {
    let amm = loaded();
    let header = amm.market_header.unwrap();
    for input in 1..1_500u64 {
        let q = compute_quote(input, true, &header, &amm.maker_books, 7, None).unwrap();
        let base = q.out_amount / 1_000;
        let first = if base < 10 { base } else { 10 };
        let matched = first * 105 + (base - first) * 106;
        assert!(matched + q.fee_amount / 10 <= input);
    }
}

#[test]
fn sale_and_fee_come_to_what_was_matched() {
    let amm = loaded();
    let header = amm.market_header.unwrap();
    for lots in 1..=20u64 {
        let q = compute_quote(lots, false, &header, &amm.maker_books, 7, None).unwrap();
        let first = if lots < 10 { lots } else { 10 };
        assert_eq!(q.out_amount + q.fee_amount, (first * 96 + (lots - first) * 95) * 10);
    }
    // No more is sold than is asked for.
    let all = compute_quote(20, false, &header, &amm.maker_books, 7, None).unwrap();
    assert_eq!(compute_quote(2_000, false, &header, &amm.maker_books, 7, None).unwrap(), all);
}

#[test]
fn levels_are_gathered_from_eligible_books() {
    let mut amm = loaded();
    amm.maker_books[0].1.ask_levels[3].size_in_base_lots = 4;
    amm.maker_books[0].1.ask_levels[4].size_in_base_lots = 4;
    amm.maker_books[0].1.ask_levels[4].price_offset_ticks = -100;
    let levels = collect_all_levels(&amm.maker_books, false, 7, None, 0);
    let plain: Vec<_> =
        levels.iter().map(|l| (l.price_ticks, l.size_base_lots, l.maker_index)).collect();
    assert_eq!(plain, vec![(105, 10, 0), (100, 4, 0), (106, 10, 1)]);
    // All books have the same maker, who meets none of them.
    let maker = key(77);
    assert!(collect_all_levels(&amm.maker_books, false, 7, Some(&maker), 0).is_empty());
    assert!(!has_matching_liquidity(&amm.maker_books, true, 7, Some(&maker), 0));
    let q = compute_quote(1_000, true, &amm.market_header.unwrap(), &amm.maker_books, 7, Some(&maker));
    assert_eq!(q.unwrap(), QuoteOutput { out_amount: 0, fee_amount: 0 });
    // A mid price beyond the signed range rests nowhere.
    amm.maker_books[1].1.mid_price_ticks = 1 << 63;
    assert_eq!(collect_all_levels(&amm.maker_books, false, 7, None, 0).len(), 2);
}
