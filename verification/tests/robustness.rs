//! Random and adversarial state: nothing here may panic.

use archer_jup::address::registry_address;
use archer_jup::pubkey::{Pubkey, SPL_TOKEN_PROGRAM, TOKEN_2022_PROGRAM};
use archer_jup::token::transfer_fee_atoms;
use archer_jup::quote::compute_quote;
use archer_jup::router::{
    Account, Clock, KeyedAccount, QuoteParams, SwapMode, SwapParams,
};
use archer_jup::state::{MakerBook, MarketStateHeader};
use archer_jup::{ArcherAmm, ARCHER_PROGRAM_ID};
use archer_sdk::onchain::{
    ArcherUnit, BaseAtomsPerLot, BaseLots, MakerLevel, QuoteAtomsPerBaseUnitPerTick,
    QuoteAtomsPerLot, QuoteLots, MAKER_BOOK_DISCRIMINATOR, MAKER_REGISTRY_DISCRIMINATOR,
    MARKET_STATE_DISCRIMINATOR, MAX_LEVELS,
};
use bytemuck::Zeroable;
use rand::{rngs::StdRng, Rng, SeedableRng};

type SdkKey = solana_pubkey::Pubkey;

fn plain(key: SdkKey) -> Pubkey {
    Pubkey::new_from_array(key.to_bytes())
}

fn unique() -> Pubkey {
    plain(SdkKey::new_unique())
}

/// Values that sit on arithmetic edges.
fn edge_u64(rng: &mut StdRng) -> u64 {
    match rng.random_range(0..10) {
        0 => 0,
        1 => 1,
        2 => u64::MAX,
        3 => u64::MAX - 1,
        4 => u64::MAX / 2,
        5 => 1 << 63,
        6 => (1u64 << 32) - 1,
        7 => 1 << 32,
        8 => rng.random_range(0..1_000_000),
        _ => rng.random(),
    }
}

fn edge_i64(rng: &mut StdRng) -> i64 {
    match rng.random_range(0..8) {
        0 => 0,
        1 => i64::MAX,
        2 => i64::MIN,
        3 => -1,
        4 => 1,
        5 => rng.random_range(-1_000_000..1_000_000),
        _ => rng.random(),
    }
}

fn random_header(rng: &mut StdRng) -> archer_sdk::onchain::MarketStateHeader {
    let mut h = archer_sdk::onchain::MarketStateHeader::zeroed();
    h.discriminator = *MARKET_STATE_DISCRIMINATOR;
    h.base_mint = SdkKey::new_unique();
    h.quote_mint = SdkKey::new_unique();
    h.base_vault = SdkKey::new_unique();
    h.quote_vault = SdkKey::new_unique();
    h.base_decimals = rng.random_range(0..=40);
    h.quote_decimals = rng.random_range(0..=40);
    h.base_atoms_per_base_lot = BaseAtomsPerLot::new(edge_u64(rng));
    h.quote_atoms_per_quote_lot = QuoteAtomsPerLot::new(edge_u64(rng));
    h.tick_size_in_quote_atoms_per_base_unit = QuoteAtomsPerBaseUnitPerTick::new(edge_u64(rng));
    h.raw_base_units_per_base_unit = edge_u64(rng);
    h.maker_fee_ppm = if rng.random_bool(0.5) { rng.random_range(-50_000..=100_000) } else { rng.random() };
    h.taker_fee_ppm = if rng.random_bool(0.5) { rng.random_range(0..=100_000) } else { rng.random() };
    h.status = rng.random_range(0..5);
    h
}

fn random_book(rng: &mut StdRng, market: SdkKey) -> archer_sdk::onchain::MakerBook {
    let mut b = archer_sdk::onchain::MakerBook::zeroed();
    b.discriminator = *MAKER_BOOK_DISCRIMINATOR;
    b.market = if rng.random_bool(0.9) { market } else { SdkKey::new_unique() };
    b.maker = SdkKey::new_unique();
    b.status = rng.random_range(0..4);
    b.kind = rng.random_range(0..3);
    b.mid_price_ticks = edge_u64(rng);
    b.mid_at_last_sync = if rng.random_bool(0.5) { b.mid_price_ticks } else { edge_u64(rng) };
    b.tick_conversion_num = edge_u64(rng);
    b.tick_conversion_den = edge_u64(rng);
    b.quote_locked = QuoteLots::new(edge_u64(rng));
    b.quote_free = QuoteLots::new(edge_u64(rng));
    b.base_locked = BaseLots::new(edge_u64(rng));
    b.base_free = BaseLots::new(edge_u64(rng));
    b.last_updated_slot = edge_u64(rng);
    b.expiry_in_slots = edge_u64(rng);
    for i in 0..MAX_LEVELS {
        if rng.random_bool(0.6) {
            b.bid_levels[i] = MakerLevel::new(BaseLots::new(edge_u64(rng)), edge_i64(rng));
        }
        if rng.random_bool(0.6) {
            b.ask_levels[i] = MakerLevel::new(BaseLots::new(edge_u64(rng)), edge_i64(rng));
        }
    }
    b
}

#[test]
fn engine_never_panics_on_adversarial_state() {
    let mut rng = StdRng::seed_from_u64(0xA5A5);
    for _ in 0..3_000 {
        let header = MarketStateHeader::read(bytemuck::bytes_of(&random_header(&mut rng)));
        let market = SdkKey::new_unique();
        let n = rng.random_range(0..=70usize);
        let books: Vec<(Pubkey, MakerBook)> = (0..n)
            .map(|_| (unique(), MakerBook::read(bytemuck::bytes_of(&random_book(&mut rng, market)))))
            .collect();
        let amount = edge_u64(&mut rng);
        let slot = edge_u64(&mut rng);
        let is_buy = rng.random_bool(0.5);
        let taker = if rng.random_bool(0.3) {
            Some(books.first().map(|(_, b)| b.maker).unwrap_or_default())
        } else {
            None
        };
        // A panic in here fails the test by itself.
        let _ = compute_quote(amount, is_buy, &header, &books, slot, taker.as_ref());
    }
}

fn account(data: Vec<u8>, owner: [u8; 32]) -> Account {
    Account { owner: Pubkey::new_from_array(owner), data }
}

#[test]
fn amm_lifecycle_never_panics_on_garbage_accounts() {
    let mut rng = StdRng::seed_from_u64(0x5A5A);
    let clock = Clock { slot: 0, epoch: 0 };
    for _round in 0..600 {
        let market = SdkKey::new_unique();
        let header = random_header(&mut rng);
        let mut market_data = bytemuck::bytes_of(&header).to_vec();
        // Sometimes truncate or corrupt the market account.
        match rng.random_range(0..6) {
            0 => market_data.truncate(rng.random_range(0..market_data.len())),
            1 => {
                let i = rng.random_range(8..market_data.len());
                market_data[i] = rng.random();
            }
            _ => {}
        }
        let keyed = KeyedAccount {
            key: plain(market),
            account: account(market_data.clone(), ARCHER_PROGRAM_ID),
        };
        let Some(Ok(mut amm)) = ArcherAmm::try_from_keyed_account(&keyed) else { continue };

        let (registry_key, _) = SdkKey::find_program_address(
            &[b"maker_registry", market.as_ref()],
            &SdkKey::new_from_array(ARCHER_PROGRAM_ID),
        );
        assert_eq!(registry_address(&plain(market)), Some(plain(registry_key)));
        assert_eq!(amm.registry_key, plain(registry_key));
        let mut reg = archer_sdk::onchain::MakerRegistry::zeroed();
        reg.discriminator = *MAKER_REGISTRY_DISCRIMINATOR;
        reg.market = market;
        // Corrupt counts past the array, duplicates, and dead keys are all fair.
        reg.num_makers = rng.random();
        let n = rng.random_range(0..reg.makers.len());
        let mut book_keys = Vec::new();
        for i in 0..n {
            let k = if i > 0 && rng.random_bool(0.1) { reg.makers[i - 1] } else { SdkKey::new_unique() };
            reg.makers[i] = k;
            book_keys.push(k);
        }
        let mut accounts: Vec<KeyedAccount> = vec![
            keyed,
            KeyedAccount {
                key: plain(registry_key),
                account: account(bytemuck::bytes_of(&reg).to_vec(), ARCHER_PROGRAM_ID),
            },
        ];
        // Mints: sometimes plain, sometimes garbage of odd lengths.
        for mint in [header.base_mint, header.quote_mint] {
            let len = match rng.random_range(0..4) { 0 => 82, 1 => 0, 2 => rng.random_range(0..400), _ => 165 };
            let data: Vec<u8> = (0..len).map(|_| rng.random()).collect();
            accounts.push(KeyedAccount { key: plain(mint), account: account(data, SPL_TOKEN_PROGRAM) });
        }
        for k in &book_keys {
            if rng.random_bool(0.2) {
                continue; // missing account
            }
            let mut data = bytemuck::bytes_of(&random_book(&mut rng, market)).to_vec();
            if rng.random_bool(0.15) {
                data.truncate(rng.random_range(0..data.len()));
            }
            accounts.push(KeyedAccount { key: plain(*k), account: account(data, ARCHER_PROGRAM_ID) });
        }

        // A panic in here fails the test by itself.
        for _ in 0..2 {
            let _ = amm.update(&accounts);
        }
        let _ = amm.get_reserve_mints();
        let _ = amm.get_accounts_to_update();
        let _ = amm.get_accounts_len();
        let _ = amm.is_active();
        for _ in 0..8 {
            let (input_mint, output_mint) = if rng.random_bool(0.5) {
                (header.quote_mint, header.base_mint)
            } else {
                (header.base_mint, header.quote_mint)
            };
            let _ = amm.quote(
                &QuoteParams {
                    amount: edge_u64(&mut rng),
                    input_mint: plain(input_mint),
                    output_mint: plain(output_mint),
                    swap_mode: if rng.random_bool(0.9) { SwapMode::ExactIn } else { SwapMode::ExactOut },
                },
                &clock,
            );
            let metas = amm.get_swap_and_account_metas(
                &SwapParams {
                    source_mint: plain(input_mint),
                    destination_mint: plain(output_mint),
                    source_token_account: unique(),
                    destination_token_account: unique(),
                    token_transfer_authority: unique(),
                },
                &clock,
            );
            if let Ok(swap) = metas {
                assert!(swap.account_metas.len() <= amm.get_accounts_len());
            }
        }
    }
}

#[test]
fn transfer_fees_never_panic_on_garbage_mints() {
    let mut rng = StdRng::seed_from_u64(0x2022);
    let program = Pubkey::new_from_array(TOKEN_2022_PROGRAM);
    for _ in 0..5_000 {
        let len = match rng.random_range(0..5) { 0 => 82, 1 => 0, 2 => rng.random_range(0..400), 3 => 355, _ => 278 };
        let mut data: Vec<u8> = (0..len).map(|_| rng.random()).collect();
        if len >= 166 && rng.random_bool(0.7) {
            // A mint's head, zero padding and the account type of a mint.
            for b in data[..165].iter_mut() {
                *b = 0;
            }
            data[45] = 1;
            data[165] = 1;
        }
        let _ = transfer_fee_atoms(&data, &program, edge_u64(&mut rng), edge_u64(&mut rng));
    }
}
