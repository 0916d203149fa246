//! Accounts from bytes.

use archer_jup::decode;
use archer_jup::error::ArcherAmmError;
use archer_jup::state::{
    deserialize_maker_book, deserialize_market_header, deserialize_registry, maker_book_given,
    market_header_given, MakerBookStatus, MakerLevel, MarketStateHeader, MAKER_BOOK_LEN, MAKER_REGISTRY_LEN, MARKET_HEADER_LEN,
};

/// Bytes of some account: the tag, then a running pattern.
fn pattern(tag: &[u8; 8], len: usize) -> Vec<u8> {
    let mut data: Vec<u8> = (0..len).map(|i| (i % 251) as u8).collect();
    data[..8].copy_from_slice(tag);
    data
}

#[test]
fn market_header_reads_every_field() {
    // One byte more than a header.
    let data = pattern(b"ACHRMKT1", MARKET_HEADER_LEN + 1);
    let h = decode::market_header(&data).unwrap();
    let s = archer_sdk::accounts::parse_market_state(
        &bytemuck::cast_slice::<u64, u8>(&bytemuck::pod_collect_to_vec::<u8, u64>(&data))[..data.len()],
    )
    .map(|s| *s)
    .unwrap();
    assert_eq!(h.discriminator, s.discriminator);
    assert_eq!(h.base_mint.bytes, s.base_mint.to_bytes());
    assert_eq!(h.quote_mint.bytes, s.quote_mint.to_bytes());
    assert_eq!(h.base_vault.bytes, s.base_vault.to_bytes());
    assert_eq!(h.quote_vault.bytes, s.quote_vault.to_bytes());
    assert_eq!(h.maker_fee_ppm, s.maker_fee_ppm);
    assert_eq!(h.taker_fee_ppm, s.taker_fee_ppm);
    assert_eq!(h.base_decimals, s.base_decimals);
    assert_eq!(h.quote_decimals, s.quote_decimals);
    assert_eq!(h.status, s.status);
    assert_eq!(h.raw_base_units_per_base_unit, s.raw_base_units_per_base_unit);
    assert_eq!(h.base_atoms_per_base_lot, u64::from_le_bytes(data[200..208].try_into().unwrap()));
    assert_eq!(h.taker_fee_ppm, i32::from_le_bytes(data[252..256].try_into().unwrap()));
    assert_eq!(h._reserved, u32::from_le_bytes(data[268..272].try_into().unwrap()));
    let same = deserialize_market_header(&data).unwrap();
    assert_eq!(format!("{:?}", same), format!("{:?}", h));
}

#[test]
fn maker_book_reads_every_field() {
    let data = pattern(b"ACHRMKR1", MAKER_BOOK_LEN);
    let b = decode::maker_book(&data).unwrap();
    let s = *bytemuck::from_bytes::<archer_sdk::onchain::MakerBook>(bytemuck::cast_slice(
        &bytemuck::pod_collect_to_vec::<u8, u64>(&data),
    ));
    assert_eq!(b.maker.bytes, s.maker.to_bytes());
    assert_eq!(b.market.bytes, s.market.to_bytes());
    assert_eq!(b.delegate.bytes, s.delegate.to_bytes());
    assert_eq!(b.mid_price_ticks, s.mid_price_ticks);
    assert_eq!(b.mid_at_last_sync, s.mid_at_last_sync);
    assert_eq!(b.status, s.status);
    assert_eq!(b.kind, s.kind);
    assert_eq!(b.tick_conversion_num, s.tick_conversion_num);
    assert_eq!(b.tick_conversion_den, s.tick_conversion_den);
    assert_eq!(b.last_updated_slot, s.last_updated_slot);
    assert_eq!(b.expiry_in_slots, s.expiry_in_slots);
    for i in 0..16 {
        assert_eq!(b.bid_levels[i].price_offset_ticks, s.bid_levels[i].price_offset_ticks);
        assert_eq!(b.ask_levels[i].price_offset_ticks, s.ask_levels[i].price_offset_ticks);
        let at = 456 + 16 * i;
        let size = u64::from_le_bytes(data[at..at + 8].try_into().unwrap());
        assert_eq!(b.ask_levels[i].size_in_base_lots, size);
    }
    let same = deserialize_maker_book(&data).unwrap();
    assert_eq!(format!("{:?}", same), format!("{:?}", b));
}

#[test]
fn registry_reads_every_field() {
    let data = pattern(b"ACHRREG1", MAKER_REGISTRY_LEN + 5);
    let g = decode::registry(&data).unwrap();
    assert_eq!(g.market.bytes, data[8..40]);
    assert_eq!(g.admin.bytes, data[40..72]);
    assert_eq!(g.num_makers, data[72]);
    assert_eq!(g.makers[0].bytes, data[80..112]);
    assert_eq!(g.makers[63].bytes, data[2096..2128]);
    let same = deserialize_registry(&data).unwrap();
    assert_eq!(format!("{:?}", same), format!("{:?}", g));
}

fn refusal<T>(r: Result<T, ArcherAmmError>) -> String {
    match r {
        Ok(_) => String::new(),
        Err(e) => e.to_text(),
    }
}

#[test]
fn other_bytes_are_refused() {
    let market = pattern(b"ACHRMKT1", MARKET_HEADER_LEN);
    let book = pattern(b"ACHRMKR1", MAKER_BOOK_LEN);
    let registry = pattern(b"ACHRREG1", MAKER_REGISTRY_LEN);
    let short_market = "Deserialization failed: invalid discriminator: expected ACHRMKT1";
    assert_eq!(refusal(decode::market_header(&market[..MARKET_HEADER_LEN - 1])), short_market);
    assert_eq!(refusal(decode::market_header(&[])), short_market);
    assert_eq!(refusal(decode::market_header(&book)), short_market);
    let short_book = "Deserialization failed: invalid discriminator: expected ACHRMKR1";
    assert_eq!(refusal(decode::maker_book(&book[..MAKER_BOOK_LEN - 1])), short_book);
    assert_eq!(refusal(decode::maker_book(&registry)), short_book);
    let short_registry = "Deserialization failed: invalid discriminator: expected ACHRREG1";
    assert_eq!(refusal(decode::registry(&registry[..MAKER_REGISTRY_LEN - 1])), short_registry);
    assert_eq!(refusal(decode::registry(&[0; MAKER_REGISTRY_LEN])), short_registry);
}

#[test]
fn plain_decoders_say_what_is_wrong() {
    let lead = "Deserialization failed: ";
    let text = |t: &str| format!("{lead}{t}");
    assert_eq!(refusal(deserialize_market_header(&[0; 271])), text("Market data too short"));
    assert_eq!(refusal(deserialize_market_header(&[0; 272])), text("Invalid market discriminator"));
    assert_eq!(refusal(deserialize_maker_book(&[0; 775])), text("MakerBook data too short"));
    assert_eq!(refusal(deserialize_maker_book(&[0; 776])), text("Invalid maker book discriminator"));
    assert_eq!(refusal(deserialize_registry(&[0; 2127])), text("Registry data too short"));
    assert_eq!(refusal(deserialize_registry(&[0; 2128])), text("Invalid registry discriminator"));
}

#[test]
fn every_error_has_its_text() {
    assert_eq!(ArcherAmmError::MissingState("x".into()).to_text(), "Missing state: x");
    assert_eq!(ArcherAmmError::MathError("x".into()).to_text(), "Math error: x");
    assert_eq!(ArcherAmmError::MarketNotActive.to_text(), "Market not active");
    assert_eq!(ArcherAmmError::NoMatchingLiquidity.to_text(), "No matching liquidity");
}

#[test]
fn header_flags_and_fees() {
    let mut h = MarketStateHeader::zeroed();
    assert!(h.is_active() && !h.is_hybrid() && !h.is_async_only());
    h.status = 3;
    h.mode = 1;
    h.taker_fee_ppm = 40;
    h.sync_fee_multiplier = 3;
    assert!(!h.is_active() && h.is_async_only());
    assert_eq!(h.sync_taker_fee_ppm().unwrap(), 40);
    h.mode = 2;
    assert!(h.is_hybrid());
    assert_eq!(h.effective_sync_fee_multiplier(), 3);
    assert_eq!(h.sync_taker_fee_ppm().unwrap(), 120);
    h.sync_fee_multiplier = 0;
    assert_eq!(h.effective_sync_fee_multiplier(), 1);
    h.sync_fee_multiplier = 2;
    h.taker_fee_ppm = i32::MAX;
    assert_eq!(h.sync_taker_fee_ppm().unwrap_err().to_text(), "Math error: sync fee overflow");
}

#[test]
fn header_conversions_fail_where_they_leave_their_range() {
    let mut h = MarketStateHeader::zeroed();
    h.base_decimals = 39;
    assert_eq!(h.base_atoms_per_base_unit().unwrap_err().to_text(), "Math error: pow overflow");
    h.base_decimals = 38;
    h.raw_base_units_per_base_unit = 4;
    assert_eq!(h.base_atoms_per_base_unit().unwrap_err().to_text(), "Math error: base unit overflow");
    h.raw_base_units_per_base_unit = 3;
    assert_eq!(h.base_atoms_per_base_unit().unwrap(), 3 * 10u128.pow(38));
    let mut h = MarketStateHeader::zeroed();
    h.base_atoms_per_base_lot = u64::MAX;
    h.tick_size_in_quote_atoms_per_base_unit = 1;
    assert_eq!(h.base_lots_to_quote_atoms(1, 1).unwrap_err().to_text(), "Math error: div zero");
    h.raw_base_units_per_base_unit = 1;
    assert_eq!(h.base_lots_to_quote_atoms(1, 1).unwrap(), u64::MAX);
    assert_eq!(
        h.base_lots_to_quote_atoms(2, 1).unwrap_err().to_text(),
        "Math error: quote atoms overflow u64"
    );
    assert_eq!(h.base_lots_to_quote_atoms(u64::MAX, 2).unwrap_err().to_text(), "Math error: overflow");
}

#[test]
fn level_prices() {
    assert_eq!(MakerLevel::new(1, -5).absolute_price(100), Some(95));
    assert_eq!(MakerLevel::new(1, -100).absolute_price(100), None);
    assert_eq!(MakerLevel::new(1, i64::MAX).absolute_price(1), None);
    assert_eq!(MakerLevel::new(1, 5).absolute_price(u64::MAX), Some(4));
    assert!(MakerLevel::new(1, 0).is_active());
    assert!(!MakerLevel::new(0, 7).is_active());
}

#[test]
fn book_status_and_kind() {
    let mut b = archer_jup::state::MakerBook::zeroed();
    assert_eq!(b.get_status(), None);
    assert!(!b.is_limit_order() && !b.is_active());
    b.status = 1;
    b.kind = 1;
    assert_eq!(b.get_status(), Some(MakerBookStatus::Active));
    assert!(b.is_limit_order() && b.is_active());
    b.status = 2;
    assert_eq!(b.get_status(), Some(MakerBookStatus::Suspended));
    // An expiry of zero never comes.
    assert!(!b.is_stale(u64::MAX));
    b.expiry_in_slots = 10;
    b.last_updated_slot = 100;
    assert!(!b.is_stale(50) && !b.is_stale(109) && b.is_stale(110) && b.is_stale(u64::MAX));
}

/// The data at eight addresses in a row, of which one suits a word.
fn shifted(data: &[u8]) -> Vec<Vec<u8>> {
    (0..8)
        .map(|offset| {
            let mut buffer = vec![0u8; offset];
            buffer.extend_from_slice(data);
            buffer
        })
        .collect()
}

#[test]
fn words_are_decoded_where_they_fit() {
    let market = pattern(b"ACHRMKT1", MARKET_HEADER_LEN);
    let book = pattern(b"ACHRMKR1", MAKER_BOOK_LEN);
    let registry = pattern(b"ACHRREG1", MAKER_REGISTRY_LEN);
    // Vectors are laid out from a word's address on.
    for (offset, buffer) in shifted(&market).iter().enumerate() {
        let at = &buffer[offset..];
        if offset == 0 {
            assert!(decode::market_header(at).is_ok() && deserialize_market_header(at).is_ok());
        } else {
            assert_eq!(
                refusal(decode::market_header(at)),
                "Deserialization failed: invalid discriminator: expected ACHRMKT1"
            );
            assert_eq!(
                refusal(deserialize_market_header(at)),
                "Deserialization failed: Market: TargetAlignmentGreaterAndInputNotAligned"
            );
        }
    }
    for (offset, buffer) in shifted(&book).iter().enumerate() {
        let at = &buffer[offset..];
        if offset == 0 {
            assert!(decode::maker_book(at).is_ok() && deserialize_maker_book(at).is_ok());
        } else {
            assert_eq!(
                refusal(decode::maker_book(at)),
                "Deserialization failed: invalid discriminator: expected ACHRMKR1"
            );
            assert_eq!(
                refusal(deserialize_maker_book(at)),
                "Deserialization failed: MakerBook: TargetAlignmentGreaterAndInputNotAligned"
            );
        }
    }
    // A registry fits everywhere.
    for (offset, buffer) in shifted(&registry).iter().enumerate() {
        let at = &buffer[offset..];
        assert!(decode::registry(at).is_ok() && deserialize_registry(at).is_ok());
    }
}

#[test]
fn decoding_given_the_cast() {
    let market = pattern(b"ACHRMKT1", MARKET_HEADER_LEN);
    let book = pattern(b"ACHRMKR1", MAKER_BOOK_LEN);
    let no = || Err::<(), String>("no".into());
    assert_eq!(market_header_given(&market, Ok(())).unwrap().base_decimals, market[256]);
    assert_eq!(refusal(market_header_given(&market, no())), "Deserialization failed: Market: no");
    assert_eq!(
        refusal(market_header_given(&market[..271], no())),
        "Deserialization failed: Market data too short"
    );
    assert_eq!(
        refusal(market_header_given(&book, no())),
        "Deserialization failed: Invalid market discriminator"
    );
    assert_eq!(maker_book_given(&book, Ok(())).unwrap().status, book[160]);
    assert_eq!(refusal(maker_book_given(&book, no())), "Deserialization failed: MakerBook: no");
    assert_eq!(decode::market_header_given(Ok(market.clone())).unwrap().status, market[258]);
    assert_eq!(refusal(decode::market_header_given(Err("no".into()))), "Deserialization failed: no");
    assert_eq!(decode::maker_book_given(Ok(book.clone())).unwrap().kind, book[164]);
    assert_eq!(refusal(decode::maker_book_given(Err("no".into()))), "Deserialization failed: no");
}
