//! Accounts as bytes: an account's fields stand one behind the other, in their
//! order, the lowest byte of a number first.

use vstd::prelude::*;

use crate::decode::{book_in, market_in, registry_in};
use crate::layout::{le_u16, le_u32, le_u64, signed_32, signed_64};
use crate::pubkey::Pubkey;
use crate::state::{
    MAKER_BOOK_DISCRIMINATOR, MARKET_DISCRIMINATOR, MakerBook, MakerLevel, MakerRegistry,
    MarketStateHeader, REGISTRY_DISCRIMINATOR, levels_encoded_by, maker_book_refusal,
    market_header_refusal,
};

verus! {

/// The lowest `width` bytes of a number, the lowest first; of a negative one, in
/// two's complement.
pub open spec fn written(n: int, width: nat) -> Seq<u8>
    decreases width,
{
    if width == 0 {
        Seq::empty()
    } else {
        seq![(n % 256) as u8] + written(n / 256, (width - 1) as nat)
    }
}

/// The bytes of levels: each its size, then its distance from the mid price.
pub open spec fn levels_written(levels: Seq<MakerLevel>) -> Seq<u8>
    decreases levels.len(),
{
    if levels.len() == 0 {
        Seq::empty()
    } else {
        levels_written(levels.drop_last()) + written(levels.last().size_in_base_lots as int, 8)
            + written(levels.last().price_offset_ticks as int, 8)
    }
}

/// The bytes of numbers of eight bytes each.
pub open spec fn words_written(words: Seq<u64>) -> Seq<u8>
    decreases words.len(),
{
    if words.len() == 0 {
        Seq::empty()
    } else {
        words_written(words.drop_last()) + written(words.last() as int, 8)
    }
}

/// The bytes of addresses.
pub open spec fn keys_written(keys: Seq<Pubkey>) -> Seq<u8>
    decreases keys.len(),
{
    if keys.len() == 0 {
        Seq::empty()
    } else {
        keys_written(keys.drop_last()) + keys.last().bytes@
    }
}

/// The front of the bytes and what follows it are a longer front.
proof fn lemma_extend(data: Seq<u8>, a: int, b: int)
    requires
        0 <= a <= b <= data.len(),
    ensures
        data.take(a) + data.subrange(a, b) == data.take(b),
{
    assert(data.take(a) + data.subrange(a, b) =~= data.take(b));
}

/// Two stretches that meet are one.
proof fn lemma_meet(data: Seq<u8>, a: int, b: int, c: int)
    requires
        0 <= a <= b <= c <= data.len(),
    ensures
        data.subrange(a, b) + data.subrange(b, c) == data.subrange(a, c),
{
    assert(data.subrange(a, b) + data.subrange(b, c) =~= data.subrange(a, c));
}

/// The lowest byte of a number, and the number without it.
proof fn lemma_written(n: int, width: nat, low: u8, rest: int)
    requires
        width > 0,
        n == low + 256 * rest,
    ensures
        written(n, width) == seq![low] + written(rest, (width - 1) as nat),
{
}

/// A number is written as the bytes that mean it.
proof fn lemma_word_16(data: Seq<u8>, at: int, n: int)
    requires
        0 <= at,
        at + 2 <= data.len(),
        n == le_u16(data, at),
    ensures
        written(n, 2) == data.subrange(at, at + 2),
{
    let n1 = data[at + 1] as int;
    lemma_written(n, 2, data[at], n1);
    lemma_written(n1, 1, data[at + 1], 0);
    assert(written(n, 2) =~= data.subrange(at, at + 2));
}

/// A number is written as the bytes that mean it, whatever stands above them.
proof fn lemma_word_over_32(data: Seq<u8>, at: int, n: int, over: int)
    requires
        0 <= at,
        at + 4 <= data.len(),
        n == le_u32(data, at) + 0x1_0000_0000 * over,
    ensures
        written(n, 4) == data.subrange(at, at + 4),
{
    let n3 = data[at + 3] + 256 * over;
    let n2 = data[at + 2] + 256 * n3;
    let n1 = data[at + 1] + 256 * n2;
    lemma_written(n, 4, data[at], n1);
    lemma_written(n1, 3, data[at + 1], n2);
    lemma_written(n2, 2, data[at + 2], n3);
    lemma_written(n3, 1, data[at + 3], over);
    assert(written(n, 4) =~= data.subrange(at, at + 4));
}

/// A number is written as the bytes that mean it.
proof fn lemma_word_32(data: Seq<u8>, at: int, n: int)
    requires
        0 <= at,
        at + 4 <= data.len(),
        n == le_u32(data, at),
    ensures
        written(n, 4) == data.subrange(at, at + 4),
{
    lemma_word_over_32(data, at, n, 0);
}

/// A signed number is written as the bytes that mean it.
proof fn lemma_signed_word_32(data: Seq<u8>, at: int, n: int)
    requires
        0 <= at,
        at + 4 <= data.len(),
        n == signed_32(le_u32(data, at)),
    ensures
        written(n, 4) == data.subrange(at, at + 4),
{
    lemma_word_over_32(
        data,
        at,
        n,
        if n < 0 {
            -1
        } else {
            0
        },
    );
}

/// A number is written as the bytes that mean it, whatever stands above them.
proof fn lemma_word_over_64(data: Seq<u8>, at: int, n: int, over: int)
    requires
        0 <= at,
        at + 8 <= data.len(),
        n == le_u64(data, at) + 0x1_0000_0000_0000_0000 * over,
    ensures
        written(n, 8) == data.subrange(at, at + 8),
{
    let high = le_u32(data, at + 4) + 0x1_0000_0000 * over;
    lemma_word_over_32(data, at + 4, high, over);
    let n3 = data[at + 3] + 256 * high;
    let n2 = data[at + 2] + 256 * n3;
    let n1 = data[at + 1] + 256 * n2;
    lemma_written(n, 8, data[at], n1);
    lemma_written(n1, 7, data[at + 1], n2);
    lemma_written(n2, 6, data[at + 2], n3);
    lemma_written(n3, 5, data[at + 3], high);
    assert(written(n, 8) =~= data.subrange(at, at + 8));
}

/// A number is written as the bytes that mean it.
proof fn lemma_word_64(data: Seq<u8>, at: int, n: int)
    requires
        0 <= at,
        at + 8 <= data.len(),
        n == le_u64(data, at),
    ensures
        written(n, 8) == data.subrange(at, at + 8),
{
    lemma_word_over_64(data, at, n, 0);
}

/// A signed number is written as the bytes that mean it.
proof fn lemma_signed_word_64(data: Seq<u8>, at: int, n: int)
    requires
        0 <= at,
        at + 8 <= data.len(),
        n == signed_64(le_u64(data, at)),
    ensures
        written(n, 8) == data.subrange(at, at + 8),
{
    lemma_word_over_64(
        data,
        at,
        n,
        if n < 0 {
            -1
        } else {
            0
        },
    );
}

/// Levels are written as the bytes that lay them out.
proof fn lemma_first_levels(levels: [MakerLevel; 16], data: Seq<u8>, at: int, n: int)
    requires
        0 <= at,
        0 <= n <= 16,
        at + 256 <= data.len(),
        levels_encoded_by(levels, data, at),
    ensures
        levels_written(levels@.take(n)) == data.subrange(at, at + 16 * n),
    decreases n,
{
    let some = levels@.take(n);
    if n == 0 {
        assert(data.subrange(at, at) =~= Seq::empty());
    } else {
        lemma_first_levels(levels, data, at, n - 1);
        assert(some.drop_last() =~= levels@.take(n - 1));
        let from = at + 16 * (n - 1);
        let level = levels[n - 1];
        assert(some.last() == level);
        lemma_word_64(data, from, level.size_in_base_lots as int);
        lemma_signed_word_64(data, from + 8, level.price_offset_ticks as int);
        lemma_meet(data, at, from, from + 8);
        lemma_meet(data, at, from + 8, from + 16);
    }
}

/// One side of a book is written as the bytes that lay it out.
proof fn lemma_levels(levels: [MakerLevel; 16], data: Seq<u8>, at: int)
    requires
        0 <= at,
        at + 256 <= data.len(),
        levels_encoded_by(levels, data, at),
    ensures
        levels_written(levels@) == data.subrange(at, at + 256),
{
    lemma_first_levels(levels, data, at, 16);
    assert(levels@.take(16) =~= levels@);
}

/// Numbers are written as the bytes that mean them.
proof fn lemma_words(words: Seq<u64>, data: Seq<u8>, at: int, n: int)
    requires
        0 <= at,
        0 <= n <= words.len(),
        at + 8 * n <= data.len(),
        forall|i: int| 0 <= i < n ==> #[trigger] words[i] == le_u64(data, at + 8 * i),
    ensures
        words_written(words.take(n)) == data.subrange(at, at + 8 * n),
    decreases n,
{
    let some = words.take(n);
    if n == 0 {
        assert(data.subrange(at, at) =~= Seq::empty());
    } else {
        lemma_words(words, data, at, n - 1);
        assert(some.drop_last() =~= words.take(n - 1));
        let from = at + 8 * (n - 1);
        assert(some.last() == words[n - 1]);
        lemma_word_64(data, from, words[n - 1] as int);
        lemma_meet(data, at, from, from + 8);
    }
}

/// Addresses are written as the bytes that they are.
proof fn lemma_keys(keys: Seq<Pubkey>, data: Seq<u8>, at: int, n: int)
    requires
        0 <= at,
        0 <= n <= keys.len(),
        at + 32 * n <= data.len(),
        forall|i: int|
            0 <= i < n ==> (#[trigger] keys[i]).bytes@ == data.subrange(
                at + 32 * i,
                at + 32 * i + 32,
            ),
    ensures
        keys_written(keys.take(n)) == data.subrange(at, at + 32 * n),
    decreases n,
{
    let some = keys.take(n);
    if n == 0 {
        assert(data.subrange(at, at) =~= Seq::empty());
    } else {
        lemma_keys(keys, data, at, n - 1);
        assert(some.drop_last() =~= keys.take(n - 1));
        let from = at + 32 * (n - 1);
        assert(some.last() == keys[n - 1]);
        lemma_meet(data, at, from, from + 32);
    }
}

/// The bytes of a market header, with a gap before the last field.
pub open spec fn header_written(header: MarketStateHeader, gap: Seq<u8>) -> Seq<u8> {
    header.discriminator@
        + header.market_id.bytes@
        + header.base_mint.bytes@
        + header.quote_mint.bytes@
        + header.base_vault.bytes@
        + header.quote_vault.bytes@
        + header.admin.bytes@
        + written(header.base_atoms_per_base_lot as int, 8)
        + written(header.quote_atoms_per_quote_lot as int, 8)
        + written(header.tick_size_in_quote_atoms_per_base_unit as int, 8)
        + written(header.raw_base_units_per_base_unit as int, 8)
        + written(header.uncollected_fees_quote_lots as int, 8)
        + written(header.collected_fees_quote_lots as int, 8)
        + written(header.maker_fee_ppm as int, 4)
        + written(header.taker_fee_ppm as int, 4)
        + seq![header.base_decimals]
        + seq![header.quote_decimals]
        + seq![header.status]
        + seq![header.mode]
        + seq![header.market_bump]
        + seq![header.sync_fee_multiplier]
        + written(header.min_async_delay_slots as int, 2)
        + written(header.max_async_delay_slots as int, 2)
        + gap
        + written(header._reserved as int, 4)
}

/// A header is laid out by its fields in their order, with a gap of two bytes before
/// the last.
pub proof fn law_header_is_its_fields_in_order(header: MarketStateHeader, data: Seq<u8>)
    requires
        header.encoded_by(data),
        data.len() >= 272,
    ensures
        data.take(272) == header_written(header, data.subrange(266, 268)),
{
    let whole = header_written(header, data.subrange(266, 268));
    let gap = data.subrange(266, 268);
    let s0 = header.discriminator@;
    let s1 = s0 + header.market_id.bytes@;
    lemma_extend(data, 8, 40);
    let s2 = s1 + header.base_mint.bytes@;
    lemma_extend(data, 40, 72);
    let s3 = s2 + header.quote_mint.bytes@;
    lemma_extend(data, 72, 104);
    let s4 = s3 + header.base_vault.bytes@;
    lemma_extend(data, 104, 136);
    let s5 = s4 + header.quote_vault.bytes@;
    lemma_extend(data, 136, 168);
    let s6 = s5 + header.admin.bytes@;
    lemma_extend(data, 168, 200);
    lemma_word_64(data, 200, header.base_atoms_per_base_lot as int);
    let s7 = s6 + written(header.base_atoms_per_base_lot as int, 8);
    lemma_extend(data, 200, 208);
    lemma_word_64(data, 208, header.quote_atoms_per_quote_lot as int);
    let s8 = s7 + written(header.quote_atoms_per_quote_lot as int, 8);
    lemma_extend(data, 208, 216);
    lemma_word_64(data, 216, header.tick_size_in_quote_atoms_per_base_unit as int);
    let s9 = s8 + written(header.tick_size_in_quote_atoms_per_base_unit as int, 8);
    lemma_extend(data, 216, 224);
    lemma_word_64(data, 224, header.raw_base_units_per_base_unit as int);
    let s10 = s9 + written(header.raw_base_units_per_base_unit as int, 8);
    lemma_extend(data, 224, 232);
    lemma_word_64(data, 232, header.uncollected_fees_quote_lots as int);
    let s11 = s10 + written(header.uncollected_fees_quote_lots as int, 8);
    lemma_extend(data, 232, 240);
    lemma_word_64(data, 240, header.collected_fees_quote_lots as int);
    let s12 = s11 + written(header.collected_fees_quote_lots as int, 8);
    lemma_extend(data, 240, 248);
    lemma_signed_word_32(data, 248, header.maker_fee_ppm as int);
    let s13 = s12 + written(header.maker_fee_ppm as int, 4);
    lemma_extend(data, 248, 252);
    lemma_signed_word_32(data, 252, header.taker_fee_ppm as int);
    let s14 = s13 + written(header.taker_fee_ppm as int, 4);
    lemma_extend(data, 252, 256);
    assert(seq![header.base_decimals] =~= data.subrange(256, 257));
    let s15 = s14 + seq![header.base_decimals];
    lemma_extend(data, 256, 257);
    assert(seq![header.quote_decimals] =~= data.subrange(257, 258));
    let s16 = s15 + seq![header.quote_decimals];
    lemma_extend(data, 257, 258);
    assert(seq![header.status] =~= data.subrange(258, 259));
    let s17 = s16 + seq![header.status];
    lemma_extend(data, 258, 259);
    assert(seq![header.mode] =~= data.subrange(259, 260));
    let s18 = s17 + seq![header.mode];
    lemma_extend(data, 259, 260);
    assert(seq![header.market_bump] =~= data.subrange(260, 261));
    let s19 = s18 + seq![header.market_bump];
    lemma_extend(data, 260, 261);
    assert(seq![header.sync_fee_multiplier] =~= data.subrange(261, 262));
    let s20 = s19 + seq![header.sync_fee_multiplier];
    lemma_extend(data, 261, 262);
    lemma_word_16(data, 262, header.min_async_delay_slots as int);
    let s21 = s20 + written(header.min_async_delay_slots as int, 2);
    lemma_extend(data, 262, 264);
    lemma_word_16(data, 264, header.max_async_delay_slots as int);
    let s22 = s21 + written(header.max_async_delay_slots as int, 2);
    lemma_extend(data, 264, 266);
    let s23 = s22 + gap;
    lemma_extend(data, 266, 268);
    lemma_word_32(data, 268, header._reserved as int);
    let s24 = s23 + written(header._reserved as int, 4);
    lemma_extend(data, 268, 272);
    assert(whole == s24);
}

/// The bytes of a maker book.
pub open spec fn book_written(book: MakerBook) -> Seq<u8> {
    book.discriminator@
        + book.maker.bytes@
        + book.market.bytes@
        + book.delegate.bytes@
        + written(book.mid_price_ticks as int, 8)
        + written(book.quote_delta_per_tick as int, 8)
        + written(book.min_mid_price_ticks as int, 8)
        + written(book.quote_locked as int, 8)
        + written(book.quote_free as int, 8)
        + written(book.base_locked as int, 8)
        + written(book.base_free as int, 8)
        + seq![book.status]
        + seq![book.maker_book_bump]
        + written(book.sync_spread_ticks as int, 2)
        + seq![book.kind]
        + book._status_padding@
        + written(book.last_updated_sequence_number as int, 8)
        + written(book.total_bid_base_lots as int, 8)
        + written(book.tick_conversion_num as int, 8)
        + written(book.tick_conversion_den as int, 8)
        + levels_written(book.bid_levels@)
        + levels_written(book.ask_levels@)
        + written(book.last_updated_slot as int, 8)
        + written(book.expiry_in_slots as int, 8)
        + written(book.mid_at_last_sync as int, 8)
        + words_written(book._reserved@)
}

/// A maker book is laid out by its fields in their order, without a gap.
pub proof fn law_book_is_its_fields_in_order(book: MakerBook, data: Seq<u8>)
    requires
        book.encoded_by(data),
        data.len() >= 776,
    ensures
        data.take(776) == book_written(book),
{
    let whole = book_written(book);
    let s0 = book.discriminator@;
    let s1 = s0 + book.maker.bytes@;
    lemma_extend(data, 8, 40);
    let s2 = s1 + book.market.bytes@;
    lemma_extend(data, 40, 72);
    let s3 = s2 + book.delegate.bytes@;
    lemma_extend(data, 72, 104);
    lemma_word_64(data, 104, book.mid_price_ticks as int);
    let s4 = s3 + written(book.mid_price_ticks as int, 8);
    lemma_extend(data, 104, 112);
    lemma_word_64(data, 112, book.quote_delta_per_tick as int);
    let s5 = s4 + written(book.quote_delta_per_tick as int, 8);
    lemma_extend(data, 112, 120);
    lemma_word_64(data, 120, book.min_mid_price_ticks as int);
    let s6 = s5 + written(book.min_mid_price_ticks as int, 8);
    lemma_extend(data, 120, 128);
    lemma_word_64(data, 128, book.quote_locked as int);
    let s7 = s6 + written(book.quote_locked as int, 8);
    lemma_extend(data, 128, 136);
    lemma_word_64(data, 136, book.quote_free as int);
    let s8 = s7 + written(book.quote_free as int, 8);
    lemma_extend(data, 136, 144);
    lemma_word_64(data, 144, book.base_locked as int);
    let s9 = s8 + written(book.base_locked as int, 8);
    lemma_extend(data, 144, 152);
    lemma_word_64(data, 152, book.base_free as int);
    let s10 = s9 + written(book.base_free as int, 8);
    lemma_extend(data, 152, 160);
    assert(seq![book.status] =~= data.subrange(160, 161));
    let s11 = s10 + seq![book.status];
    lemma_extend(data, 160, 161);
    assert(seq![book.maker_book_bump] =~= data.subrange(161, 162));
    let s12 = s11 + seq![book.maker_book_bump];
    lemma_extend(data, 161, 162);
    lemma_word_16(data, 162, book.sync_spread_ticks as int);
    let s13 = s12 + written(book.sync_spread_ticks as int, 2);
    lemma_extend(data, 162, 164);
    assert(seq![book.kind] =~= data.subrange(164, 165));
    let s14 = s13 + seq![book.kind];
    lemma_extend(data, 164, 165);
    let s15 = s14 + book._status_padding@;
    lemma_extend(data, 165, 168);
    lemma_word_64(data, 168, book.last_updated_sequence_number as int);
    let s16 = s15 + written(book.last_updated_sequence_number as int, 8);
    lemma_extend(data, 168, 176);
    lemma_word_64(data, 176, book.total_bid_base_lots as int);
    let s17 = s16 + written(book.total_bid_base_lots as int, 8);
    lemma_extend(data, 176, 184);
    lemma_word_64(data, 184, book.tick_conversion_num as int);
    let s18 = s17 + written(book.tick_conversion_num as int, 8);
    lemma_extend(data, 184, 192);
    lemma_word_64(data, 192, book.tick_conversion_den as int);
    let s19 = s18 + written(book.tick_conversion_den as int, 8);
    lemma_extend(data, 192, 200);
    lemma_levels(book.bid_levels, data, 200);
    let s20 = s19 + levels_written(book.bid_levels@);
    lemma_extend(data, 200, 456);
    lemma_levels(book.ask_levels, data, 456);
    let s21 = s20 + levels_written(book.ask_levels@);
    lemma_extend(data, 456, 712);
    lemma_word_64(data, 712, book.last_updated_slot as int);
    let s22 = s21 + written(book.last_updated_slot as int, 8);
    lemma_extend(data, 712, 720);
    lemma_word_64(data, 720, book.expiry_in_slots as int);
    let s23 = s22 + written(book.expiry_in_slots as int, 8);
    lemma_extend(data, 720, 728);
    lemma_word_64(data, 728, book.mid_at_last_sync as int);
    let s24 = s23 + written(book.mid_at_last_sync as int, 8);
    lemma_extend(data, 728, 736);
    lemma_words(book._reserved@, data, 736, 5);
    assert(book._reserved@.take(5) =~= book._reserved@);
    let s25 = s24 + words_written(book._reserved@);
    lemma_extend(data, 736, 776);
    assert(whole == s25);
}

/// The bytes of a maker registry.
pub open spec fn registry_written(registry: MakerRegistry) -> Seq<u8> {
    registry.discriminator@
        + registry.market.bytes@
        + registry.admin.bytes@
        + seq![registry.num_makers]
        + registry._padding@
        + keys_written(registry.makers@)
}

/// A maker registry is laid out by its fields in their order, without a gap.
pub proof fn law_registry_is_its_fields_in_order(registry: MakerRegistry, data: Seq<u8>)
    requires
        registry.encoded_by(data),
        data.len() >= 2128,
    ensures
        data.take(2128) == registry_written(registry),
{
    let whole = registry_written(registry);
    let s0 = registry.discriminator@;
    let s1 = s0 + registry.market.bytes@;
    lemma_extend(data, 8, 40);
    let s2 = s1 + registry.admin.bytes@;
    lemma_extend(data, 40, 72);
    assert(seq![registry.num_makers] =~= data.subrange(72, 73));
    let s3 = s2 + seq![registry.num_makers];
    lemma_extend(data, 72, 73);
    let s4 = s3 + registry._padding@;
    lemma_extend(data, 73, 80);
    lemma_keys(registry.makers@, data, 80, 64);
    assert(registry.makers@.take(64) =~= registry.makers@);
    let s5 = s4 + keys_written(registry.makers@);
    lemma_extend(data, 80, 2128);
    assert(whole == s5);
}

/// Bytes hold a market exactly where there are enough of them and they begin with
/// `ACHRMKT1`; a maker book, with `ACHRMKR1`; a registry, with `ACHRREG1`. So no
/// bytes hold two of these. What they hold is laid out by them.
pub proof fn law_tags_tell_accounts_apart(data: Seq<u8>)
    ensures
        market_in(data) is Some <==> data.len() >= 272 && data.take(8) == seq![
            65u8,
            67,
            72,
            82,
            77,
            75,
            84,
            49,
        ],
        book_in(data) is Some <==> data.len() >= 776 && data.take(8) == seq![
            65u8,
            67,
            72,
            82,
            77,
            75,
            82,
            49,
        ],
        registry_in(data) is Some <==> data.len() >= 2128 && data.take(8) == seq![
            65u8,
            67,
            72,
            82,
            82,
            69,
            71,
            49,
        ],
        market_in(data) is Some ==> book_in(data) is None && registry_in(data) is None,
        book_in(data) is Some ==> registry_in(data) is None,
        market_header_refusal(data, Ok(())) is None <==> market_in(data) is Some,
        maker_book_refusal(data, Ok(())) is None <==> book_in(data) is Some,
{
    assert(MARKET_DISCRIMINATOR@ =~= seq![65u8, 67, 72, 82, 77, 75, 84, 49]);
    assert(MAKER_BOOK_DISCRIMINATOR@ =~= seq![65u8, 67, 72, 82, 77, 75, 82, 49]);
    assert(REGISTRY_DISCRIMINATOR@ =~= seq![65u8, 67, 72, 82, 82, 69, 71, 49]);
    assert(MARKET_DISCRIMINATOR@[6] != MAKER_BOOK_DISCRIMINATOR@[6]);
    assert(MARKET_DISCRIMINATOR@[4] != REGISTRY_DISCRIMINATOR@[4]);
    assert(MAKER_BOOK_DISCRIMINATOR@[4] != REGISTRY_DISCRIMINATOR@[4]);
}

} // verus!
