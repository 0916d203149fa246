//! The accounts that the adapter reads: their fields, their byte layout, and
//! the rules that a single account carries.

use vstd::arithmetic::power::{
    lemma_pow0, lemma_pow1, lemma_pow_adds, lemma_pow_increases, lemma_pow_positive, pow,
};
use vstd::prelude::*;
use vstd::slice::slice_subrange;

use crate::error::{ArcherAmmError, ErrorModel, decode_error, math, math_error, outcome};
use crate::layout::{
    has_tag, le_u16, le_u32, le_u64, read_i32, read_i64, read_pubkey, read_tag, read_u16, read_u32,
    read_u64, signed_32, signed_64, starts_with_tag, to_signed_64,
};
use crate::pubkey::Pubkey;
use crate::sdk::words_fit;

verus! {

/// "ACHRMKT1", the tag of a market account.
pub const MARKET_DISCRIMINATOR: [u8; 8] = [65, 67, 72, 82, 77, 75, 84, 49];

/// "ACHRMKR1", the tag of a maker book account.
pub const MAKER_BOOK_DISCRIMINATOR: [u8; 8] = [65, 67, 72, 82, 77, 75, 82, 49];

/// "ACHRREG1", the tag of a maker registry account.
pub const REGISTRY_DISCRIMINATOR: [u8; 8] = [65, 67, 72, 82, 82, 69, 71, 49];

/// One million: fees are in parts of this.
pub const PPM_DIVISOR: u64 = 1_000_000;

pub const MARKET_STATUS_ACTIVE: u8 = 0;

pub const MARKET_MODE_CONTINUOUS: u8 = 0;

pub const MARKET_MODE_ASYNC: u8 = 1;

pub const MARKET_MODE_HYBRID: u8 = 2;

pub const MAKER_STATUS_ACTIVE: u8 = 1;

pub const MAKER_STATUS_SUSPENDED: u8 = 2;

pub const MAKER_KIND_MM: u8 = 0;

pub const MAKER_KIND_LO: u8 = 1;

/// Price levels on each side of a maker book.
pub const MAX_LEVELS: usize = 16;

/// Maker books that a registry has room for.
pub const MAX_MAKERS: usize = 64;

/// Bytes of a market header.
pub const MARKET_HEADER_LEN: usize = 272;

/// Bytes of a maker book.
pub const MAKER_BOOK_LEN: usize = 776;

/// Bytes of a maker registry.
pub const MAKER_REGISTRY_LEN: usize = 2128;

/// The fixed-size head of a market account.
#[derive(Debug, Clone, Copy)]
pub struct MarketStateHeader {
    pub discriminator: [u8; 8],
    pub market_id: Pubkey,
    pub base_mint: Pubkey,
    pub quote_mint: Pubkey,
    pub base_vault: Pubkey,
    pub quote_vault: Pubkey,
    pub admin: Pubkey,
    pub base_atoms_per_base_lot: u64,
    pub quote_atoms_per_quote_lot: u64,
    pub tick_size_in_quote_atoms_per_base_unit: u64,
    pub raw_base_units_per_base_unit: u64,
    pub uncollected_fees_quote_lots: u64,
    pub collected_fees_quote_lots: u64,
    pub maker_fee_ppm: i32,
    pub taker_fee_ppm: i32,
    pub base_decimals: u8,
    pub quote_decimals: u8,
    pub status: u8,
    pub mode: u8,
    pub market_bump: u8,
    pub sync_fee_multiplier: u8,
    pub min_async_delay_slots: u16,
    pub max_async_delay_slots: u16,
    pub _reserved: u32,
}

impl MarketStateHeader {
    /// Whether the first bytes of `data` lay out this header.
    pub open spec fn encoded_by(&self, data: Seq<u8>) -> bool {
        &&& self.discriminator@ == data.take(8)
        &&& self.market_id.bytes@ == data.subrange(8, 40)
        &&& self.base_mint.bytes@ == data.subrange(40, 72)
        &&& self.quote_mint.bytes@ == data.subrange(72, 104)
        &&& self.base_vault.bytes@ == data.subrange(104, 136)
        &&& self.quote_vault.bytes@ == data.subrange(136, 168)
        &&& self.admin.bytes@ == data.subrange(168, 200)
        &&& self.base_atoms_per_base_lot == le_u64(data, 200)
        &&& self.quote_atoms_per_quote_lot == le_u64(data, 208)
        &&& self.tick_size_in_quote_atoms_per_base_unit == le_u64(data, 216)
        &&& self.raw_base_units_per_base_unit == le_u64(data, 224)
        &&& self.uncollected_fees_quote_lots == le_u64(data, 232)
        &&& self.collected_fees_quote_lots == le_u64(data, 240)
        &&& self.maker_fee_ppm == signed_32(le_u32(data, 248))
        &&& self.taker_fee_ppm == signed_32(le_u32(data, 252))
        &&& self.base_decimals == data[256]
        &&& self.quote_decimals == data[257]
        &&& self.status == data[258]
        &&& self.mode == data[259]
        &&& self.market_bump == data[260]
        &&& self.sync_fee_multiplier == data[261]
        &&& self.min_async_delay_slots == le_u16(data, 262)
        &&& self.max_async_delay_slots == le_u16(data, 264)
        &&& self._reserved == le_u32(data, 268)
    }

    /// Reads a header off the front of `data`.
    pub fn read(data: &[u8]) -> (header: MarketStateHeader)
        requires
            data@.len() >= MARKET_HEADER_LEN,
        ensures
            header.encoded_by(data@),
    {
        MarketStateHeader {
            discriminator: read_tag(data),
            market_id: read_pubkey(data, 8),
            base_mint: read_pubkey(data, 40),
            quote_mint: read_pubkey(data, 72),
            base_vault: read_pubkey(data, 104),
            quote_vault: read_pubkey(data, 136),
            admin: read_pubkey(data, 168),
            base_atoms_per_base_lot: read_u64(data, 200),
            quote_atoms_per_quote_lot: read_u64(data, 208),
            tick_size_in_quote_atoms_per_base_unit: read_u64(data, 216),
            raw_base_units_per_base_unit: read_u64(data, 224),
            uncollected_fees_quote_lots: read_u64(data, 232),
            collected_fees_quote_lots: read_u64(data, 240),
            maker_fee_ppm: read_i32(data, 248),
            taker_fee_ppm: read_i32(data, 252),
            base_decimals: data[256],
            quote_decimals: data[257],
            status: data[258],
            mode: data[259],
            market_bump: data[260],
            sync_fee_multiplier: data[261],
            min_async_delay_slots: read_u16(data, 262),
            max_async_delay_slots: read_u16(data, 264),
            _reserved: read_u32(data, 268),
        }
    }

    /// The header whose bytes are all zero.
    pub fn zeroed() -> (header: MarketStateHeader)
        ensures
            header.encoded_by(Seq::new(MARKET_HEADER_LEN as nat, |i: int| 0u8)),
    {
        let data: Vec<u8> = vec![0u8; MARKET_HEADER_LEN];
        assert(data@ =~= Seq::new(MARKET_HEADER_LEN as nat, |i: int| 0u8));
        MarketStateHeader::read(data.as_slice())
    }

    /// Whether the market trades.
    pub fn is_active(&self) -> (r: bool)
        ensures
            r == (self.status == MARKET_STATUS_ACTIVE),
    {
        self.status == MARKET_STATUS_ACTIVE
    }

    /// Whether the market matches both synchronously and asynchronously.
    pub fn is_hybrid(&self) -> (r: bool)
        ensures
            r == (self.mode == MARKET_MODE_HYBRID),
    {
        self.mode == MARKET_MODE_HYBRID
    }

    /// Whether the market matches asynchronously only.
    pub fn is_async_only(&self) -> (r: bool)
        ensures
            r == (self.mode == MARKET_MODE_ASYNC),
    {
        self.mode == MARKET_MODE_ASYNC
    }

    /// The multiplier on the taker fee of synchronous fills: the stored one,
    /// where zero stands for one.
    pub open spec fn sync_multiplier(&self) -> u8 {
        if self.sync_fee_multiplier == 0 {
            1
        } else {
            self.sync_fee_multiplier
        }
    }

    /// The multiplier on the taker fee of synchronous fills.
    pub fn effective_sync_fee_multiplier(&self) -> (r: u8)
        ensures
            r == self.sync_multiplier(),
    {
        if self.sync_fee_multiplier == 0 {
            1
        } else {
            self.sync_fee_multiplier
        }
    }

    /// The taker fee of a synchronous fill: multiplied on a hybrid market, the
    /// plain taker fee on any other. There is none where the product leaves `i32`.
    pub open spec fn sync_fee_outcome(&self) -> Result<i32, ErrorModel> {
        if self.mode != MARKET_MODE_HYBRID {
            Ok(self.taker_fee_ppm)
        } else {
            let fee = self.taker_fee_ppm * self.sync_multiplier();
            if i32::MIN <= fee <= i32::MAX {
                Ok(fee as i32)
            } else {
                math("sync fee overflow")
            }
        }
    }

    /// The taker fee of a synchronous fill.
    pub fn sync_taker_fee_ppm(&self) -> (r: Result<i32, ArcherAmmError>)
        ensures
            outcome(r) == self.sync_fee_outcome(),
    {
        if !self.is_hybrid() {
            return Ok(self.taker_fee_ppm);
        }
        let multiplier: i32 = self.effective_sync_fee_multiplier() as i32;
        match self.taker_fee_ppm.checked_mul(multiplier) {
            Some(fee) => Ok(fee),
            None => Err(math_error("sync fee overflow")),
        }
    }

    /// Ten to the number of base decimals: the atoms of one raw base unit.
    pub open spec fn decimal_power(&self) -> int {
        pow(10, self.base_decimals as nat)
    }

    /// The atoms of one base unit.
    pub open spec fn unit_atoms(&self) -> int {
        self.decimal_power() * self.raw_base_units_per_base_unit
    }

    /// The atoms of one base unit, or why they do not fit.
    pub open spec fn unit_atoms_outcome(&self) -> Result<u128, ErrorModel> {
        if self.decimal_power() > u128::MAX {
            math("pow overflow")
        } else if self.unit_atoms() > u128::MAX {
            math("base unit overflow")
        } else {
            Ok(self.unit_atoms() as u128)
        }
    }

    /// The atoms of one base unit. Fails where they do not fit in `u128`.
    pub fn base_atoms_per_base_unit(&self) -> (r: Result<u128, ArcherAmmError>)
        ensures
            outcome(r) == self.unit_atoms_outcome(),
    {
        proof {
            lemma_pow_positive(10, self.base_decimals as nat);
            assert(self.unit_atoms() >= 0) by (nonlinear_arith)
                requires
                    self.unit_atoms() == self.decimal_power() * self.raw_base_units_per_base_unit,
                    self.decimal_power() > 0,
            ;
        }
        let power: u128 = match power_of_ten(self.base_decimals) {
            Some(p) => p,
            None => {
                return Err(math_error("pow overflow"));
            },
        };
        match power.checked_mul(self.raw_base_units_per_base_unit as u128) {
            Some(atoms) => Ok(atoms),
            None => Err(math_error("base unit overflow")),
        }
    }

    /// What `base_lots` cost at `price_ticks`, as a fraction's numerator over
    /// [`Self::unit_atoms`], in quote atoms.
    pub open spec fn cost_numerator(&self, base_lots: int, price_ticks: int) -> int {
        base_lots * self.base_atoms_per_base_lot * price_ticks
            * self.tick_size_in_quote_atoms_per_base_unit
    }

    /// What `base_lots` are worth at `price_ticks`, in quote atoms rounded
    /// down, or why that has no answer.
    pub open spec fn quote_atoms_outcome(&self, base_lots: u64, price_ticks: u64) -> Result<
        u64,
        ErrorModel,
    > {
        match self.unit_atoms_outcome() {
            Err(e) => Err(e),
            Ok(unit) => {
                if base_lots * self.base_atoms_per_base_lot * price_ticks > u128::MAX {
                    math("overflow")
                } else if self.cost_numerator(base_lots as int, price_ticks as int) > u128::MAX {
                    math("overflow")
                } else if unit == 0 {
                    math("div zero")
                } else {
                    let atoms = self.cost_numerator(base_lots as int, price_ticks as int) / (
                    unit as int);
                    if atoms > u64::MAX {
                        math("quote atoms overflow u64")
                    } else {
                        Ok(atoms as u64)
                    }
                }
            },
        }
    }

    /// What `base_lots` are worth at `price_ticks`, in quote atoms rounded down.
    pub fn base_lots_to_quote_atoms(&self, base_lots: u64, price_ticks: u64) -> (r: Result<
        u64,
        ArcherAmmError,
    >)
        ensures
            outcome(r) == self.quote_atoms_outcome(base_lots, price_ticks),
    {
        proof {
            lemma_u64_product_fits(base_lots, self.base_atoms_per_base_lot);
        }
        let base_atoms: u128 = base_lots as u128 * self.base_atoms_per_base_lot as u128;
        let unit: u128 = match self.base_atoms_per_base_unit() {
            Ok(u) => u,
            Err(e) => {
                return Err(e);
            },
        };
        let priced: u128 = match base_atoms.checked_mul(price_ticks as u128) {
            Some(v) => v,
            None => {
                return Err(math_error("overflow"));
            },
        };
        let numerator: u128 = match priced.checked_mul(
            self.tick_size_in_quote_atoms_per_base_unit as u128,
        ) {
            Some(v) => v,
            None => {
                return Err(math_error("overflow"));
            },
        };
        let quote_atoms: u128 = match numerator.checked_div(unit) {
            Some(v) => v,
            None => {
                return Err(math_error("div zero"));
            },
        };
        if quote_atoms > u64::MAX as u128 {
            return Err(math_error("quote atoms overflow u64"));
        }
        Ok(quote_atoms as u64)
    }
}

/// The product of two `u64` fits in `u128`.
pub proof fn lemma_u64_product_fits(a: u64, b: u64)
    ensures
        0 <= a * b <= 0xffff_ffff_ffff_ffff * 0xffff_ffff_ffff_ffff,
        a * b <= u128::MAX,
{
    assert(0 <= a * b <= 0xffff_ffff_ffff_ffff * 0xffff_ffff_ffff_ffff) by (nonlinear_arith)
        requires
            a <= 0xffff_ffff_ffff_ffff,
            b <= 0xffff_ffff_ffff_ffff,
    ;
}

/// Ten to the power `exponent`, where that fits in `u128`.
pub fn power_of_ten(exponent: u8) -> (r: Option<u128>)
    ensures
        r == (if pow(10, exponent as nat) > u128::MAX {
            None
        } else {
            Some(pow(10, exponent as nat) as u128)
        }),
{
    let mut power: u128 = 1;
    let mut i: u8 = 0;
    proof {
        lemma_pow0(10);
    }
    while i < exponent
        invariant
            i <= exponent,
            power == pow(10, i as nat),
        decreases exponent - i,
    {
        proof {
            lemma_pow_adds(10, i as nat, 1);
            lemma_pow1(10);
            assert(pow(10, (i + 1) as nat) == pow(10, i as nat) * 10);
        }
        match power.checked_mul(10) {
            Some(p) => {
                power = p;
            },
            None => {
                proof {
                    lemma_pow_increases(10, (i + 1) as nat, exponent as nat);
                }
                return None;
            },
        }
        i = i + 1;
    }
    Some(power)
}

/// One resting price level of a maker book.
#[derive(Debug, Clone, Copy)]
pub struct MakerLevel {
    pub size_in_base_lots: u64,
    pub price_offset_ticks: i64,
}

impl MakerLevel {
    /// The level of this size at this distance from the mid price.
    pub fn new(size_in_base_lots: u64, price_offset_ticks: i64) -> (level: MakerLevel)
        ensures
            level.size_in_base_lots == size_in_base_lots,
            level.price_offset_ticks == price_offset_ticks,
    {
        MakerLevel { size_in_base_lots, price_offset_ticks }
    }

    /// Whether the level offers anything.
    pub fn is_active(&self) -> (r: bool)
        ensures
            r == (self.size_in_base_lots > 0),
    {
        self.size_in_base_lots > 0
    }

    /// The price of the level: the mid price, its 64 bits read as a signed
    /// number, plus the offset. There is none where the sum leaves `i64` or is
    /// not positive.
    pub open spec fn price_at(&self, mid_price_ticks: u64) -> Option<u64> {
        let price = signed_64(mid_price_ticks as int) + self.price_offset_ticks;
        if 0 < price <= i64::MAX {
            Some(price as u64)
        } else {
            None
        }
    }

    /// The price of the level.
    pub fn absolute_price(&self, mid_price_ticks: u64) -> (r: Option<u64>)
        ensures
            r == self.price_at(mid_price_ticks),
    {
        match to_signed_64(mid_price_ticks).checked_add(self.price_offset_ticks) {
            Some(price) => {
                if price <= 0 {
                    None
                } else {
                    Some(price as u64)
                }
            },
            None => None,
        }
    }
}

/// What a maker book's status byte says.
#[derive(Debug, Clone, Copy, PartialEq, Eq, Structural)]
pub enum MakerBookStatus {
    Active,
    Suspended,
}

/// One maker's resting orders and balances on one market.
#[derive(Debug, Clone, Copy)]
pub struct MakerBook {
    pub discriminator: [u8; 8],
    pub maker: Pubkey,
    pub market: Pubkey,
    pub delegate: Pubkey,
    pub mid_price_ticks: u64,
    pub quote_delta_per_tick: u64,
    pub min_mid_price_ticks: u64,
    pub quote_locked: u64,
    pub quote_free: u64,
    pub base_locked: u64,
    pub base_free: u64,
    pub status: u8,
    pub maker_book_bump: u8,
    pub sync_spread_ticks: u16,
    pub kind: u8,
    pub _status_padding: [u8; 3],
    pub last_updated_sequence_number: u64,
    pub total_bid_base_lots: u64,
    pub tick_conversion_num: u64,
    pub tick_conversion_den: u64,
    pub bid_levels: [MakerLevel; MAX_LEVELS],
    pub ask_levels: [MakerLevel; MAX_LEVELS],
    pub last_updated_slot: u64,
    pub expiry_in_slots: u64,
    /// The mid price at which the quote balances were last brought up to date;
    /// zero where they already are.
    pub mid_at_last_sync: u64,
    pub _reserved: [u64; 5],
}

/// Whether the bytes from `at` on lay out these levels.
pub open spec fn levels_encoded_by(levels: [MakerLevel; MAX_LEVELS], data: Seq<u8>, at: int) -> bool {
    forall|i: int|
        0 <= i < MAX_LEVELS ==> {
            &&& (#[trigger] levels[i]).size_in_base_lots == le_u64(data, at + 16 * i)
            &&& levels[i].price_offset_ticks == signed_64(le_u64(data, at + 16 * i + 8))
        }
}

/// Reads one side of a maker book.
pub fn read_levels(data: &[u8], at: usize) -> (levels: [MakerLevel; MAX_LEVELS])
    requires
        at + 256 <= data.len(),
    ensures
        levels_encoded_by(levels, data@, at as int),
{
    let mut levels: [MakerLevel; MAX_LEVELS] = [MakerLevel {
        size_in_base_lots: 0,
        price_offset_ticks: 0,
    }; MAX_LEVELS];
    let mut i: usize = 0;
    while i < MAX_LEVELS
        invariant
            i <= MAX_LEVELS,
            at + 256 <= data.len(),
            forall|j: int|
                0 <= j < i ==> {
                    &&& (#[trigger] levels[j]).size_in_base_lots == le_u64(data@, at + 16 * j)
                    &&& levels[j].price_offset_ticks == signed_64(le_u64(data@, at + 16 * j + 8))
                },
        decreases MAX_LEVELS - i,
    {
        levels[i] = MakerLevel {
            size_in_base_lots: read_u64(data, at + 16 * i),
            price_offset_ticks: read_i64(data, at + 16 * i + 8),
        };
        i = i + 1;
    }
    levels
}

impl MakerBook {
    /// Whether the first bytes of `data` lay out this book.
    pub open spec fn encoded_by(&self, data: Seq<u8>) -> bool {
        &&& self.discriminator@ == data.take(8)
        &&& self.maker.bytes@ == data.subrange(8, 40)
        &&& self.market.bytes@ == data.subrange(40, 72)
        &&& self.delegate.bytes@ == data.subrange(72, 104)
        &&& self.mid_price_ticks == le_u64(data, 104)
        &&& self.quote_delta_per_tick == le_u64(data, 112)
        &&& self.min_mid_price_ticks == le_u64(data, 120)
        &&& self.quote_locked == le_u64(data, 128)
        &&& self.quote_free == le_u64(data, 136)
        &&& self.base_locked == le_u64(data, 144)
        &&& self.base_free == le_u64(data, 152)
        &&& self.status == data[160]
        &&& self.maker_book_bump == data[161]
        &&& self.sync_spread_ticks == le_u16(data, 162)
        &&& self.kind == data[164]
        &&& self._status_padding@ == data.subrange(165, 168)
        &&& self.last_updated_sequence_number == le_u64(data, 168)
        &&& self.total_bid_base_lots == le_u64(data, 176)
        &&& self.tick_conversion_num == le_u64(data, 184)
        &&& self.tick_conversion_den == le_u64(data, 192)
        &&& levels_encoded_by(self.bid_levels, data, 200)
        &&& levels_encoded_by(self.ask_levels, data, 456)
        &&& self.last_updated_slot == le_u64(data, 712)
        &&& self.expiry_in_slots == le_u64(data, 720)
        &&& self.mid_at_last_sync == le_u64(data, 728)
        &&& forall|i: int| 0 <= i < 5 ==> self._reserved[i] == le_u64(data, 736 + 8 * i)
    }

    /// Reads a book off the front of `data`.
    pub fn read(data: &[u8]) -> (book: MakerBook)
        requires
            data@.len() >= MAKER_BOOK_LEN,
        ensures
            book.encoded_by(data@),
    {
        let padding: [u8; 3] = [data[165], data[166], data[167]];
        assert(padding@ =~= data@.subrange(165, 168));
        MakerBook {
            discriminator: read_tag(data),
            maker: read_pubkey(data, 8),
            market: read_pubkey(data, 40),
            delegate: read_pubkey(data, 72),
            mid_price_ticks: read_u64(data, 104),
            quote_delta_per_tick: read_u64(data, 112),
            min_mid_price_ticks: read_u64(data, 120),
            quote_locked: read_u64(data, 128),
            quote_free: read_u64(data, 136),
            base_locked: read_u64(data, 144),
            base_free: read_u64(data, 152),
            status: data[160],
            maker_book_bump: data[161],
            sync_spread_ticks: read_u16(data, 162),
            kind: data[164],
            _status_padding: padding,
            last_updated_sequence_number: read_u64(data, 168),
            total_bid_base_lots: read_u64(data, 176),
            tick_conversion_num: read_u64(data, 184),
            tick_conversion_den: read_u64(data, 192),
            bid_levels: read_levels(data, 200),
            ask_levels: read_levels(data, 456),
            last_updated_slot: read_u64(data, 712),
            expiry_in_slots: read_u64(data, 720),
            mid_at_last_sync: read_u64(data, 728),
            _reserved: [
                read_u64(data, 736),
                read_u64(data, 744),
                read_u64(data, 752),
                read_u64(data, 760),
                read_u64(data, 768),
            ],
        }
    }

    /// The book whose bytes are all zero.
    pub fn zeroed() -> (book: MakerBook)
        ensures
            book.encoded_by(Seq::new(MAKER_BOOK_LEN as nat, |i: int| 0u8)),
    {
        let data: Vec<u8> = vec![0u8; MAKER_BOOK_LEN];
        assert(data@ =~= Seq::new(MAKER_BOOK_LEN as nat, |i: int| 0u8));
        MakerBook::read(data.as_slice())
    }

    /// Whether the maker is trading.
    pub fn is_active(&self) -> (r: bool)
        ensures
            r == (self.status == MAKER_STATUS_ACTIVE),
    {
        self.status == MAKER_STATUS_ACTIVE
    }

    /// Whether the levels are limit orders rather than quotes around a mid.
    pub fn is_limit_order(&self) -> (r: bool)
        ensures
            r == (self.kind == MAKER_KIND_LO),
    {
        self.kind == MAKER_KIND_LO
    }

    /// Whether the book has gone without an update for its expiry, counted in
    /// slots. An expiry of zero never comes.
    pub open spec fn stale_at(&self, slot: u64) -> bool {
        self.expiry_in_slots > 0 && slot - self.last_updated_slot >= self.expiry_in_slots
    }

    /// Whether the book has expired at `current_slot`.
    pub fn is_stale(&self, current_slot: u64) -> (r: bool)
        ensures
            r == self.stale_at(current_slot),
    {
        self.expiry_in_slots > 0 && current_slot.saturating_sub(self.last_updated_slot)
            >= self.expiry_in_slots
    }

    /// What the status byte says; bytes other than one and two say nothing.
    pub open spec fn status_model(&self) -> Option<MakerBookStatus> {
        if self.status == MAKER_STATUS_ACTIVE {
            Some(MakerBookStatus::Active)
        } else if self.status == MAKER_STATUS_SUSPENDED {
            Some(MakerBookStatus::Suspended)
        } else {
            None
        }
    }

    /// What the status byte says.
    pub fn get_status(&self) -> (r: Option<MakerBookStatus>)
        ensures
            r == self.status_model(),
    {
        if self.status == MAKER_STATUS_ACTIVE {
            Some(MakerBookStatus::Active)
        } else if self.status == MAKER_STATUS_SUSPENDED {
            Some(MakerBookStatus::Suspended)
        } else {
            None
        }
    }

    /// Whether `signer` is the maker, or the delegate where there is one.
    pub open spec fn authorizes(&self, signer: Pubkey) -> bool {
        self.maker == signer || (self.delegate == signer && !self.delegate.is_unset())
    }

    /// Whether `signer` may act for this book.
    pub fn is_authorized(&self, signer: &Pubkey) -> (r: bool)
        ensures
            r == self.authorizes(*signer),
    {
        let unset: Pubkey = Pubkey::default();
        proof {
            if self.delegate.is_unset() {
                assert(self.delegate.bytes =~= unset.bytes);
            }
        }
        self.maker == *signer || (self.delegate != unset && self.delegate == *signer)
    }
}

/// The maker books of one market.
#[derive(Debug, Clone, Copy)]
pub struct MakerRegistry {
    pub discriminator: [u8; 8],
    pub market: Pubkey,
    pub admin: Pubkey,
    pub num_makers: u8,
    pub _padding: [u8; 7],
    pub makers: [Pubkey; MAX_MAKERS],
}

/// Reads the maker addresses of a registry.
pub fn read_makers(data: &[u8]) -> (makers: [Pubkey; MAX_MAKERS])
    requires
        data@.len() >= MAKER_REGISTRY_LEN,
    ensures
        forall|i: int|
            0 <= i < MAX_MAKERS ==> (#[trigger] makers[i]).bytes@ == data@.subrange(
                80 + 32 * i,
                112 + 32 * i,
            ),
{
    let mut makers: [Pubkey; MAX_MAKERS] = [Pubkey { bytes: [0u8; 32] }; MAX_MAKERS];
    let mut i: usize = 0;
    while i < MAX_MAKERS
        invariant
            i <= MAX_MAKERS,
            data@.len() >= MAKER_REGISTRY_LEN,
            forall|j: int|
                0 <= j < i ==> (#[trigger] makers[j]).bytes@ == data@.subrange(
                    80 + 32 * j,
                    112 + 32 * j,
                ),
        decreases MAX_MAKERS - i,
    {
        makers[i] = read_pubkey(data, 80 + 32 * i);
        i = i + 1;
    }
    makers
}

impl MakerRegistry {
    /// Whether the first bytes of `data` lay out this registry.
    pub open spec fn encoded_by(&self, data: Seq<u8>) -> bool {
        &&& self.discriminator@ == data.take(8)
        &&& self.market.bytes@ == data.subrange(8, 40)
        &&& self.admin.bytes@ == data.subrange(40, 72)
        &&& self.num_makers == data[72]
        &&& self._padding@ == data.subrange(73, 80)
        &&& forall|i: int|
            0 <= i < MAX_MAKERS ==> (#[trigger] self.makers[i]).bytes@ == data.subrange(
                80 + 32 * i,
                112 + 32 * i,
            )
    }

    /// Reads a registry off the front of `data`.
    pub fn read(data: &[u8]) -> (registry: MakerRegistry)
        requires
            data@.len() >= MAKER_REGISTRY_LEN,
        ensures
            registry.encoded_by(data@),
    {
        let padding: [u8; 7] = [
            data[73],
            data[74],
            data[75],
            data[76],
            data[77],
            data[78],
            data[79],
        ];
        assert(padding@ =~= data@.subrange(73, 80));
        MakerRegistry {
            discriminator: read_tag(data),
            market: read_pubkey(data, 8),
            admin: read_pubkey(data, 40),
            num_makers: data[72],
            _padding: padding,
            makers: read_makers(data),
        }
    }

    /// How many of the slots are in use: the stored count, at most all of them.
    pub open spec fn seated(&self) -> int {
        if self.num_makers < MAX_MAKERS {
            self.num_makers as int
        } else {
            MAX_MAKERS as int
        }
    }
}

/// The outcome of laying a type over bytes, with the text of its error as
/// characters.
pub open spec fn cast_model(cast: Result<(), String>) -> Result<(), Seq<char>> {
    match cast {
        Ok(_) => Ok(()),
        Err(text) => Err(text@),
    }
}

/// Whether `cast` is an answer to the question whether words can be read where
/// some bytes `front` lie.
pub closed spec fn cast_answer(front: Seq<u8>, cast: Result<(), String>) -> bool {
    exists|bytes: &[u8]| bytes@ == front && #[trigger] call_ensures(words_fit, (bytes,), cast)
}

/// Why bytes are refused as a market header, given whether one can be laid over
/// them where they lie; nothing where they are not.
pub open spec fn market_header_refusal(data: Seq<u8>, cast: Result<(), Seq<char>>) -> Option<
    Seq<char>,
> {
    if data.len() < MARKET_HEADER_LEN {
        Some("Market data too short"@)
    } else if !has_tag(data, MARKET_DISCRIMINATOR) {
        Some("Invalid market discriminator"@)
    } else {
        match cast {
            Ok(_) => None,
            Err(text) => Some("Market: "@ + text),
        }
    }
}

/// Decodes a market header, given whether one can be laid over the bytes where they
/// lie.
pub fn market_header_given(data: &[u8], cast: Result<(), String>) -> (r: Result<
    MarketStateHeader,
    ArcherAmmError,
>)
    ensures
        match r {
            Ok(header) => {
                &&& market_header_refusal(data@, cast_model(cast)) is None
                &&& header.encoded_by(data@)
            },
            Err(e) => {
                &&& market_header_refusal(data@, cast_model(cast)) matches Some(text)
                &&& e@ == ErrorModel::DeserializationFailed(text)
            },
        },
{
    if data.len() < MARKET_HEADER_LEN {
        return Err(decode_error("Market data too short"));
    }
    if !starts_with_tag(data, MARKET_DISCRIMINATOR) {
        return Err(decode_error("Invalid market discriminator"));
    }
    match cast {
        Ok(_) => Ok(MarketStateHeader::read(data)),
        Err(text) => Err(
            ArcherAmmError::DeserializationFailed("Market: ".to_string().concat(text.as_str())),
        ),
    }
}

/// Decodes a market header. Bytes of the right length and tag are refused only where
/// their address does not suit one.
pub fn deserialize_market_header(data: &[u8]) -> (r: Result<MarketStateHeader, ArcherAmmError>)
    ensures
        match r {
            Ok(header) => {
                &&& data@.len() >= MARKET_HEADER_LEN
                &&& has_tag(data@, MARKET_DISCRIMINATOR)
                &&& header.encoded_by(data@)
            },
            Err(e) => {
                &&& market_header_refusal(
                    data@,
                    Err("TargetAlignmentGreaterAndInputNotAligned"@),
                ) matches Some(text)
                &&& e@ == ErrorModel::DeserializationFailed(text)
            },
        },
        data@.len() >= MARKET_HEADER_LEN ==> exists|cast: Result<(), String>| #[trigger]
            cast_answer(data@.take(MARKET_HEADER_LEN as int), cast) && match market_header_refusal(
                data@,
                cast_model(cast),
            ) {
                Some(text) => r matches Err(e) && e@ == ErrorModel::DeserializationFailed(text),
                None => r is Ok,
            },
{
    if data.len() < MARKET_HEADER_LEN {
        return market_header_given(data, Ok(()));
    }
    let front: &[u8] = slice_subrange(data, 0, MARKET_HEADER_LEN);
    let cast: Result<(), String> = words_fit(front);
    proof {
        assert(front@ =~= data@.take(MARKET_HEADER_LEN as int));
        assert(cast_answer(data@.take(MARKET_HEADER_LEN as int), cast));
    }
    market_header_given(data, cast)
}

/// Why bytes are refused as a maker book, given whether one can be laid over
/// them where they lie; nothing where they are not.
pub open spec fn maker_book_refusal(data: Seq<u8>, cast: Result<(), Seq<char>>) -> Option<
    Seq<char>,
> {
    if data.len() < MAKER_BOOK_LEN {
        Some("MakerBook data too short"@)
    } else if !has_tag(data, MAKER_BOOK_DISCRIMINATOR) {
        Some("Invalid maker book discriminator"@)
    } else {
        match cast {
            Ok(_) => None,
            Err(text) => Some("MakerBook: "@ + text),
        }
    }
}

/// Decodes a maker book, given whether one can be laid over the bytes where they
/// lie.
pub fn maker_book_given(data: &[u8], cast: Result<(), String>) -> (r: Result<
    MakerBook,
    ArcherAmmError,
>)
    ensures
        match r {
            Ok(book) => {
                &&& maker_book_refusal(data@, cast_model(cast)) is None
                &&& book.encoded_by(data@)
            },
            Err(e) => {
                &&& maker_book_refusal(data@, cast_model(cast)) matches Some(text)
                &&& e@ == ErrorModel::DeserializationFailed(text)
            },
        },
{
    if data.len() < MAKER_BOOK_LEN {
        return Err(decode_error("MakerBook data too short"));
    }
    if !starts_with_tag(data, MAKER_BOOK_DISCRIMINATOR) {
        return Err(decode_error("Invalid maker book discriminator"));
    }
    match cast {
        Ok(_) => Ok(MakerBook::read(data)),
        Err(text) => Err(
            ArcherAmmError::DeserializationFailed("MakerBook: ".to_string().concat(text.as_str())),
        ),
    }
}

/// Decodes a maker book. Bytes of the right length and tag are refused only where
/// their address does not suit one.
pub fn deserialize_maker_book(data: &[u8]) -> (r: Result<MakerBook, ArcherAmmError>)
    ensures
        match r {
            Ok(book) => {
                &&& data@.len() >= MAKER_BOOK_LEN
                &&& has_tag(data@, MAKER_BOOK_DISCRIMINATOR)
                &&& book.encoded_by(data@)
            },
            Err(e) => {
                &&& maker_book_refusal(
                    data@,
                    Err("TargetAlignmentGreaterAndInputNotAligned"@),
                ) matches Some(text)
                &&& e@ == ErrorModel::DeserializationFailed(text)
            },
        },
        data@.len() >= MAKER_BOOK_LEN ==> exists|cast: Result<(), String>| #[trigger]
            cast_answer(data@.take(MAKER_BOOK_LEN as int), cast) && match maker_book_refusal(
                data@,
                cast_model(cast),
            ) {
                Some(text) => r matches Err(e) && e@ == ErrorModel::DeserializationFailed(text),
                None => r is Ok,
            },
{
    if data.len() < MAKER_BOOK_LEN {
        return maker_book_given(data, Ok(()));
    }
    let front: &[u8] = slice_subrange(data, 0, MAKER_BOOK_LEN);
    let cast: Result<(), String> = words_fit(front);
    proof {
        assert(front@ =~= data@.take(MAKER_BOOK_LEN as int));
        assert(cast_answer(data@.take(MAKER_BOOK_LEN as int), cast));
    }
    maker_book_given(data, cast)
}

/// Decodes a maker registry, which fits at every address.
pub fn deserialize_registry(data: &[u8]) -> (r: Result<MakerRegistry, ArcherAmmError>)
    ensures
        match r {
            Ok(registry) => {
                &&& data@.len() >= MAKER_REGISTRY_LEN
                &&& has_tag(data@, REGISTRY_DISCRIMINATOR)
                &&& registry.encoded_by(data@)
            },
            Err(e) => e@ == ErrorModel::DeserializationFailed(
                if data@.len() < MAKER_REGISTRY_LEN {
                    "Registry data too short"@
                } else {
                    "Invalid registry discriminator"@
                },
            ) && !(data@.len() >= MAKER_REGISTRY_LEN && has_tag(data@, REGISTRY_DISCRIMINATOR)),
        },
{
    if data.len() < MAKER_REGISTRY_LEN {
        return Err(decode_error("Registry data too short"));
    }
    if !starts_with_tag(data, REGISTRY_DISCRIMINATOR) {
        return Err(decode_error("Invalid registry discriminator"));
    }
    Ok(MakerRegistry::read(data))
}

} // verus!
