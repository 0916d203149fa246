//! Accounts of the on-chain program, from their bytes.

use vstd::prelude::*;

use crate::error::{ArcherAmmError, ErrorModel};
use crate::layout::has_tag;
use crate::pubkey::lemma_same_bytes_same_key;
use crate::sdk;
use crate::state::{
    MAKER_BOOK_DISCRIMINATOR, MAKER_BOOK_LEN, MAKER_REGISTRY_LEN, MARKET_DISCRIMINATOR,
    MARKET_HEADER_LEN, MAX_LEVELS, MAX_MAKERS, MakerBook, MakerRegistry, MarketStateHeader,
    REGISTRY_DISCRIMINATOR,
};

verus! {

/// The market header that the bytes hold, if they are those of a market.
pub open spec fn market_in(data: Seq<u8>) -> Option<MarketStateHeader> {
    if data.len() >= MARKET_HEADER_LEN && has_tag(data, MARKET_DISCRIMINATOR) {
        Some(choose|h: MarketStateHeader| h.encoded_by(data))
    } else {
        None
    }
}

/// The maker book that the bytes hold, if they are those of one.
pub open spec fn book_in(data: Seq<u8>) -> Option<MakerBook> {
    if data.len() >= MAKER_BOOK_LEN && has_tag(data, MAKER_BOOK_DISCRIMINATOR) {
        Some(choose|b: MakerBook| b.encoded_by(data))
    } else {
        None
    }
}

/// The registry that the bytes hold, if they are those of one.
pub open spec fn registry_in(data: Seq<u8>) -> Option<MakerRegistry> {
    if data.len() >= MAKER_REGISTRY_LEN && has_tag(data, REGISTRY_DISCRIMINATOR) {
        Some(choose|g: MakerRegistry| g.encoded_by(data))
    } else {
        None
    }
}

/// Bytes hold at most one market header.
pub proof fn law_one_market(data: Seq<u8>, a: MarketStateHeader, b: MarketStateHeader)
    requires
        a.encoded_by(data),
        b.encoded_by(data),
    ensures
        a == b,
{
    assert(a.discriminator =~= b.discriminator);
    lemma_same_bytes_same_key(a.market_id, b.market_id);
    lemma_same_bytes_same_key(a.base_mint, b.base_mint);
    lemma_same_bytes_same_key(a.quote_mint, b.quote_mint);
    lemma_same_bytes_same_key(a.base_vault, b.base_vault);
    lemma_same_bytes_same_key(a.quote_vault, b.quote_vault);
    lemma_same_bytes_same_key(a.admin, b.admin);
}

/// Bytes hold at most one maker book.
pub proof fn law_one_book(data: Seq<u8>, a: MakerBook, b: MakerBook)
    requires
        a.encoded_by(data),
        b.encoded_by(data),
    ensures
        a == b,
{
    assert(a.discriminator =~= b.discriminator);
    lemma_same_bytes_same_key(a.maker, b.maker);
    lemma_same_bytes_same_key(a.market, b.market);
    lemma_same_bytes_same_key(a.delegate, b.delegate);
    assert(a._status_padding =~= b._status_padding);
    assert forall|i: int| 0 <= i < MAX_LEVELS implies a.bid_levels[i] == b.bid_levels[i]
        && a.ask_levels[i] == b.ask_levels[i] by {}
    assert(a.bid_levels =~= b.bid_levels);
    assert(a.ask_levels =~= b.ask_levels);
    assert(a._reserved =~= b._reserved);
}

/// Bytes hold at most one registry.
pub proof fn law_one_registry(data: Seq<u8>, a: MakerRegistry, b: MakerRegistry)
    requires
        a.encoded_by(data),
        b.encoded_by(data),
    ensures
        a == b,
{
    assert(a.discriminator =~= b.discriminator);
    lemma_same_bytes_same_key(a.market, b.market);
    lemma_same_bytes_same_key(a.admin, b.admin);
    assert(a._padding =~= b._padding);
    assert forall|i: int| 0 <= i < MAX_MAKERS implies a.makers[i] == b.makers[i] by {
        lemma_same_bytes_same_key(a.makers[i], b.makers[i]);
    }
    assert(a.makers =~= b.makers);
}

/// Whatever bytes of the right length and tag encode is what is decoded from
/// them.
pub proof fn law_decoding_inverts_encoding(
    data: Seq<u8>,
    market: MarketStateHeader,
    book: MakerBook,
    registry: MakerRegistry,
)
    ensures
        market.encoded_by(data) && market_in(data) is Some ==> market_in(data) == Some(market),
        book.encoded_by(data) && book_in(data) is Some ==> book_in(data) == Some(book),
        registry.encoded_by(data) && registry_in(data) is Some ==> registry_in(data) == Some(
            registry,
        ),
{
    if market.encoded_by(data) && market_in(data) is Some {
        law_one_market(data, market, market_in(data)->0);
    }
    if book.encoded_by(data) && book_in(data) is Some {
        law_one_book(data, book, book_in(data)->0);
    }
    if registry.encoded_by(data) && registry_in(data) is Some {
        law_one_registry(data, registry, registry_in(data)->0);
    }
}

/// A stretch of the front of the bytes is the same stretch of the bytes.
proof fn lemma_front_stretch(data: Seq<u8>, len: int)
    requires
        0 <= len <= data.len(),
    ensures
        forall|from: int, to: int|
            0 <= from <= to <= len ==> #[trigger] data.take(len).subrange(from, to)
                == data.subrange(from, to),
        forall|n: int| 0 <= n <= len ==> #[trigger] data.take(len).take(n) == data.take(n),
{
    assert forall|from: int, to: int| 0 <= from <= to <= len implies #[trigger] data.take(
        len,
    ).subrange(from, to) == data.subrange(from, to) by {
        assert(data.take(len).subrange(from, to) =~= data.subrange(from, to));
    }
    assert forall|n: int| 0 <= n <= len implies #[trigger] data.take(len).take(n) == data.take(
        n,
    ) by {
        assert(data.take(len).take(n) =~= data.take(n));
    }
}

/// Reads a market off bytes that were accepted, or reports why they were not.
pub fn market_header_given(accepted: Result<Vec<u8>, String>) -> (r: Result<MarketStateHeader, ArcherAmmError>)
    requires
        accepted matches Ok(image) ==> image@.len() >= MARKET_HEADER_LEN,
    ensures
        match accepted {
            Ok(image) => r matches Ok(header) && header.encoded_by(image@),
            Err(text) => r matches Err(e) && e@ == ErrorModel::DeserializationFailed(text@),
        },
{
    match accepted {
        Ok(image) => Ok(MarketStateHeader::read(image.as_slice())),
        Err(text) => Err(ArcherAmmError::DeserializationFailed(text)),
    }
}

/// Whether `accepted` is an answer of the program's own market decoder on
/// `data`: the bytes that it accepted, or its refusal.
pub closed spec fn market_answer(data: &[u8], accepted: Result<Vec<u8>, String>) -> bool {
    call_ensures(sdk::accepted_market, (data,), accepted)
}

/// Decodes a market account. Bytes that hold one are refused only where their
/// address does not suit it.
pub fn market_header(data: &[u8]) -> (r: Result<MarketStateHeader, ArcherAmmError>)
    ensures
        match r {
            Ok(header) => market_in(data@) == Some(header) && header.encoded_by(data@),
            Err(e) => e@ == ErrorModel::DeserializationFailed(
                "invalid discriminator: expected ACHRMKT1"@,
            ),
        },
        exists|accepted: Result<Vec<u8>, String>| #[trigger]
            market_answer(data, accepted) && (accepted is Ok <==> r is Ok),
{
    let accepted: Result<Vec<u8>, String> = sdk::accepted_market(data);
    let ghost answer = accepted;
    let r: Result<MarketStateHeader, ArcherAmmError> = market_header_given(accepted);
    assert(market_answer(data, answer));
    assert(r matches Ok(header) ==> market_in(data@) == Some(header) && header.encoded_by(data@)) by {
        if let Ok(header) = r {
            lemma_front_stretch(data@, MARKET_HEADER_LEN as int);
            assert(header.encoded_by(data@));
            law_one_market(data@, header, market_in(data@)->0);
        }
    }
    r
}

/// Reads a maker book off bytes that were accepted, or reports why they were not.
pub fn maker_book_given(accepted: Result<Vec<u8>, String>) -> (r: Result<MakerBook, ArcherAmmError>)
    requires
        accepted matches Ok(image) ==> image@.len() >= MAKER_BOOK_LEN,
    ensures
        match accepted {
            Ok(image) => r matches Ok(book) && book.encoded_by(image@),
            Err(text) => r matches Err(e) && e@ == ErrorModel::DeserializationFailed(text@),
        },
{
    match accepted {
        Ok(image) => Ok(MakerBook::read(image.as_slice())),
        Err(text) => Err(ArcherAmmError::DeserializationFailed(text)),
    }
}

/// Whether `accepted` is an answer of the program's own maker book decoder on
/// `data`: the bytes that it accepted, or its refusal.
pub closed spec fn book_answer(data: &[u8], accepted: Result<Vec<u8>, String>) -> bool {
    call_ensures(sdk::accepted_maker_book, (data,), accepted)
}

/// Decodes a maker book account. Bytes that hold one are refused only where their
/// address does not suit it.
pub fn maker_book(data: &[u8]) -> (r: Result<MakerBook, ArcherAmmError>)
    ensures
        match r {
            Ok(book) => book_in(data@) == Some(book) && book.encoded_by(data@),
            Err(e) => e@ == ErrorModel::DeserializationFailed(
                "invalid discriminator: expected ACHRMKR1"@,
            ),
        },
        exists|accepted: Result<Vec<u8>, String>| #[trigger]
            book_answer(data, accepted) && (accepted is Ok <==> r is Ok),
{
    let accepted: Result<Vec<u8>, String> = sdk::accepted_maker_book(data);
    let ghost answer = accepted;
    let r: Result<MakerBook, ArcherAmmError> = maker_book_given(accepted);
    assert(book_answer(data, answer));
    assert(r matches Ok(book) ==> book_in(data@) == Some(book) && book.encoded_by(data@)) by {
        if let Ok(book) = r {
            lemma_front_stretch(data@, MAKER_BOOK_LEN as int);
            assert(book.encoded_by(data@));
            law_one_book(data@, book, book_in(data@)->0);
        }
    }
    r
}

/// Decodes a registry account. A registry fits at every address.
pub fn registry(data: &[u8]) -> (r: Result<MakerRegistry, ArcherAmmError>)
    ensures
        match r {
            Ok(registry) => registry_in(data@) == Some(registry) && registry.encoded_by(data@),
            Err(e) => registry_in(data@) is None && e@ == ErrorModel::DeserializationFailed(
                "invalid discriminator: expected ACHRREG1"@,
            ),
        },
{
    match sdk::accepted_registry(data) {
        Ok(image) => {
            let registry: MakerRegistry = MakerRegistry::read(image.as_slice());
            proof {
                lemma_front_stretch(data@, MAKER_REGISTRY_LEN as int);
                assert(registry.encoded_by(data@));
                law_one_registry(data@, registry, registry_in(data@)->0);
            }
            Ok(registry)
        },
        Err(text) => Err(ArcherAmmError::DeserializationFailed(text)),
    }
}

} // verus!
