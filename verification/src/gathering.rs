//! Which levels a taker meets: every open level of every book that takes part,
//! once, and nothing else.

use vstd::prelude::*;

use crate::ladder::AggregatedLevel;
use crate::pubkey::Pubkey;
use crate::quote::{book_levels, eligible, gathered, has_offer, liquidity, offered, side};
use crate::sdk::required_reserve;
use crate::state::{MakerBook, MakerLevel};

verus! {

/// A level of a book, by its side and its place there.
pub open spec fn level_of(book: MakerBook, bids: bool, i: int) -> MakerLevel {
    if bids {
        book.bid_levels[i]
    } else {
        book.ask_levels[i]
    }
}

/// Whether level `i` of book `m` is there to trade with: the book takes part,
/// the level has a size, and its price is positive and within the signed range.
pub open spec fn tradable(
    books: Seq<(Pubkey, MakerBook)>,
    m: int,
    i: int,
    bids: bool,
    slot: u64,
    taker: Option<&Pubkey>,
    maker_fee_ppm: i32,
) -> bool {
    let book = books[m].1;
    let level = level_of(book, bids, i);
    &&& 0 <= m < books.len()
    &&& 0 <= i < 16
    &&& eligible(book, slot, taker, maker_fee_ppm)
    &&& level.size_in_base_lots > 0
    &&& book.mid_price_ticks <= i64::MAX
    &&& 0 < book.mid_price_ticks + level.price_offset_ticks <= i64::MAX
}

/// Whether a gathered level is level `i` of book `m`.
pub open spec fn taken_from(
    gathered: AggregatedLevel,
    books: Seq<(Pubkey, MakerBook)>,
    m: int,
    i: int,
    bids: bool,
) -> bool {
    let book = books[m].1;
    let level = level_of(book, bids, i);
    &&& gathered.maker_index == m
    &&& gathered.size_base_lots == level.size_in_base_lots
    &&& gathered.price_ticks == book.mid_price_ticks + level.price_offset_ticks
}

/// Whether one place comes before another: by book, and within a book by level.
pub open spec fn earlier(a: (int, int), b: (int, int)) -> bool {
    a.0 < b.0 || (a.0 == b.0 && a.1 < b.1)
}

/// Whether `levels` are the tradable levels at the places `at`, and these are
/// all there are: in order, so each is there once.
pub open spec fn lists_all(
    at: Seq<(int, int)>,
    levels: Seq<AggregatedLevel>,
    books: Seq<(Pubkey, MakerBook)>,
    bids: bool,
    slot: u64,
    taker: Option<&Pubkey>,
    maker_fee_ppm: i32,
) -> bool {
    &&& at.len() == levels.len()
    &&& forall|k: int|
        0 <= k < at.len() ==> {
            &&& tradable(
                books,
                (#[trigger] at[k]).0,
                at[k].1,
                bids,
                slot,
                taker,
                maker_fee_ppm,
            )
            &&& taken_from(levels[k], books, at[k].0, at[k].1, bids)
        }
    &&& forall|k: int, l: int|
        0 <= k < l < at.len() ==> earlier(#[trigger] at[k], #[trigger] at[l])
    &&& forall|m: int, i: int|
        tradable(books, m, i, bids, slot, taker, maker_fee_ppm) ==> #[trigger] at.contains((m, i))
}

/// The places of a book's offered levels.
spec fn book_places(levels: Seq<MakerLevel>, n: int, mid: u64, m: int) -> Seq<(int, int)>
    decreases n,
{
    if n <= 0 {
        Seq::empty()
    } else {
        let before = book_places(levels, n - 1, mid, m);
        if offered(levels[n - 1], mid) {
            before.push((m, n - 1))
        } else {
            before
        }
    }
}

/// The places of everything that the first `n` books offer.
spec fn places(
    books: Seq<(Pubkey, MakerBook)>,
    n: int,
    bids: bool,
    slot: u64,
    taker: Option<&Pubkey>,
    maker_fee_ppm: i32,
) -> Seq<(int, int)>
    decreases n,
{
    if n <= 0 {
        Seq::empty()
    } else {
        let before = places(books, n - 1, bids, slot, taker, maker_fee_ppm);
        let book = books[n - 1].1;
        if eligible(book, slot, taker, maker_fee_ppm) {
            before + book_places(side(book, bids), 16, book.mid_price_ticks, n - 1)
        } else {
            before
        }
    }
}

proof fn lemma_book_places(
    books: Seq<(Pubkey, MakerBook)>,
    m: int,
    n: int,
    bids: bool,
    slot: u64,
    taker: Option<&Pubkey>,
    maker_fee_ppm: i32,
)
    requires
        0 <= m < books.len() <= usize::MAX,
        0 <= n <= 16,
        eligible(books[m].1, slot, taker, maker_fee_ppm),
    ensures
        ({
            let book = books[m].1;
            let levels = book_levels(side(book, bids), n, book.mid_price_ticks, m as usize);
            let at = book_places(side(book, bids), n, book.mid_price_ticks, m);
            &&& at.len() == levels.len()
            &&& forall|k: int|
                0 <= k < at.len() ==> {
                    let (a, i) = #[trigger] at[k];
                    &&& a == m
                    &&& 0 <= i < n
                    &&& tradable(books, m, i, bids, slot, taker, maker_fee_ppm)
                    &&& taken_from(levels[k], books, m, i, bids)
                }
            &&& forall|k: int, l: int|
                0 <= k < l < at.len() ==> earlier(#[trigger] at[k], #[trigger] at[l])
            &&& forall|i: int|
                0 <= i < n && tradable(books, m, i, bids, slot, taker, maker_fee_ppm)
                    ==> #[trigger] at.contains((m, i))
        }),
    decreases n,
{
    if n > 0 {
        lemma_book_places(books, m, n - 1, bids, slot, taker, maker_fee_ppm);
        let book = books[m].1;
        let mid = book.mid_price_ticks;
        let at = book_places(side(book, bids), n, mid, m);
        let before = book_places(side(book, bids), n - 1, mid, m);
        assert(side(book, bids)[n - 1] == level_of(book, bids, n - 1));
        assert forall|i: int|
            0 <= i < n && tradable(books, m, i, bids, slot, taker, maker_fee_ppm) implies
            #[trigger] at.contains((m, i)) by {
            if i < n - 1 {
                assert(before.contains((m, i)));
                let k = choose|k: int| 0 <= k < before.len() && before[k] == (m, i);
                assert(at[k] == (m, i));
            } else {
                assert(at[at.len() - 1] == (m, i));
            }
        }
    }
}

proof fn lemma_places(
    books: Seq<(Pubkey, MakerBook)>,
    n: int,
    bids: bool,
    slot: u64,
    taker: Option<&Pubkey>,
    maker_fee_ppm: i32,
)
    requires
        0 <= n <= books.len() <= usize::MAX,
    ensures
        ({
            let levels = gathered(books, n, bids, slot, taker, maker_fee_ppm);
            let at = places(books, n, bids, slot, taker, maker_fee_ppm);
            &&& at.len() == levels.len()
            &&& forall|k: int|
                0 <= k < at.len() ==> {
                    let (m, i) = #[trigger] at[k];
                    &&& 0 <= m < n
                    &&& tradable(books, m, i, bids, slot, taker, maker_fee_ppm)
                    &&& taken_from(levels[k], books, m, i, bids)
                }
            &&& forall|k: int, l: int|
                0 <= k < l < at.len() ==> earlier(#[trigger] at[k], #[trigger] at[l])
            &&& forall|m: int, i: int|
                m < n && tradable(books, m, i, bids, slot, taker, maker_fee_ppm)
                    ==> #[trigger] at.contains((m, i))
        }),
    decreases n,
{
    if n > 0 {
        lemma_places(books, n - 1, bids, slot, taker, maker_fee_ppm);
        let book = books[n - 1].1;
        let at = places(books, n, bids, slot, taker, maker_fee_ppm);
        let before = places(books, n - 1, bids, slot, taker, maker_fee_ppm);
        let levels = gathered(books, n, bids, slot, taker, maker_fee_ppm);
        let levels_before = gathered(books, n - 1, bids, slot, taker, maker_fee_ppm);
        let own = book_places(side(book, bids), 16, book.mid_price_ticks, n - 1);
        if eligible(book, slot, taker, maker_fee_ppm) {
            lemma_book_places(books, n - 1, 16, bids, slot, taker, maker_fee_ppm);
            assert forall|k: int| 0 <= k < at.len() implies {
                let (m, i) = #[trigger] at[k];
                &&& 0 <= m < n
                &&& tradable(books, m, i, bids, slot, taker, maker_fee_ppm)
                &&& taken_from(levels[k], books, m, i, bids)
            } by {
                if k < before.len() {
                    assert(at[k] == before[k]);
                    assert(levels[k] == levels_before[k]);
                } else {
                    assert(at[k] == own[k - before.len()]);
                }
            }
            assert forall|k: int, l: int| 0 <= k < l < at.len() implies earlier(
                #[trigger] at[k],
                #[trigger] at[l],
            ) by {
                if l < before.len() {
                    assert(at[k] == before[k] && at[l] == before[l]);
                } else if k < before.len() {
                    assert(at[k] == before[k] && at[l] == own[l - before.len()]);
                } else {
                    assert(at[k] == own[k - before.len()] && at[l] == own[l - before.len()]);
                }
            }
        }
        assert forall|m: int, i: int|
            m < n && tradable(books, m, i, bids, slot, taker, maker_fee_ppm) implies
            #[trigger] at.contains((m, i)) by {
            if m < n - 1 {
                assert(before.contains((m, i)));
                let k = choose|k: int| 0 <= k < before.len() && before[k] == (m, i);
                assert(at[k] == (m, i));
            } else {
                assert(own.contains((m, i)));
                let k = choose|k: int| 0 <= k < own.len() && own[k] == (m, i);
                assert(at[before.len() + k] == (m, i));
            }
        }
    }
}

/// The gathered levels are the tradable levels of all books, each exactly once,
/// by book and within a book in the order they stand: none is left out, none is
/// there twice, and none is anything else.
pub proof fn law_every_open_level_is_met(
    books: Seq<(Pubkey, MakerBook)>,
    bids: bool,
    slot: u64,
    taker: Option<&Pubkey>,
    maker_fee_ppm: i32,
)
    requires
        books.len() <= usize::MAX,
    ensures
        exists|at: Seq<(int, int)>| #[trigger]
            lists_all(
                at,
                liquidity(books, bids, slot, taker, maker_fee_ppm),
                books,
                bids,
                slot,
                taker,
                maker_fee_ppm,
            ),
{
    let n = books.len() as int;
    lemma_places(books, n, bids, slot, taker, maker_fee_ppm);
    let at = places(books, n, bids, slot, taker, maker_fee_ppm);
    assert(lists_all(
        at,
        liquidity(books, bids, slot, taker, maker_fee_ppm),
        books,
        bids,
        slot,
        taker,
        maker_fee_ppm,
    ));
}

/// There is something to trade with exactly where some level is tradable.
pub proof fn law_some_open_level_is_an_offer(
    books: Seq<(Pubkey, MakerBook)>,
    bids: bool,
    slot: u64,
    taker: Option<&Pubkey>,
    maker_fee_ppm: i32,
)
    ensures
        has_offer(books, bids, slot, taker, maker_fee_ppm) <==> exists|m: int, i: int| #[trigger]
            tradable(books, m, i, bids, slot, taker, maker_fee_ppm),
{
    if has_offer(books, bids, slot, taker, maker_fee_ppm) {
        let (m, i) = choose|m: int, i: int|
            0 <= m < books.len() && 0 <= i < 16 && eligible(
                books[m].1,
                slot,
                taker,
                maker_fee_ppm,
            ) && offered(#[trigger] side(books[m].1, bids)[i], books[m].1.mid_price_ticks);
        assert(side(books[m].1, bids)[i] == level_of(books[m].1, bids, i));
        assert(tradable(books, m, i, bids, slot, taker, maker_fee_ppm));
    }
    if exists|m: int, i: int| #[trigger]
        tradable(books, m, i, bids, slot, taker, maker_fee_ppm) {
        let (m, i) = choose|m: int, i: int| #[trigger]
            tradable(books, m, i, bids, slot, taker, maker_fee_ppm);
        assert(side(books[m].1, bids)[i] == level_of(books[m].1, bids, i));
        assert(offered(side(books[m].1, bids)[i], books[m].1.mid_price_ticks));
    }
}

/// A book takes part exactly where the taker is neither its maker nor a delegate
/// that is set, its status byte is one, it has been updated within its expiry or
/// has none, and its quote balance is either accurate or covers the reserve.
pub proof fn law_who_takes_part(
    book: MakerBook,
    slot: u64,
    taker: Option<&Pubkey>,
    maker_fee_ppm: i32,
)
    ensures
        eligible(book, slot, taker, maker_fee_ppm) <==> {
            let pairs = Seq::new(
                16,
                |i: int|
                    (book.bid_levels[i].size_in_base_lots, book.bid_levels[i].price_offset_ticks),
            );
            let reserve = required_reserve(
                book.mid_price_ticks,
                book.tick_conversion_num,
                book.tick_conversion_den,
                pairs,
                maker_fee_ppm,
            );
            &&& taker matches Some(key) ==> *key != book.maker && (*key != book.delegate || forall|
                j: int,
            |
                0 <= j < 32 ==> book.delegate.bytes[j] == 0)
            &&& book.status == 1
            &&& book.expiry_in_slots == 0 || slot < book.last_updated_slot + book.expiry_in_slots
            &&& {
                ||| book.mid_at_last_sync == 0
                ||| book.mid_at_last_sync == book.mid_price_ticks
                ||| reserve matches Some(lots) && lots <= book.quote_locked + book.quote_free
                    <= u64::MAX
            }
        },
{
    let pairs = Seq::new(
        16,
        |i: int| (book.bid_levels[i].size_in_base_lots, book.bid_levels[i].price_offset_ticks),
    );
    assert(crate::sdk::level_pairs(book.bid_levels@) =~= pairs);
}

} // verus!
