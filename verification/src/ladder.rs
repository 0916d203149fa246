//! Price levels gathered from many books, and the order in which a taker meets
//! them: best price first, and at one price in the order they were gathered.

use vstd::prelude::*;

verus! {

/// One price level of one maker.
#[derive(Debug, Clone, Copy, PartialEq, Eq, Structural)]
pub struct AggregatedLevel {
    pub price_ticks: u64,
    pub size_base_lots: u64,
    pub maker_index: usize,
}

/// The levels at one price, in the order they stand.
pub open spec fn at_price(levels: Seq<AggregatedLevel>, price: u64) -> Seq<AggregatedLevel> {
    levels.filter(|l: AggregatedLevel| l.price_ticks == price)
}

/// The levels at every other price, in the order they stand.
pub open spec fn off_price(levels: Seq<AggregatedLevel>, price: u64) -> Seq<AggregatedLevel> {
    levels.filter(|l: AggregatedLevel| l.price_ticks != price)
}

/// Whether a taker prefers price `a` to price `b`: the higher of two bids, the
/// lower of two asks.
pub open spec fn better(a: u64, b: u64, bids: bool) -> bool {
    if bids {
        a > b
    } else {
        a < b
    }
}

/// The price that a taker meets first.
pub open spec fn best_price(levels: Seq<AggregatedLevel>, bids: bool) -> u64
    recommends
        levels.len() > 0,
    decreases levels.len(),
{
    if levels.len() <= 1 {
        levels[0].price_ticks
    } else {
        let rest = best_price(levels.drop_last(), bids);
        if better(levels.last().price_ticks, rest, bids) {
            levels.last().price_ticks
        } else {
            rest
        }
    }
}

/// The sizes of levels.
pub open spec fn sizes(levels: Seq<AggregatedLevel>) -> Seq<u64> {
    levels.map_values(|l: AggregatedLevel| l.size_base_lots)
}

/// Whether no level stands after one that a taker would rather meet later.
pub open spec fn in_order(levels: Seq<AggregatedLevel>, bids: bool) -> bool {
    forall|i: int, j: int|
        0 <= i <= j < levels.len() ==> !better(
            (#[trigger] levels[j]).price_ticks,
            (#[trigger] levels[i]).price_ticks,
            bids,
        )
}

/// Whether the two hold the same levels, in the same order at each price.
pub open spec fn same_by_price(a: Seq<AggregatedLevel>, b: Seq<AggregatedLevel>) -> bool {
    forall|p: u64| #[trigger] at_price(a, p) == at_price(b, p)
}

/// The best price is the price of some level, and no level has a better one.
pub proof fn lemma_best_price(levels: Seq<AggregatedLevel>, bids: bool)
    requires
        levels.len() > 0,
    ensures
        exists|i: int|
            0 <= i < levels.len() && (#[trigger] levels[i]).price_ticks == best_price(levels, bids),
        forall|i: int|
            0 <= i < levels.len() ==> !better(
                (#[trigger] levels[i]).price_ticks,
                best_price(levels, bids),
                bids,
            ),
    decreases levels.len(),
{
    if levels.len() > 1 {
        let front = levels.drop_last();
        lemma_best_price(front, bids);
        let k = choose|i: int|
            0 <= i < front.len() && (#[trigger] front[i]).price_ticks == best_price(front, bids);
        assert(levels[k] == front[k]);
        assert(levels[levels.len() - 1] == levels.last());
        assert forall|i: int| 0 <= i < levels.len() implies !better(
            (#[trigger] levels[i]).price_ticks,
            best_price(levels, bids),
            bids,
        ) by {
            if i < front.len() {
                assert(levels[i] == front[i]);
            }
        }
    } else {
        assert(levels[0].price_ticks == best_price(levels, bids));
    }
}

/// How one more level changes the levels at a price and off it.
pub proof fn lemma_push_level(levels: Seq<AggregatedLevel>, l: AggregatedLevel, p: u64)
    ensures
        at_price(levels.push(l), p) == (if l.price_ticks == p {
            at_price(levels, p).push(l)
        } else {
            at_price(levels, p)
        }),
        off_price(levels.push(l), p) == (if l.price_ticks != p {
            off_price(levels, p).push(l)
        } else {
            off_price(levels, p)
        }),
{
    reveal(Seq::filter);
    assert(levels.push(l).drop_last() =~= levels);
}

/// Taking the levels at a price, or off it, spreads over concatenation.
pub proof fn lemma_concat_levels(a: Seq<AggregatedLevel>, b: Seq<AggregatedLevel>, p: u64)
    ensures
        at_price(a + b, p) == at_price(a, p) + at_price(b, p),
        off_price(a + b, p) == off_price(a, p) + off_price(b, p),
    decreases b.len(),
{
    if b.len() == 0 {
        assert(a + b =~= a);
        reveal(Seq::filter);
        assert(at_price(b, p) =~= Seq::empty());
        assert(off_price(b, p) =~= Seq::empty());
        assert(at_price(a, p) + at_price(b, p) =~= at_price(a, p));
        assert(off_price(a, p) + off_price(b, p) =~= off_price(a, p));
    } else {
        let front = b.drop_last();
        let l = b.last();
        lemma_concat_levels(a, front, p);
        lemma_push_level(a + front, l, p);
        lemma_push_level(front, l, p);
        assert((a + front).push(l) =~= a + b);
        assert(front.push(l) =~= b);
        assert(at_price(a + b, p) =~= at_price(a, p) + at_price(b, p));
        assert(off_price(a + b, p) =~= off_price(a, p) + off_price(b, p));
    }
}

/// Levels that are all at one price are all of the levels at it, and none at
/// any other.
pub proof fn lemma_uniform_levels(levels: Seq<AggregatedLevel>, price: u64, p: u64)
    requires
        forall|i: int| 0 <= i < levels.len() ==> (#[trigger] levels[i]).price_ticks == price,
    ensures
        at_price(levels, p) == (if p == price {
            levels
        } else {
            Seq::empty()
        }),
        off_price(levels, p) == (if p != price {
            levels
        } else {
            Seq::empty()
        }),
    decreases levels.len(),
{
    reveal(Seq::filter);
    if levels.len() == 0 {
        assert(at_price(levels, p) =~= Seq::empty());
        assert(off_price(levels, p) =~= Seq::empty());
        assert(levels =~= Seq::empty());
    } else {
        let front = levels.drop_last();
        assert forall|i: int| 0 <= i < front.len() implies (#[trigger] front[i]).price_ticks
            == price by {
            assert(front[i] == levels[i]);
        }
        lemma_uniform_levels(front, price, p);
        lemma_push_level(front, levels.last(), p);
        assert(levels[levels.len() - 1] == levels.last());
        assert(front.push(levels.last()) =~= levels);
    }
}

/// Levels none of which is at `price` have none at it.
pub proof fn lemma_absent_price(levels: Seq<AggregatedLevel>, price: u64)
    requires
        forall|i: int| 0 <= i < levels.len() ==> (#[trigger] levels[i]).price_ticks != price,
    ensures
        at_price(levels, price) == Seq::<AggregatedLevel>::empty(),
        off_price(levels, price) == levels,
    decreases levels.len(),
{
    reveal(Seq::filter);
    if levels.len() == 0 {
        assert(at_price(levels, price) =~= Seq::empty());
        assert(off_price(levels, price) =~= levels);
    } else {
        let front = levels.drop_last();
        assert forall|i: int| 0 <= i < front.len() implies (#[trigger] front[i]).price_ticks
            != price by {
            assert(front[i] == levels[i]);
        }
        lemma_absent_price(front, price);
        assert(levels[levels.len() - 1] == levels.last());
        lemma_push_level(front, levels.last(), price);
        assert(front.push(levels.last()) =~= levels);
    }
}

/// Every level of a sequence stands among the levels at its own price, and
/// every level there is one of the sequence's.
pub proof fn lemma_at_price_members(levels: Seq<AggregatedLevel>, p: u64)
    ensures
        forall|i: int|
            0 <= i < at_price(levels, p).len() ==> (#[trigger] at_price(levels, p)[i]).price_ticks
                == p,
        at_price(levels, p).len() > 0 <==> exists|i: int|
            0 <= i < levels.len() && (#[trigger] levels[i]).price_ticks == p,
        at_price(levels, p).len() + off_price(levels, p).len() == levels.len(),
    decreases levels.len(),
{
    reveal(Seq::filter);
    if levels.len() > 0 {
        let front = levels.drop_last();
        let l = levels.last();
        lemma_at_price_members(front, p);
        lemma_push_level(front, l, p);
        assert(front.push(l) =~= levels);
        if l.price_ticks == p {
            assert(levels[levels.len() - 1].price_ticks == p);
        } else {
            if at_price(front, p).len() > 0 {
                let k = choose|i: int|
                    0 <= i < front.len() && (#[trigger] front[i]).price_ticks == p;
                assert(levels[k] == front[k]);
            }
            if exists|i: int| 0 <= i < levels.len() && (#[trigger] levels[i]).price_ticks == p {
                let k = choose|i: int|
                    0 <= i < levels.len() && (#[trigger] levels[i]).price_ticks == p;
                assert(front[k] == levels[k]);
            }
        }
    }
}

/// Taking away one price leaves the levels at every other price as they were,
/// and none at that one.
pub proof fn lemma_off_price(levels: Seq<AggregatedLevel>, price: u64, p: u64)
    ensures
        at_price(off_price(levels, price), p) == (if p == price {
            Seq::empty()
        } else {
            at_price(levels, p)
        }),
    decreases levels.len(),
{
    reveal(Seq::filter);
    if levels.len() == 0 {
        assert(off_price(levels, price) =~= Seq::empty());
        assert(at_price(off_price(levels, price), p) =~= Seq::empty());
        assert(at_price(levels, p) =~= Seq::empty());
    } else {
        let front = levels.drop_last();
        let l = levels.last();
        lemma_off_price(front, price, p);
        lemma_push_level(front, l, price);
        lemma_push_level(front, l, p);
        lemma_push_level(off_price(front, price), l, p);
        assert(front.push(l) =~= levels);
    }
}

/// Sequences with the same levels at each price have the same best price, and
/// are both empty or both not.
pub proof fn lemma_same_best_price(
    a: Seq<AggregatedLevel>,
    b: Seq<AggregatedLevel>,
    bids: bool,
)
    requires
        same_by_price(a, b),
        a.len() > 0,
    ensures
        b.len() > 0,
        best_price(a, bids) == best_price(b, bids),
{
    let pa = best_price(a, bids);
    lemma_best_price(a, bids);
    lemma_at_price_members(a, pa);
    lemma_at_price_members(b, pa);
    assert(at_price(a, pa) == at_price(b, pa));
    let i = choose|i: int| 0 <= i < b.len() && (#[trigger] b[i]).price_ticks == pa;
    assert(0 <= i < b.len());
    lemma_best_price(b, bids);
    let pb = best_price(b, bids);
    assert(!better(b[i].price_ticks, pb, bids));
    lemma_at_price_members(a, pb);
    lemma_at_price_members(b, pb);
    assert(at_price(a, pb) == at_price(b, pb));
    let j = choose|j: int| 0 <= j < a.len() && (#[trigger] a[j]).price_ticks == pb;
    assert(!better(a[j].price_ticks, pa, bids));
}

/// The levels from `from` up to `to`.
pub fn copy_levels(levels: &Vec<AggregatedLevel>, from: usize, to: usize) -> (out: Vec<
    AggregatedLevel,
>)
    requires
        from <= to <= levels.len(),
    ensures
        out@ == levels@.subrange(from as int, to as int),
{
    let mut out: Vec<AggregatedLevel> = Vec::with_capacity(to - from);
    let mut i: usize = from;
    while i < to
        invariant
            from <= i <= to <= levels.len(),
            out@ == levels@.subrange(from as int, i as int),
        decreases to - i,
    {
        out.push(levels[i]);
        i = i + 1;
        assert(out@ =~= levels@.subrange(from as int, i as int));
    }
    out
}

/// Merges two ordered sequences; at one price the levels of `a` come first.
fn merge_levels(a: &Vec<AggregatedLevel>, b: &Vec<AggregatedLevel>, bids: bool) -> (out: Vec<
    AggregatedLevel,
>)
    requires
        in_order(a@, bids),
        in_order(b@, bids),
    ensures
        in_order(out@, bids),
        forall|p: u64| #[trigger] at_price(out@, p) == at_price(a@, p) + at_price(b@, p),
{
    let mut out: Vec<AggregatedLevel> = Vec::new();
    let mut i: usize = 0;
    let mut j: usize = 0;
    proof {
        assert forall|p: u64| #[trigger] at_price(out@, p) == at_price(a@.take(0), p) + at_price(
            b@.take(0),
            p,
        ) by {
            reveal(Seq::filter);
            assert(at_price(out@, p) =~= at_price(a@.take(0), p) + at_price(b@.take(0), p));
        }
    }
    while i < a.len() || j < b.len()
        invariant
            i <= a.len(),
            j <= b.len(),
            in_order(a@, bids),
            in_order(b@, bids),
            in_order(out@, bids),
            forall|k: int, x: int|
                0 <= k < out.len() && i <= x < a.len() ==> !better(
                    (#[trigger] a@[x]).price_ticks,
                    (#[trigger] out@[k]).price_ticks,
                    bids,
                ),
            forall|k: int, y: int|
                0 <= k < out.len() && j <= y < b.len() ==> !better(
                    (#[trigger] b@[y]).price_ticks,
                    (#[trigger] out@[k]).price_ticks,
                    bids,
                ),
            forall|y: int, x: int|
                0 <= y < j && i <= x < a.len() ==> better(
                    (#[trigger] b@[y]).price_ticks,
                    (#[trigger] a@[x]).price_ticks,
                    bids,
                ),
            forall|p: u64|
                #[trigger] at_price(out@, p) == at_price(a@.take(i as int), p) + at_price(
                    b@.take(j as int),
                    p,
                ),
        decreases a.len() - i + b.len() - j,
    {
        let ghost before = out@;
        let from_b: bool = if i >= a.len() {
            true
        } else if j >= b.len() {
            false
        } else if bids {
            b[j].price_ticks > a[i].price_ticks
        } else {
            b[j].price_ticks < a[i].price_ticks
        };
        if from_b {
            let level: AggregatedLevel = b[j];
            out.push(level);
            proof {
                assert forall|p: u64| #[trigger] at_price(out@, p) == at_price(
                    a@.take(i as int),
                    p,
                ) + at_price(b@.take(j + 1), p) by {
                    lemma_push_level(before, level, p);
                    lemma_push_level(b@.take(j as int), level, p);
                    assert(b@.take(j as int).push(level) =~= b@.take(j + 1));
                    assert(at_price(before, p) == at_price(a@.take(i as int), p) + at_price(
                        b@.take(j as int),
                        p,
                    ));
                    assert(at_price(out@, p) =~= at_price(a@.take(i as int), p) + at_price(
                        b@.take(j + 1),
                        p,
                    ));
                }
            }
            j = j + 1;
        } else {
            let level: AggregatedLevel = a[i];
            out.push(level);
            proof {
                let seen = b@.take(j as int);
                assert forall|y: int| 0 <= y < seen.len() implies (#[trigger] seen[y]).price_ticks
                    != level.price_ticks by {
                    assert(seen[y] == b@[y]);
                    assert(better(b@[y].price_ticks, a@[i as int].price_ticks, bids));
                }
                lemma_absent_price(seen, level.price_ticks);
                assert forall|p: u64| #[trigger] at_price(out@, p) == at_price(
                    a@.take(i + 1),
                    p,
                ) + at_price(seen, p) by {
                    lemma_push_level(before, level, p);
                    lemma_push_level(a@.take(i as int), level, p);
                    assert(a@.take(i as int).push(level) =~= a@.take(i + 1));
                    assert(at_price(before, p) == at_price(a@.take(i as int), p) + at_price(
                        seen,
                        p,
                    ));
                    assert(at_price(out@, p) =~= at_price(a@.take(i + 1), p) + at_price(seen, p));
                }
            }
            i = i + 1;
        }
    }
    proof {
        assert(a@.take(i as int) =~= a@);
        assert(b@.take(j as int) =~= b@);
    }
    out
}

/// Puts levels in the order in which a taker meets them: best price first, and
/// at one price in the order they stand.
pub fn sort_levels(levels: &Vec<AggregatedLevel>, bids: bool) -> (out: Vec<AggregatedLevel>)
    ensures
        in_order(out@, bids),
        same_by_price(out@, levels@),
    decreases levels.len(),
{
    let n: usize = levels.len();
    if n <= 1 {
        let out: Vec<AggregatedLevel> = copy_levels(levels, 0, n);
        assert(out@ =~= levels@);
        return out;
    }
    let half: usize = n / 2;
    let first: Vec<AggregatedLevel> = copy_levels(levels, 0, half);
    let second: Vec<AggregatedLevel> = copy_levels(levels, half, n);
    let a: Vec<AggregatedLevel> = sort_levels(&first, bids);
    let b: Vec<AggregatedLevel> = sort_levels(&second, bids);
    let out: Vec<AggregatedLevel> = merge_levels(&a, &b, bids);
    proof {
        assert(levels@ =~= first@ + second@);
        assert forall|p: u64| #[trigger] at_price(out@, p) == at_price(levels@, p) by {
            lemma_concat_levels(first@, second@, p);
            assert(at_price(a@, p) == at_price(first@, p));
            assert(at_price(b@, p) == at_price(second@, p));
        }
    }
    out
}

} // verus!
