//! One pass of a fill over the makers at one price: each gets its share of the
//! fill by size, and the last one what rounding left over.

use vstd::prelude::*;

use crate::error::{ArcherAmmError, ErrorModel, math, math_error, outcome};
use crate::ladder::{AggregatedLevel, sizes};
use crate::lots::{calculate_pro_rata, pro_rata};

verus! {

/// The sum of sizes.
pub open spec fn total(s: Seq<u64>) -> int
    decreases s.len(),
{
    if s.len() == 0 {
        0
    } else {
        s.first() + total(s.drop_first())
    }
}

/// Whether no size is left.
pub open spec fn spent(s: Seq<u64>) -> bool {
    forall|i: int| 0 <= i < s.len() ==> s[i] == 0
}

/// The smaller of two sizes.
pub open spec fn smaller(a: int, b: int) -> int {
    if a <= b {
        a
    } else {
        b
    }
}

/// What a maker with `size` gets of a fill of which `given` is gone, where
/// `rest` are the sizes of the makers after it.
pub open spec fn share_of(size: u64, rest: Seq<u64>, given: u64, fill: u64, all: u64) -> Result<
    u64,
    ErrorModel,
> {
    if spent(rest) {
        if given > fill {
            math("distributed underflow")
        } else {
            Ok(smaller(fill - given, size as int) as u64)
        }
    } else {
        match pro_rata(fill, size, all) {
            Ok(share) => Ok(smaller(share as int, size as int) as u64),
            Err(e) => Err(e),
        }
    }
}

/// What a pass leaves behind: the sizes after it, and the base and quote lots
/// it filled, or why it stopped.
pub struct Pass {
    pub sizes: Seq<u64>,
    pub result: Result<(u64, u64), ErrorModel>,
}

impl Pass {
    /// This pass with one maker more in front.
    pub open spec fn behind(self, size: u64) -> Pass {
        Pass { sizes: seq![size] + self.sizes, result: self.result }
    }
}

/// The pass of `fill` base lots over makers with sizes `s`, out of `all`, after
/// `given` base lots for `quoted` quote lots went to makers before them. A fill
/// of `x` lots is worth `quote(x)`.
pub open spec fn pass(
    s: Seq<u64>,
    given: u64,
    quoted: u64,
    fill: u64,
    all: u64,
    quote: spec_fn(u64) -> Result<u64, ErrorModel>,
) -> Pass
    decreases s.len(),
{
    if s.len() == 0 {
        Pass { sizes: s, result: Ok((given, quoted)) }
    } else if s.first() == 0 {
        pass(s.drop_first(), given, quoted, fill, all, quote).behind(0)
    } else {
        match share_of(s.first(), s.drop_first(), given, fill, all) {
            Err(e) => Pass { sizes: s, result: Err(e) },
            Ok(share) => if share == 0 {
                pass(s.drop_first(), given, quoted, fill, all, quote).behind(s.first())
            } else {
                let left = (s.first() - share) as u64;
                match quote(share) {
                    Err(e) => Pass { sizes: s, result: Err(e) },
                    Ok(worth) => if given + share > u64::MAX {
                        Pass { sizes: seq![left] + s.drop_first(), result: math("base overflow") }
                    } else if quoted + worth > u64::MAX {
                        Pass { sizes: seq![left] + s.drop_first(), result: math("quote overflow") }
                    } else {
                        pass(
                            s.drop_first(),
                            (given + share) as u64,
                            (quoted + worth) as u64,
                            fill,
                            all,
                            quote,
                        ).behind(left)
                    },
                }
            },
        }
    }
}

/// The pass of `fill` base lots over a whole group.
pub open spec fn distribution(
    s: Seq<u64>,
    fill: u64,
    all: u64,
    quote: spec_fn(u64) -> Result<u64, ErrorModel>,
) -> Pass {
    pass(s, 0, 0, fill, all, quote)
}

/// Whether `quote_for` answers as `quote` says.
pub open spec fn quotes_as<F: Fn(u64) -> Result<u64, ArcherAmmError>>(
    quote_for: F,
    quote: spec_fn(u64) -> Result<u64, ErrorModel>,
) -> bool {
    forall|share: u64, r: Result<u64, ArcherAmmError>| #[trigger]
        quote_for.ensures((share,), r) ==> outcome(r) == quote(share)
}

/// Whether `after` is `before` with other sizes.
pub open spec fn resized(before: Seq<AggregatedLevel>, after: Seq<AggregatedLevel>) -> bool {
    &&& after.len() == before.len()
    &&& forall|i: int|
        0 <= i < after.len() ==> (#[trigger] after[i]).price_ticks == before[i].price_ticks
            && after[i].maker_index == before[i].maker_index
}

/// Whether no size is larger after than before.
pub open spec fn none_larger(after: Seq<u64>, before: Seq<u64>) -> bool {
    after.len() == before.len() && forall|i: int|
        0 <= i < after.len() ==> #[trigger] after[i] <= before[i]
}

/// The sum of a group's sizes, where it fits in `u64`.
pub open spec fn group_outcome(s: Seq<u64>) -> Result<u64, ErrorModel> {
    if total(s) > u64::MAX {
        math("group size overflow")
    } else {
        Ok(total(s) as u64)
    }
}

/// A sum of sizes is never negative.
pub proof fn lemma_total_nonnegative(s: Seq<u64>)
    ensures
        total(s) >= 0,
    decreases s.len(),
{
    if s.len() > 0 {
        lemma_total_nonnegative(s.drop_first());
    }
}

/// The sum of a group's sizes.
pub fn group_total(group: &[AggregatedLevel]) -> (r: Result<u64, ArcherAmmError>)
    ensures
        outcome(r) == group_outcome(sizes(group@)),
{
    let ghost s = sizes(group@);
    let mut acc: u64 = 0;
    let mut i: usize = 0;
    assert(s.skip(0) =~= s);
    while i < group.len()
        invariant
            i <= group.len(),
            s == sizes(group@),
            acc + total(s.skip(i as int)) == total(s),
        decreases group.len() - i,
    {
        proof {
            lemma_total_nonnegative(s.skip(i + 1));
            assert(s.skip(i as int).drop_first() =~= s.skip(i + 1));
            assert(s.skip(i as int).first() == group@[i as int].size_base_lots);
        }
        acc = match acc.checked_add(group[i].size_base_lots) {
            Some(sum) => sum,
            None => {
                return Err(math_error("group size overflow"));
            },
        };
        i = i + 1;
    }
    Ok(acc)
}

/// A quote of nothing for every fill. A pass with it says how a fill is shared,
/// which does not depend on what the shares are worth.
pub open spec fn unpriced() -> spec_fn(u64) -> Result<u64, ErrorModel> {
    |share: u64| Ok(0)
}

/// A pass over makers with no size left gives them nothing.
pub proof fn lemma_pass_spent(
    s: Seq<u64>,
    given: u64,
    quoted: u64,
    fill: u64,
    all: u64,
    quote: spec_fn(u64) -> Result<u64, ErrorModel>,
)
    requires
        spent(s),
    ensures
        pass(s, given, quoted, fill, all, quote) == (Pass { sizes: s, result: Ok((given, quoted)) }),
    decreases s.len(),
{
    if s.len() > 0 {
        lemma_pass_spent(s.drop_first(), given, quoted, fill, all, quote);
        assert(seq![0u64] + s.drop_first() =~= s);
    }
}

/// The shares for which a pass asks a quote, in order, where none of the answers
/// stops it.
pub open spec fn asked(s: Seq<u64>, given: u64, fill: u64, all: u64) -> Seq<u64>
    decreases s.len(),
{
    if s.len() == 0 {
        Seq::empty()
    } else if s.first() == 0 {
        asked(s.drop_first(), given, fill, all)
    } else {
        match share_of(s.first(), s.drop_first(), given, fill, all) {
            Err(_) => Seq::empty(),
            Ok(share) => if share == 0 {
                asked(s.drop_first(), given, fill, all)
            } else if given + share > u64::MAX {
                seq![share]
            } else {
                seq![share] + asked(s.drop_first(), (given + share) as u64, fill, all)
            },
        }
    }
}

/// A pass ahead, if there is one, with one maker more in front.
pub open spec fn after_one(size: u64, ahead: Option<Pass>) -> Option<Pass> {
    match ahead {
        Some(p) => Some(p.behind(size)),
        None => None,
    }
}

/// A pass that ends here, where no answer is left over.
pub open spec fn ended(
    sizes: Seq<u64>,
    result: Result<(u64, u64), ErrorModel>,
    unused: int,
) -> Option<Pass> {
    if unused == 0 {
        Some(Pass { sizes, result })
    } else {
        None
    }
}

/// The pass of `fill` base lots over makers with sizes `s`, as in [`pass`], where
/// the quotes it asks for are answered by `answers`, one after the other; nothing
/// where there are too few answers or too many.
pub open spec fn answered(
    s: Seq<u64>,
    given: u64,
    quoted: u64,
    fill: u64,
    all: u64,
    answers: Seq<Result<u64, ErrorModel>>,
) -> Option<Pass>
    decreases s.len(),
{
    let rest = s.drop_first();
    if s.len() == 0 {
        ended(s, Ok((given, quoted)), answers.len() as int)
    } else if s.first() == 0 {
        after_one(0, answered(rest, given, quoted, fill, all, answers))
    } else {
        match share_of(s.first(), rest, given, fill, all) {
            Err(e) => ended(s, Err(e), answers.len() as int),
            Ok(share) => if share == 0 {
                after_one(s.first(), answered(rest, given, quoted, fill, all, answers))
            } else if answers.len() == 0 {
                None
            } else {
                let left = (s.first() - share) as u64;
                match answers.first() {
                    Err(e) => ended(s, Err(e), answers.len() - 1),
                    Ok(worth) => if given + share > u64::MAX {
                        ended(seq![left] + rest, math("base overflow"), answers.len() - 1)
                    } else if quoted + worth > u64::MAX {
                        ended(seq![left] + rest, math("quote overflow"), answers.len() - 1)
                    } else {
                        after_one(
                            left,
                            answered(
                                rest,
                                (given + share) as u64,
                                (quoted + worth) as u64,
                                fill,
                                all,
                                answers.drop_first(),
                            ),
                        )
                    },
                }
            },
        }
    }
}

/// The sum of the quotes among answers.
pub open spec fn worths(answers: Seq<Result<u64, ErrorModel>>) -> int
    decreases answers.len(),
{
    if answers.len() == 0 {
        0
    } else {
        (match answers.first() {
            Ok(worth) => worth as int,
            Err(_) => 0,
        }) + worths(answers.drop_first())
    }
}

/// Whether an error is one of a pass's own rather than an answer that it got.
pub open spec fn own_failure(e: ErrorModel) -> bool {
    ||| e == ErrorModel::MathError("distributed underflow"@)
    ||| e == ErrorModel::MathError("pro-rata div zero"@)
    ||| e == ErrorModel::MathError("base overflow"@)
    ||| e == ErrorModel::MathError("quote overflow"@)
}

/// Answers with their errors as models.
pub open spec fn outcomes(answers: Seq<Result<u64, ArcherAmmError>>) -> Seq<
    Result<u64, ErrorModel>,
> {
    answers.map_values(|a: Result<u64, ArcherAmmError>| outcome(a))
}

/// Whether the answers are what `quote_for` gave for the shares of a pass over
/// `s`, in order.
pub open spec fn quoted_by<F: Fn(u64) -> Result<u64, ArcherAmmError>>(
    quote_for: F,
    s: Seq<u64>,
    fill: u64,
    all: u64,
    answers: Seq<Result<u64, ArcherAmmError>>,
) -> bool {
    let shares = asked(s, 0, fill, all);
    &&& answers.len() <= shares.len()
    &&& forall|k: int|
        0 <= k < answers.len() ==> quote_for.ensures((#[trigger] shares[k],), answers[k])
}

/// Whether a result of a pass is what its answers make of it: the sum of them
/// all, or the last of them where that is a failure, or a failure of the pass's
/// own.
pub open spec fn follows_from(
    result: Result<(u64, u64), ErrorModel>,
    asked: int,
    answers: Seq<Result<u64, ErrorModel>>,
) -> bool {
    match result {
        Ok((_, quote)) => answers.len() == asked && quote == worths(answers),
        Err(e) => own_failure(e) || (answers.len() > 0 && answers.last() == Err::<u64, _>(e)),
    }
}

/// What holds of a pass whatever the answers were.
proof fn lemma_answered(
    s: Seq<u64>,
    given: u64,
    quoted: u64,
    fill: u64,
    all: u64,
    answers: Seq<Result<u64, ErrorModel>>,
)
    requires
        answered(s, given, quoted, fill, all, answers) is Some,
    ensures
        ({
            let p = answered(s, given, quoted, fill, all, answers)->0;
            &&& p.sizes.len() == s.len()
            &&& forall|i: int| 0 <= i < s.len() ==> p.sizes[i] <= s[i]
            &&& answers.len() <= asked(s, given, fill, all).len()
            &&& match p.result {
                Ok((base, quote)) => {
                    &&& base - given == total(s) - total(p.sizes)
                    &&& spent(s) ==> base == given
                    &&& !spent(s) ==> base <= fill
                    &&& answers.len() == asked(s, given, fill, all).len()
                    &&& quote - quoted == worths(answers)
                    &&& pass(s, given, 0, fill, all, unpriced()) == (Pass {
                        sizes: p.sizes,
                        result: Ok((base, 0)),
                    })
                },
                Err(e) => own_failure(e) || (answers.len() > 0 && answers.last() == Err::<u64, _>(
                    e,
                )),
            }
        }),
    decreases s.len(),
{
    if s.len() > 0 {
        let first = s.first();
        let rest = s.drop_first();
        let share = if first == 0 {
            Ok(0)
        } else {
            share_of(first, rest, given, fill, all)
        };
        match share {
            Err(e) => {},
            Ok(share) => {
                let left = (first - share) as u64;
                if share == 0 {
                    lemma_answered(rest, given, quoted, fill, all, answers);
                    lemma_behind(answered(rest, given, quoted, fill, all, answers)->0, first);
                } else {
                    match answers.first() {
                        Err(e) => {
                            assert(answers.last() == answers.first());
                        },
                        Ok(worth) => {
                            if given + share <= u64::MAX && quoted + worth <= u64::MAX {
                                let later = answers.drop_first();
                                lemma_answered(
                                    rest,
                                    (given + share) as u64,
                                    (quoted + worth) as u64,
                                    fill,
                                    all,
                                    later,
                                );
                                lemma_behind(
                                    answered(
                                        rest,
                                        (given + share) as u64,
                                        (quoted + worth) as u64,
                                        fill,
                                        all,
                                        later,
                                    )->0,
                                    left,
                                );
                                if later.len() > 0 {
                                    assert(later.last() == answers.last());
                                }
                            } else {
                                assert(seq![left] + rest =~= s.update(0, left));
                            }
                        },
                    }
                }
            },
        }
        let p = answered(s, given, quoted, fill, all, answers)->0;
        assert forall|i: int| 0 <= i < s.len() implies p.sizes[i] <= s[i] by {
            if i > 0 {
                assert(s[i] == rest[i - 1]);
            }
        }
        if spent(s) {
            assert(spent(rest));
        }
        if spent(rest) && first == 0 {
            assert(spent(s)) by {
                assert forall|i: int| 0 <= i < s.len() implies s[i] == 0 by {
                    if i > 0 {
                        assert(s[i] == rest[i - 1]);
                    }
                }
            }
        }
    }
}

/// Where the answers are those of a function, the pass is the one with that
/// function.
proof fn lemma_answered_as(
    s: Seq<u64>,
    given: u64,
    quoted: u64,
    fill: u64,
    all: u64,
    answers: Seq<Result<u64, ErrorModel>>,
    quote: spec_fn(u64) -> Result<u64, ErrorModel>,
)
    requires
        answered(s, given, quoted, fill, all, answers) is Some,
        forall|k: int|
            0 <= k < answers.len() ==> #[trigger] answers[k] == quote(
                asked(s, given, fill, all)[k],
            ),
    ensures
        answered(s, given, quoted, fill, all, answers) == Some(
            pass(s, given, quoted, fill, all, quote),
        ),
    decreases s.len(),
{
    lemma_answered(s, given, quoted, fill, all, answers);
    if s.len() > 0 {
        let first = s.first();
        let rest = s.drop_first();
        if first == 0 {
            lemma_answered_as(rest, given, quoted, fill, all, answers, quote);
        } else {
            match share_of(first, rest, given, fill, all) {
                Err(e) => {},
                Ok(share) => {
                    if share == 0 {
                        lemma_answered_as(rest, given, quoted, fill, all, answers, quote);
                    } else {
                        let shares = asked(s, given, fill, all);
                        assert(shares[0] == share);
                        assert(answers[0] == quote(shares[0]));
                        match answers.first() {
                            Err(e) => {},
                            Ok(worth) => {
                                if given + share <= u64::MAX && quoted + worth <= u64::MAX {
                                    let later = answers.drop_first();
                                    let ahead = asked(rest, (given + share) as u64, fill, all);
                                    assert forall|k: int| 0 <= k < later.len() implies #[trigger]
                                        later[k] == quote(ahead[k]) by {
                                        assert(later[k] == answers[k + 1]);
                                        assert(ahead[k] == shares[k + 1]);
                                    }
                                    lemma_answered_as(
                                        rest,
                                        (given + share) as u64,
                                        (quoted + worth) as u64,
                                        fill,
                                        all,
                                        later,
                                        quote,
                                    );
                                }
                            },
                        }
                    }
                },
            }
        }
    }
}

/// A pass over makers with no size left asks for nothing.
proof fn lemma_answered_spent(s: Seq<u64>, given: u64, quoted: u64, fill: u64, all: u64)
    requires
        spent(s),
    ensures
        answered(s, given, quoted, fill, all, Seq::empty()) == Some(
            Pass { sizes: s, result: Ok((given, quoted)) },
        ),
    decreases s.len(),
{
    if s.len() > 0 {
        lemma_answered_spent(s.drop_first(), given, quoted, fill, all);
        assert(seq![0u64] + s.drop_first() =~= s);
    }
}

/// Whether a pass that has dealt with the first `i` makers, with `now` their
/// sizes and those to come, is about to end as `whole` says.
spec fn on_course(whole: Option<Pass>, now: Seq<u64>, i: int, ahead: Option<Pass>) -> bool {
    match ahead {
        Some(p) => whole == Some(Pass { sizes: now.take(i) + p.sizes, result: p.result }),
        None => whole is None,
    }
}

/// A pass stays on course over a maker that is left with `size`.
proof fn lemma_on_course(
    whole: Option<Pass>,
    now: Seq<u64>,
    i: int,
    ahead: Option<Pass>,
    size: u64,
)
    requires
        0 <= i < now.len(),
        on_course(whole, now, i, after_one(size, ahead)),
    ensures
        on_course(whole, now.update(i, size), i + 1, ahead),
{
    if let Some(p) = ahead {
        assert(now.take(i) + (seq![size] + p.sizes) =~= now.update(i, size).take(i + 1) + p.sizes);
    }
}

/// Whether the sizes after a pass and its result are what a sequence of answers
/// of `quote_for` makes of them.
pub open spec fn dealt_out<F: Fn(u64) -> Result<u64, ArcherAmmError>>(
    quote_for: F,
    s: Seq<u64>,
    fill: u64,
    all: u64,
    after: Pass,
) -> bool {
    exists|answers: Seq<Result<u64, ArcherAmmError>>|
        {
            &&& #[trigger] quoted_by(quote_for, s, fill, all, answers)
            &&& answered(s, 0, 0, fill, all, outcomes(answers)) == Some(after)
            &&& follows_from(
                after.result,
                asked(s, 0, fill, all).len() as int,
                outcomes(answers),
            )
        }
}

/// What a sequence of answers of `quote_for` says of a pass that used them.
proof fn lemma_dealt_out<F: Fn(u64) -> Result<u64, ArcherAmmError>>(
    quote_for: F,
    s: Seq<u64>,
    fill: u64,
    all: u64,
    answers: Seq<Result<u64, ArcherAmmError>>,
    after: Pass,
)
    requires
        quoted_by(quote_for, s, fill, all, answers),
        answered(s, 0, 0, fill, all, outcomes(answers)) == Some(after),
    ensures
        dealt_out(quote_for, s, fill, all, after),
        none_larger(after.sizes, s),
        after.result matches Ok((base, _)) ==> {
            let shared = distribution(s, fill, all, unpriced());
            &&& base <= fill
            &&& total(s) - total(after.sizes) == base
            &&& after.sizes == shared.sizes
            &&& shared.result == Ok::<(u64, u64), ErrorModel>((base, 0))
        },
        forall|quote: spec_fn(u64) -> Result<u64, ErrorModel>| #[trigger]
            quotes_as(quote_for, quote) ==> after == distribution(s, fill, all, quote),
{
    let given = outcomes(answers);
    lemma_answered(s, 0, 0, fill, all, given);
    assert forall|quote: spec_fn(u64) -> Result<u64, ErrorModel>| #[trigger]
        quotes_as(quote_for, quote) implies after == distribution(s, fill, all, quote) by {
        let shares = asked(s, 0, fill, all);
        assert forall|k: int| 0 <= k < given.len() implies #[trigger] given[k] == quote(
            shares[k],
        ) by {
            assert(quote_for.ensures((shares[k],), answers[k]));
        }
        lemma_answered_as(s, 0, 0, fill, all, given, quote);
    }
}

/// What a maker with `size` gets of a fill of which `given` is gone.
fn next_share(
    size: u64,
    is_last: bool,
    given: u64,
    fill: u64,
    all: u64,
    Ghost(rest): Ghost<Seq<u64>>,
) -> (r: Result<u64, ArcherAmmError>)
    requires
        is_last == spent(rest),
    ensures
        outcome(r) == share_of(size, rest, given, fill, all),
{
    let part: u64 = if is_last {
        match fill.checked_sub(given) {
            Some(left) => left,
            None => {
                return Err(math_error("distributed underflow"));
            },
        }
    } else {
        calculate_pro_rata(fill, size, all)?
    };
    Ok(
        if part <= size {
            part
        } else {
            size
        },
    )
}

/// Splits `base_to_fill` lots over the group by size, and takes each maker's
/// share off its size. Returns the base and quote lots filled.
///
/// Everything follows from the answers of `quote_for`, one for each share in
/// order. How a fill is shared does not depend on what they are; and where they
/// are those of a function, nothing is left open.
pub fn distribute<F: Fn(u64) -> Result<u64, ArcherAmmError>>(
    group: &mut [AggregatedLevel],
    base_to_fill: u64,
    total_size: u64,
    quote_for: F,
) -> (r: Result<(u64, u64), ArcherAmmError>)
    requires
        forall|share: u64| #[trigger] quote_for.requires((share,)),
    ensures
        resized(old(group)@, final(group)@),
        dealt_out(
            quote_for,
            sizes(old(group)@),
            base_to_fill,
            total_size,
            Pass { sizes: sizes(final(group)@), result: outcome(r) },
        ),
        none_larger(sizes(final(group)@), sizes(old(group)@)),
        r matches Ok((base, _)) ==> {
            let shared = distribution(sizes(old(group)@), base_to_fill, total_size, unpriced());
            &&& base <= base_to_fill
            &&& total(sizes(old(group)@)) - total(sizes(final(group)@)) == base
            &&& sizes(final(group)@) == shared.sizes
            &&& shared.result == Ok::<(u64, u64), ErrorModel>((base, 0))
        },
        forall|quote: spec_fn(u64) -> Result<u64, ErrorModel>| #[trigger]
            quotes_as(quote_for, quote) ==> {
                let model = distribution(sizes(old(group)@), base_to_fill, total_size, quote);
                &&& sizes(final(group)@) == model.sizes
                &&& outcome(r) == model.result
            },
{
    let ghost before = group@;
    let ghost s = sizes(before);
    let n: usize = group.len();
    // One past the last maker that has any size.
    let mut live_end: usize = n;
    while live_end > 0 && group[live_end - 1].size_base_lots == 0
        invariant
            live_end <= n,
            n == group@.len(),
            group@ == before,
            forall|j: int| live_end <= j < n ==> (#[trigger] before[j]).size_base_lots == 0,
        decreases live_end,
    {
        live_end = live_end - 1;
    }
    let mut distributed: u64 = 0;
    let mut filled_quote: u64 = 0;
    let mut i: usize = 0;
    let ghost mut answers: Seq<Result<u64, ArcherAmmError>> = Seq::empty();
    let ghost mut told: Seq<u64> = Seq::empty();
    proof {
        assert(s.skip(0) =~= s);
        assert(told + asked(s, 0, base_to_fill, total_size) =~= asked(
            s,
            0,
            base_to_fill,
            total_size,
        ));
        assert forall|more: Seq<Result<u64, ErrorModel>>| on_course(
            #[trigger] answered(s, 0, 0, base_to_fill, total_size, outcomes(answers) + more),
            sizes(group@),
            0,
            answered(s, 0, 0, base_to_fill, total_size, more),
        ) by {
            assert(outcomes(answers) + more =~= more);
            if let Some(p) = answered(s, 0, 0, base_to_fill, total_size, more) {
                assert(sizes(group@).take(0) + p.sizes =~= p.sizes);
            }
        }
    }
    while i < live_end
        invariant
            i <= live_end <= n,
            before == old(group)@,
            s == sizes(before),
            n == before.len(),
            resized(before, group@),
            live_end > 0 ==> before[live_end - 1].size_base_lots != 0,
            forall|j: int| i <= j < n ==> group@[j] == before[j],
            forall|j: int| live_end <= j < n ==> (#[trigger] before[j]).size_base_lots == 0,
            forall|share: u64| #[trigger] quote_for.requires((share,)),
            told.len() == answers.len(),
            forall|k: int|
                0 <= k < told.len() ==> quote_for.ensures((#[trigger] told[k],), answers[k]),
            asked(s, 0, base_to_fill, total_size) == told + asked(
                sizes(group@).skip(i as int),
                distributed,
                base_to_fill,
                total_size,
            ),
            forall|more: Seq<Result<u64, ErrorModel>>|
                on_course(
                    #[trigger] answered(
                        s,
                        0,
                        0,
                        base_to_fill,
                        total_size,
                        outcomes(answers) + more,
                    ),
                    sizes(group@),
                    i as int,
                    answered(
                        sizes(group@).skip(i as int),
                        distributed,
                        filled_quote,
                        base_to_fill,
                        total_size,
                        more,
                    ),
                ),
        decreases live_end - i,
    {
        let maker: AggregatedLevel = group[i];
        let ghost now = sizes(group@);
        let ghost rest = now.skip(i + 1);
        let ghost none = Seq::<Result<u64, ErrorModel>>::empty();
        proof {
            assert(now.skip(i as int).first() == maker.size_base_lots);
            assert(now.skip(i as int).drop_first() =~= rest);
            assert(now.update(i as int, maker.size_base_lots) =~= now);
            assert(now.take(i as int) + now.skip(i as int) =~= now);
            assert(outcomes(answers) + none =~= outcomes(answers));
            assert(spent(rest) == (i + 1 == live_end)) by {
                if i + 1 < live_end {
                    assert(rest[live_end - 1 - (i + 1)] == before[live_end - 1].size_base_lots);
                } else {
                    assert forall|j: int| 0 <= j < rest.len() implies rest[j] == 0 by {
                        assert(rest[j] == before[i + 1 + j].size_base_lots);
                    }
                }
            }
        }
        let share: u64 = if maker.size_base_lots == 0 {
            0
        } else {
            match next_share(
                maker.size_base_lots,
                i + 1 == live_end,
                distributed,
                base_to_fill,
                total_size,
                Ghost(rest),
            ) {
                Ok(share) => share,
                Err(e) => {
                    proof {
                        assert(quoted_by(quote_for, s, base_to_fill, total_size, answers));
                        lemma_dealt_out(
                            quote_for,
                            s,
                            base_to_fill,
                            total_size,
                            answers,
                            Pass { sizes: now, result: Err(e@) },
                        );
                    }
                    return Err(e);
                },
            }
        };
        if share != 0 {
            let answer: Result<u64, ArcherAmmError> = quote_for(share);
            let ghost heard = answers.push(answer);
            proof {
                let shares = asked(s, 0, base_to_fill, total_size);
                assert(shares[told.len() as int] == share);
                assert forall|k: int| 0 <= k < heard.len() implies quote_for.ensures(
                    (#[trigger] shares[k],),
                    heard[k],
                ) by {
                    if k < told.len() {
                        assert(shares[k] == told[k]);
                    }
                }
                assert(quoted_by(quote_for, s, base_to_fill, total_size, heard));
                assert(outcomes(heard) =~= outcomes(answers) + seq![outcome(answer)]);
            }
            let quote: u64 = match answer {
                Ok(lots) => lots,
                Err(e) => {
                    proof {
                        lemma_dealt_out(
                            quote_for,
                            s,
                            base_to_fill,
                            total_size,
                            heard,
                            Pass { sizes: now, result: Err(e@) },
                        );
                    }
                    return Err(e);
                },
            };
            let left: u64 = maker.size_base_lots - share;
            group[i] = AggregatedLevel { size_base_lots: left, ..maker };
            assert(sizes(group@) =~= now.update(i as int, left));
            assert(now.take(i as int) + (seq![left] + rest) =~= sizes(group@));
            let given: u64 = match distributed.checked_add(share) {
                Some(sum) => sum,
                None => {
                    let e: ArcherAmmError = math_error("base overflow");
                    proof {
                        lemma_dealt_out(
                            quote_for,
                            s,
                            base_to_fill,
                            total_size,
                            heard,
                            Pass { sizes: sizes(group@), result: Err(e@) },
                        );
                    }
                    return Err(e);
                },
            };
            let quoted: u64 = match filled_quote.checked_add(quote) {
                Some(sum) => sum,
                None => {
                    let e: ArcherAmmError = math_error("quote overflow");
                    proof {
                        lemma_dealt_out(
                            quote_for,
                            s,
                            base_to_fill,
                            total_size,
                            heard,
                            Pass { sizes: sizes(group@), result: Err(e@) },
                        );
                    }
                    return Err(e);
                },
            };
            proof {
                assert(sizes(group@).skip(i + 1) =~= rest);
                assert(told.push(share) + asked(rest, given, base_to_fill, total_size) =~= told + (
                seq![share] + asked(rest, given, base_to_fill, total_size)));
                assert forall|more: Seq<Result<u64, ErrorModel>>| on_course(
                    #[trigger] answered(s, 0, 0, base_to_fill, total_size, outcomes(heard) + more),
                    sizes(group@),
                    i + 1,
                    answered(rest, given, quoted, base_to_fill, total_size, more),
                ) by {
                    let all = seq![outcome(answer)] + more;
                    assert(outcomes(heard) + more =~= outcomes(answers) + all);
                    assert(all.drop_first() =~= more);
                    assert(all.first() == outcome(answer));
                    lemma_on_course(
                        answered(s, 0, 0, base_to_fill, total_size, outcomes(answers) + all),
                        now,
                        i as int,
                        answered(rest, given, quoted, base_to_fill, total_size, more),
                        left,
                    );
                }
                answers = heard;
                told = told.push(share);
            }
            distributed = given;
            filled_quote = quoted;
        } else {
            proof {
                assert forall|more: Seq<Result<u64, ErrorModel>>| on_course(
                    #[trigger] answered(
                        s,
                        0,
                        0,
                        base_to_fill,
                        total_size,
                        outcomes(answers) + more,
                    ),
                    now,
                    i + 1,
                    answered(rest, distributed, filled_quote, base_to_fill, total_size, more),
                ) by {
                    lemma_on_course(
                        answered(s, 0, 0, base_to_fill, total_size, outcomes(answers) + more),
                        now,
                        i as int,
                        answered(rest, distributed, filled_quote, base_to_fill, total_size, more),
                        maker.size_base_lots,
                    );
                }
            }
        }
        i = i + 1;
    }
    proof {
        let rest = sizes(group@).skip(i as int);
        assert(sizes(group@).take(i as int) + rest =~= sizes(group@));
        assert(spent(rest)) by {
            assert forall|j: int| 0 <= j < rest.len() implies rest[j] == 0 by {
                assert(rest[j] == before[i + j].size_base_lots);
            }
        }
        lemma_answered_spent(rest, distributed, filled_quote, base_to_fill, total_size);
        assert(outcomes(answers) + Seq::<Result<u64, ErrorModel>>::empty() =~= outcomes(answers));
        let shares = asked(s, 0, base_to_fill, total_size);
        assert forall|k: int| 0 <= k < answers.len() implies quote_for.ensures(
            (#[trigger] shares[k],),
            answers[k],
        ) by {
            assert(shares[k] == told[k]);
        }
        assert(quoted_by(quote_for, s, base_to_fill, total_size, answers));
        lemma_dealt_out(
            quote_for,
            s,
            base_to_fill,
            total_size,
            answers,
            Pass { sizes: sizes(group@), result: Ok((distributed, filled_quote)) },
        );
    }
    Ok((distributed, filled_quote))
}

/// A pass fails for no other reason than that a fill of at most `fill` lots has
/// no quote, or that the quotes do not add up within `u64`.
pub open spec fn failed_on_quotes(
    e: ErrorModel,
    fill: u64,
    quote: spec_fn(u64) -> Result<u64, ErrorModel>,
) -> bool {
    ||| e == ErrorModel::MathError("quote overflow"@)
    ||| exists|share: u64| 0 < share <= fill && #[trigger] quote(share) == Err::<u64, _>(e)
}

/// What holds of the rest of a pass, where `all` is the sum of every size in
/// the group, `s` are the sizes to come, and the makers before them got no more
/// than their part.
proof fn lemma_pass(
    s: Seq<u64>,
    given: u64,
    quoted: u64,
    fill: u64,
    all: u64,
    quote: spec_fn(u64) -> Result<u64, ErrorModel>,
)
    requires
        total(s) <= all,
        fill <= all,
        given * all <= fill * (all - total(s)),
        given <= fill,
    ensures
        ({
            let p = pass(s, given, quoted, fill, all, quote);
            &&& p.sizes.len() == s.len()
            &&& forall|i: int| 0 <= i < s.len() ==> p.sizes[i] <= s[i]
            &&& match p.result {
                Ok((base, _)) => {
                    &&& given <= base <= fill
                    &&& base - given == total(s) - total(p.sizes)
                    &&& fill > 0 && total(s) > 0 ==> base > 0
                },
                Err(e) => failed_on_quotes(e, fill, quote),
            }
        }),
    decreases s.len(),
{
    if s.len() > 0 {
        let first = s.first();
        let rest = s.drop_first();
        lemma_total_nonnegative(rest);
        if first == 0 {
            lemma_pass(rest, given, quoted, fill, all, quote);
            lemma_behind(pass(rest, given, quoted, fill, all, quote), 0);
        } else {
            if spent(rest) {
                lemma_total_spent(rest);
            } else {
                lemma_total_live(rest);
                law_part_fits(fill, first, all);
            }
            let share = share_of(first, rest, given, fill, all)->Ok_0;
            if share == 0 {
                assert(given * all <= fill * (all - total(rest))) by (nonlinear_arith)
                    requires
                        given * all <= fill * (all - total(s)),
                        total(rest) <= total(s),
                        fill >= 0,
                ;
                lemma_pass(rest, given, quoted, fill, all, quote);
                lemma_behind(pass(rest, given, quoted, fill, all, quote), first);
            } else {
                let left = (first - share) as u64;
                match quote(share) {
                    Err(e) => {},
                    Ok(worth) => {
                        assert(seq![left] + rest == s.update(0, left));
                        if spent(rest) {
                            if quoted + worth <= u64::MAX {
                                lemma_pass_spent(
                                    rest,
                                    (given + share) as u64,
                                    (quoted + worth) as u64,
                                    fill,
                                    all,
                                    quote,
                                );
                                lemma_behind(
                                    pass(
                                        rest,
                                        (given + share) as u64,
                                        (quoted + worth) as u64,
                                        fill,
                                        all,
                                        quote,
                                    ),
                                    left,
                                );
                            }
                        } else {
                            let part = (fill * first) / (all as int);
                            assert(share * all <= fill * first) by (nonlinear_arith)
                                requires
                                    share <= part,
                                    part * all <= fill * first,
                                    all > 0,
                            ;
                            assert((given + share) * all <= fill * (all - total(rest)))
                                by (nonlinear_arith)
                                requires
                                    given * all <= fill * (all - total(s)),
                                    share * all <= fill * first,
                                    total(s) == first + total(rest),
                            ;
                            assert(given + share <= fill) by (nonlinear_arith)
                                requires
                                    (given + share) * all <= fill * (all - total(rest)),
                                    total(rest) >= 0,
                                    all > 0,
                                    fill >= 0,
                            ;
                            if quoted + worth <= u64::MAX {
                                lemma_pass(
                                    rest,
                                    (given + share) as u64,
                                    (quoted + worth) as u64,
                                    fill,
                                    all,
                                    quote,
                                );
                                lemma_behind(
                                    pass(
                                        rest,
                                        (given + share) as u64,
                                        (quoted + worth) as u64,
                                        fill,
                                        all,
                                        quote,
                                    ),
                                    left,
                                );
                            }
                        }
                    },
                }
            }
        }
        let p = pass(s, given, quoted, fill, all, quote);
        assert forall|i: int| 0 <= i < s.len() implies p.sizes[i] <= s[i] by {
            if i > 0 {
                assert(s[i] == rest[i - 1]);
            }
        }
    }
}

/// The part of a fill that falls to one size out of `all` is exact up to
/// rounding down: no more than the fill, and nothing of it is cut off.
pub proof fn law_part_fits(fill: u64, size: u64, all: u64)
    requires
        0 < size <= all,
    ensures
        pro_rata(fill, size, all) == Ok::<u64, ErrorModel>(((fill * size) / (all as int)) as u64),
        0 <= (fill * size) / (all as int) <= fill,
        ((fill * size) / (all as int)) * all <= fill * size,
{
    let part = (fill * size) / (all as int);
    assert(0 <= part <= fill && part * all <= fill * size) by (nonlinear_arith)
        requires
            part == (fill * size) / (all as int),
            0 < size <= all,
            fill >= 0,
    ;
}

/// The sum over makers with no size left is zero.
proof fn lemma_total_spent(s: Seq<u64>)
    requires
        spent(s),
    ensures
        total(s) == 0,
    decreases s.len(),
{
    if s.len() > 0 {
        lemma_total_spent(s.drop_first());
    }
}

/// The sum over makers of whom one has size left is not zero.
proof fn lemma_total_live(s: Seq<u64>)
    requires
        !spent(s),
    ensures
        total(s) > 0,
    decreases s.len(),
{
    lemma_total_nonnegative(s.drop_first());
    if s.first() == 0 {
        let k = choose|i: int| 0 <= i < s.len() && s[i] != 0;
        assert(s.drop_first()[k - 1] != 0);
        lemma_total_live(s.drop_first());
    }
}

/// One maker more in front adds its size.
proof fn lemma_behind(p: Pass, size: u64)
    ensures
        p.behind(size).sizes.len() == p.sizes.len() + 1,
        p.behind(size).sizes[0] == size,
        forall|i: int| 0 < i <= p.sizes.len() ==> p.behind(size).sizes[i] == p.sizes[i - 1],
        total(p.behind(size).sizes) == size + total(p.sizes),
{
    assert(p.behind(size).sizes.drop_first() =~= p.sizes);
}

/// A pass over a whole group gives no maker more than its size, and all makers
/// together what it reports: at most what was asked for, and something where
/// anything was. It fails only for want of a quote.
pub proof fn law_distribution(
    s: Seq<u64>,
    fill: u64,
    quote: spec_fn(u64) -> Result<u64, ErrorModel>,
)
    requires
        fill <= total(s) <= u64::MAX,
    ensures
        ({
            let d = distribution(s, fill, total(s) as u64, quote);
            &&& d.sizes.len() == s.len()
            &&& forall|i: int| 0 <= i < s.len() ==> d.sizes[i] <= s[i]
            &&& match d.result {
                Ok((base, _)) => {
                    &&& base <= fill
                    &&& base == total(s) - total(d.sizes)
                    &&& fill > 0 ==> base > 0
                },
                Err(e) => failed_on_quotes(e, fill, quote),
            }
        }),
{
    assert(fill * (total(s) - total(s)) == 0);
    lemma_pass(s, 0, 0, fill, total(s) as u64, quote);
}

} // verus!
