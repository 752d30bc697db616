//! Matching allocation observations to index prices by date.
//!
//! An observation is matched to the first price of the series whose day is
//! not before the day of the observation. Observations that come before the
//! first price of the series, and observations that no price follows, are
//! left out.

use crate::date::Ymd;
use crate::record::{
    allocation_days, ascending, pair_days, price_days, strictly_ascending, AlignedPair,
    AllocationRecord, Snp500Record,
};
use crate::select::{
    filter_map, lemma_filter_map_concat, lemma_filter_map_push, lemma_filter_map_selects,
};
use vstd::prelude::*;

verus! {

/// The first position at or after `from` whose day is not before `day`, and
/// the length of `days` where there is none.
pub open spec fn first_not_before(days: Seq<Ymd>, from: int, day: Ymd) -> int
    decreases days.len() - from,
{
    if from >= days.len() {
        days.len() as int
    } else if !days[from].is_before(day) {
        from
    } else {
        first_not_before(days, from + 1, day)
    }
}

/// The pair that matching `allocation` to `price` gives.
pub open spec fn pair_of<V>(allocation: AllocationRecord<V>, price: Snp500Record<V>) -> AlignedPair<
    V,
> {
    AlignedPair {
        allocation_date: allocation.date,
        allocation: allocation.allocation,
        matched_price: price.closing_price,
    }
}

/// The match of one observation: the first price of the series that is not
/// before it. There is none where the series is empty, where the observation
/// comes before the first price, and where no price is on or after its day.
pub open spec fn match_of<V>(allocation: AllocationRecord<V>, prices: Seq<Snp500Record<V>>) -> Option<
    AlignedPair<V>,
> {
    let first = first_not_before(price_days(prices), 0, allocation.date@);
    if prices.len() > 0 && !allocation.date@.is_before(prices[0].date@) && first < prices.len() {
        Some(pair_of(allocation, prices[first]))
    } else {
        None
    }
}

/// [`match_of`] against a fixed series of prices.
pub open spec fn matching<V>(prices: Seq<Snp500Record<V>>) -> spec_fn(AllocationRecord<V>) -> Option<
    AlignedPair<V>,
> {
    |allocation: AllocationRecord<V>| match_of(allocation, prices)
}

/// The matches of all observations that have one, in the order of the
/// observations.
pub open spec fn matched<V>(
    allocations: Seq<AllocationRecord<V>>,
    prices: Seq<Snp500Record<V>>,
) -> Seq<AlignedPair<V>> {
    filter_map(allocations, matching(prices))
}

/// What one forward pass gives for the observations from position `from` on,
/// with the prices before `cursor` already passed over. For each observation
/// the cursor moves on to the first price not before it, and never back; an
/// observation for which the prices run out leaves nothing.
pub open spec fn walk<V>(
    allocations: Seq<AllocationRecord<V>>,
    prices: Seq<Snp500Record<V>>,
    from: int,
    cursor: int,
) -> Seq<AlignedPair<V>>
    decreases allocations.len() - from,
{
    if from >= allocations.len() {
        Seq::empty()
    } else {
        let stop = first_not_before(price_days(prices), cursor, allocations[from].date@);
        let later = walk(allocations, prices, from + 1, stop);
        if stop < prices.len() {
            seq![pair_of(allocations[from], prices[stop])] + later
        } else {
            later
        }
    }
}

/// What [`align`] returns, whatever the order of its inputs: nothing where
/// there are no prices; else the leading observations that come before the
/// first price are skipped, and the rest are walked with one cursor.
pub open spec fn aligned<V>(
    allocations: Seq<AllocationRecord<V>>,
    prices: Seq<Snp500Record<V>>,
) -> Seq<AlignedPair<V>> {
    if prices.len() == 0 {
        Seq::empty()
    } else {
        walk(
            allocations,
            prices,
            first_not_before(allocation_days(allocations), 0, prices[0].date@),
            0,
        )
    }
}

/// Where [`first_not_before`] stops: between `from` and the end, after days
/// that are all before `day`, and on a day that is not.
pub proof fn lemma_first_not_before(days: Seq<Ymd>, from: int, day: Ymd)
    requires
        0 <= from <= days.len(),
    ensures
        from <= first_not_before(days, from, day) <= days.len(),
        forall|k: int|
            from <= k < first_not_before(days, from, day) ==> (#[trigger] days[k]).is_before(day),
        first_not_before(days, from, day) < days.len() ==> !days[first_not_before(
            days,
            from,
            day,
        )].is_before(day),
    decreases days.len() - from,
{
    if from < days.len() && days[from].is_before(day) {
        lemma_first_not_before(days, from + 1, day);
    }
}

/// Passing over days that are before `day` does not change where the search
/// stops.
proof fn lemma_first_not_before_skips(days: Seq<Ymd>, from: int, to: int, day: Ymd)
    requires
        0 <= from <= to <= days.len(),
        forall|k: int| from <= k < to ==> (#[trigger] days[k]).is_before(day),
    ensures
        first_not_before(days, from, day) == first_not_before(days, to, day),
    decreases to - from,
{
    if from < to {
        lemma_first_not_before_skips(days, from + 1, to, day);
    }
}

/// Observations without a match leave nothing.
proof fn lemma_none_matched<V>(allocations: Seq<AllocationRecord<V>>, prices: Seq<Snp500Record<V>>)
    requires
        forall|i: int|
            0 <= i < allocations.len() ==> match_of(#[trigger] allocations[i], prices) is None,
    ensures
        matched(allocations, prices) == Seq::<AlignedPair<V>>::empty(),
    decreases allocations.len(),
{
    if allocations.len() > 0 {
        lemma_none_matched(allocations.drop_last(), prices);
        assert(match_of(allocations[allocations.len() - 1], prices) is None);
    }
}

/// The walk from `from` on finds the matches of the observations from `from`
/// on, once the cursor has only passed prices that are before all of them.
proof fn lemma_walk_from<V>(
    allocations: Seq<AllocationRecord<V>>,
    prices: Seq<Snp500Record<V>>,
    from: int,
    cursor: int,
)
    requires
        ascending(allocation_days(allocations)),
        0 <= from <= allocations.len(),
        0 <= cursor <= prices.len(),
        prices.len() > 0,
        from < allocations.len() ==> !allocations[from].date@.is_before(prices[0].date@),
        from < allocations.len() ==> forall|k: int|
            0 <= k < cursor ==> (#[trigger] price_days(prices)[k]).is_before(
                allocations[from].date@,
            ),
    ensures
        walk(allocations, prices, from, cursor) == matched(
            allocations.subrange(from, allocations.len() as int),
            prices,
        ),
    decreases allocations.len() - from,
{
    let rest = allocations.subrange(from, allocations.len() as int);
    if from >= allocations.len() {
        assert(rest.len() == 0);
    } else {
        let days = price_days(prices);
        let here = allocations[from];
        let stop = first_not_before(days, cursor, here.date@);
        lemma_first_not_before(days, cursor, here.date@);
        lemma_first_not_before_skips(days, 0, cursor, here.date@);
        assert(match_of(here, prices) == if stop < prices.len() {
            Some(pair_of(here, prices[stop]))
        } else {
            None
        });
        if from + 1 < allocations.len() {
            let next = allocations[from + 1];
            assert(!allocation_days(allocations)[from + 1].is_before(
                allocation_days(allocations)[from],
            ));
            assert forall|k: int| 0 <= k < stop implies (#[trigger] days[k]).is_before(
                next.date@,
            ) by {
                assert(days[k].is_before(here.date@));
            }
        }
        lemma_walk_from(allocations, prices, from + 1, stop);
        let later = allocations.subrange(from + 1, allocations.len() as int);
        assert(rest =~= seq![here] + later);
        lemma_filter_map_concat(seq![here], later, matching(prices));
        assert(seq![here] =~= Seq::<AllocationRecord<V>>::empty().push(here));
        lemma_filter_map_push(Seq::empty(), here, matching(prices));
        assert(matched(seq![here], prices) =~= match match_of(here, prices) {
            Some(pair) => seq![pair],
            None => Seq::empty(),
        });
    }
}

/// On observations in ascending order, one pass with one cursor finds for
/// each observation the first price of the whole series that is not before
/// it: [`aligned`] and [`matched`] agree. The prices may be in any order.
pub proof fn lemma_walk_finds_matched<V>(
    allocations: Seq<AllocationRecord<V>>,
    prices: Seq<Snp500Record<V>>,
)
    requires
        ascending(allocation_days(allocations)),
    ensures
        aligned(allocations, prices) == matched(allocations, prices),
{
    if prices.len() == 0 {
        lemma_none_matched(allocations, prices);
    } else {
        let days = allocation_days(allocations);
        let start = first_not_before(days, 0, prices[0].date@);
        lemma_first_not_before(days, 0, prices[0].date@);
        let skipped = allocations.subrange(0, start);
        let rest = allocations.subrange(start, allocations.len() as int);
        assert forall|i: int| 0 <= i < skipped.len() implies match_of(
            #[trigger] skipped[i],
            prices,
        ) is None by {
            assert(days[i].is_before(prices[0].date@));
        }
        lemma_none_matched(skipped, prices);
        lemma_walk_from(allocations, prices, start, 0);
        assert(allocations =~= skipped + rest);
        lemma_filter_map_concat(skipped, rest, matching(prices));
    }
}

/// Whether every pair is an observation of `allocations` with a price of
/// `prices`.
pub open spec fn pairs_come_from<V>(
    pairs: Seq<AlignedPair<V>>,
    allocations: Seq<AllocationRecord<V>>,
    prices: Seq<Snp500Record<V>>,
) -> bool {
    forall|k: int|
        0 <= k < pairs.len() ==> exists|i: int, j: int|
            0 <= i < allocations.len() && 0 <= j < prices.len() && #[trigger] pairs[k]
                == pair_of(allocations[i], prices[j])
}

/// Every pair that the walk gives is an observation with a price.
proof fn lemma_walk_pairs_come_from<V>(
    allocations: Seq<AllocationRecord<V>>,
    prices: Seq<Snp500Record<V>>,
    from: int,
    cursor: int,
)
    requires
        0 <= from,
        0 <= cursor <= prices.len(),
    ensures
        pairs_come_from(walk(allocations, prices, from, cursor), allocations, prices),
    decreases allocations.len() - from,
{
    if from < allocations.len() {
        let stop = first_not_before(price_days(prices), cursor, allocations[from].date@);
        lemma_first_not_before(price_days(prices), cursor, allocations[from].date@);
        lemma_walk_pairs_come_from(allocations, prices, from + 1, stop);
        let later = walk(allocations, prices, from + 1, stop);
        let pairs = walk(allocations, prices, from, cursor);
        if stop < prices.len() {
            assert forall|k: int| 0 <= k < pairs.len() implies exists|i: int, j: int|
                0 <= i < allocations.len() && 0 <= j < prices.len() && #[trigger] pairs[k]
                    == pair_of(allocations[i], prices[j]) by {
                if k == 0 {
                    assert(pairs[0] == pair_of(allocations[from], prices[stop]));
                } else {
                    assert(pairs[k] == later[k - 1]);
                }
            }
        }
    }
}

/// Whatever the order of the inputs, every pair of [`aligned`] is one of the
/// observations with one of the prices.
pub proof fn lemma_aligned_pairs_come_from<V>(
    allocations: Seq<AllocationRecord<V>>,
    prices: Seq<Snp500Record<V>>,
)
    ensures
        pairs_come_from(aligned(allocations, prices), allocations, prices),
{
    if prices.len() > 0 {
        let start = first_not_before(allocation_days(allocations), 0, prices[0].date@);
        lemma_first_not_before(allocation_days(allocations), 0, prices[0].date@);
        lemma_walk_pairs_come_from(allocations, prices, start, 0);
    }
}

/// An observation on the day of a price is matched to that price, where the
/// prices are in strictly ascending order; and its pair is among the matched
/// pairs of a series that holds the observation.
pub proof fn lemma_same_day_price_is_matched<V>(
    allocations: Seq<AllocationRecord<V>>,
    prices: Seq<Snp500Record<V>>,
    i: int,
    j: int,
)
    requires
        strictly_ascending(price_days(prices)),
        0 <= i < allocations.len(),
        0 <= j < prices.len(),
        allocations[i].date@ == prices[j].date@,
    ensures
        match_of(allocations[i], prices) == Some(pair_of(allocations[i], prices[j])),
        matched(allocations, prices).contains(pair_of(allocations[i], prices[j])),
{
    let days = price_days(prices);
    let day = allocations[i].date@;
    assert forall|k: int| 0 <= k < j implies (#[trigger] days[k]).is_before(day) by {
        assert(days[k].is_before(days[j]));
    }
    lemma_first_not_before_skips(days, 0, j, day);
    assert(!days[j].is_before(day));
    if j > 0 {
        assert(days[0].is_before(days[j]));
    }
    let sources = lemma_filter_map_selects(allocations, matching(prices));
    let k = choose|k: int| 0 <= k < sources.len() && #[trigger] sources[k] == i;
    assert(matched(allocations, prices)[k] == pair_of(allocations[i], prices[j]));
}

/// An observation that comes before the first price has no match.
pub proof fn lemma_before_first_price_unmatched<V>(
    allocation: AllocationRecord<V>,
    prices: Seq<Snp500Record<V>>,
)
    requires
        prices.len() > 0,
        allocation.date@.is_before(prices[0].date@),
    ensures
        match_of(allocation, prices) is None,
{
}

/// An observation that comes after the last price has no match, where the
/// prices are in ascending order.
pub proof fn lemma_after_last_price_unmatched<V>(
    allocation: AllocationRecord<V>,
    prices: Seq<Snp500Record<V>>,
)
    requires
        ascending(price_days(prices)),
        prices.len() > 0,
        prices.last().date@.is_before(allocation.date@),
    ensures
        match_of(allocation, prices) is None,
{
    let days = price_days(prices);
    let first = first_not_before(days, 0, allocation.date@);
    lemma_first_not_before(days, 0, allocation.date@);
    if first < prices.len() {
        assert(!days[prices.len() - 1].is_before(days[first]));
    }
}

/// Against prices in ascending order, an observation has a match exactly
/// when its day lies from the first price to the last.
pub proof fn lemma_matched_iff_within_prices<V>(
    allocation: AllocationRecord<V>,
    prices: Seq<Snp500Record<V>>,
)
    requires
        ascending(price_days(prices)),
        prices.len() > 0,
    ensures
        match_of(allocation, prices) is Some <==> !allocation.date@.is_before(prices[0].date@)
            && !prices.last().date@.is_before(allocation.date@),
{
    let days = price_days(prices);
    let first = first_not_before(days, 0, allocation.date@);
    lemma_first_not_before(days, 0, allocation.date@);
    if first < prices.len() {
        assert(!days[prices.len() - 1].is_before(days[first]));
    } else {
        assert(days[prices.len() - 1].is_before(allocation.date@));
    }
}

/// No matched pair is of an observation before the first price; and, where
/// the prices are in ascending order, none is of one after the last price.
pub proof fn lemma_matched_days_within_prices<V>(
    allocations: Seq<AllocationRecord<V>>,
    prices: Seq<Snp500Record<V>>,
)
    ensures
        forall|k: int|
            0 <= k < matched(allocations, prices).len() ==> !(#[trigger] pair_days(
                matched(allocations, prices),
            )[k]).is_before(prices[0].date@),
        ascending(price_days(prices)) ==> forall|k: int|
            0 <= k < matched(allocations, prices).len() ==> !prices.last().date@.is_before(
                #[trigger] pair_days(matched(allocations, prices))[k],
            ),
{
    let pairs = matched(allocations, prices);
    let sources = lemma_filter_map_selects(allocations, matching(prices));
    assert forall|k: int| 0 <= k < pairs.len() implies !(#[trigger] pair_days(pairs)[k]).is_before(
        prices[0].date@,
    ) by {
        assert(match_of(allocations[sources[k]], prices) == Some(pairs[k]));
    }
    if ascending(price_days(prices)) {
        assert forall|k: int| 0 <= k < pairs.len() implies !prices.last().date@.is_before(
            #[trigger] pair_days(pairs)[k],
        ) by {
            assert(match_of(allocations[sources[k]], prices) == Some(pairs[k]));
            lemma_matched_iff_within_prices(allocations[sources[k]], prices);
        }
    }
}

/// The matched pairs are in the order of their observations: ascending where
/// the observations are, and strictly so where those are.
pub proof fn lemma_matched_keeps_order<V>(
    allocations: Seq<AllocationRecord<V>>,
    prices: Seq<Snp500Record<V>>,
)
    ensures
        ascending(allocation_days(allocations)) ==> ascending(
            pair_days(matched(allocations, prices)),
        ),
        strictly_ascending(allocation_days(allocations)) ==> strictly_ascending(
            pair_days(matched(allocations, prices)),
        ),
{
    let pairs = matched(allocations, prices);
    let days = allocation_days(allocations);
    let sources = lemma_filter_map_selects(allocations, matching(prices));
    assert forall|k: int| 0 <= k < pairs.len() implies #[trigger] pair_days(pairs)[k]
        == days[sources[k]] by {
        assert(match_of(allocations[sources[k]], prices) == Some(pairs[k]));
    }
    if ascending(days) {
        assert forall|k: int, l: int| 0 <= k < l < pairs.len() implies !(#[trigger] pair_days(
            pairs,
        )[l]).is_before(#[trigger] pair_days(pairs)[k]) by {
            assert(!days[sources[l]].is_before(days[sources[k]]));
        }
    }
    if strictly_ascending(days) {
        assert forall|k: int, l: int| 0 <= k < l < pairs.len() implies (#[trigger] pair_days(
            pairs,
        )[k]).is_before(#[trigger] pair_days(pairs)[l]) by {
            assert(days[sources[k]].is_before(days[sources[l]]));
        }
    }
}


/// Matches each allocation observation to the first price that is not
/// before it.
///
/// Both series are meant to be in ascending order of date. The result is then
/// [`matched`]: one pair for each observation that is not before the first
/// price and has a price on or after its day, in the order of the
/// observations. The pass is linear in the two lengths; [`aligned`] says what
/// it gives on any input.
pub fn align<V: Copy>(allocations: &[AllocationRecord<V>], prices: &[Snp500Record<V>]) -> (pairs:
    Vec<AlignedPair<V>>)
    ensures
        pairs@ == aligned(allocations@, prices@),
        ascending(allocation_days(allocations@)) ==> pairs@ == matched(allocations@, prices@),
{
    let mut pairs: Vec<AlignedPair<V>> = Vec::new();
    if prices.len() == 0 {
        proof {
            if ascending(allocation_days(allocations@)) {
                lemma_walk_finds_matched(allocations@, prices@);
            }
        }
        return pairs;
    }
    let first_day = prices[0].date;
    let mut i: usize = 0;
    while i < allocations.len() && allocations[i].date.is_before(&first_day)
        invariant
            i <= allocations@.len(),
            first_not_before(allocation_days(allocations@), i as int, first_day@)
                == first_not_before(allocation_days(allocations@), 0, first_day@),
        decreases allocations@.len() - i,
    {
        i += 1;
    }
    let mut cursor: usize = 0;
    while i < allocations.len()
        invariant
            i <= allocations@.len(),
            cursor <= prices@.len(),
            aligned(allocations@, prices@) == pairs@ + walk(
                allocations@,
                prices@,
                i as int,
                cursor as int,
            ),
        decreases allocations@.len() - i,
    {
        let day = allocations[i].date;
        let ghost passed = cursor;
        while cursor < prices.len() && prices[cursor].date.is_before(&day)
            invariant
                cursor <= prices@.len(),
                first_not_before(price_days(prices@), cursor as int, day@) == first_not_before(
                    price_days(prices@),
                    passed as int,
                    day@,
                ),
            decreases prices@.len() - cursor,
        {
            cursor += 1;
        }
        let ghost later = walk(allocations@, prices@, i + 1, cursor as int);
        if cursor < prices.len() {
            let pair = AlignedPair {
                allocation_date: day,
                allocation: allocations[i].allocation,
                matched_price: prices[cursor].closing_price,
            };
            assert(pairs@.push(pair) + later =~= pairs@ + (seq![pair] + later));
            pairs.push(pair);
        }
        i += 1;
    }
    proof {
        assert(pairs@ + Seq::<AlignedPair<V>>::empty() =~= pairs@);
        if ascending(allocation_days(allocations@)) {
            lemma_walk_finds_matched(allocations@, prices@);
        }
    }
    pairs
}

} // verus!
