//! Projecting aligned pairs ten years ahead.
//!
//! A pair observed on some day becomes a record dated at the same month and
//! day ten years later. Where that day does not exist, as for every February
//! 29, or lies beyond the last year of the calendar, the pair is left out;
//! nothing else can go wrong.

use crate::align::{
    align, aligned, lemma_aligned_pairs_come_from, lemma_matched_keeps_order, matched, pair_of,
};
use crate::date::{Date, MAX_YEAR};
use crate::record::{
    allocation_days, ascending, combined_days, pair_days, prediction_days, strictly_ascending,
    AlignedPair, AllocationRecord, CombinedRecord, PredictionRecord, Snp500Record,
};
use crate::select::{filter_map, lemma_filter_map_push, lemma_filter_map_selects};
use vstd::prelude::*;

verus! {

/// How many years ahead of its observation a forecast is dated.
pub const FORECAST_YEARS: i32 = 10;

/// The day that a forecast from an observation on `date` is for.
pub open spec fn forecast_date(date: Date) -> Option<Date> {
    date.in_year(date@.year + FORECAST_YEARS)
}

/// The record that `pair` is combined into, if its forecast has a day.
pub open spec fn combined_of<V>(pair: AlignedPair<V>) -> Option<CombinedRecord<V>> {
    match forecast_date(pair.allocation_date) {
        Some(date) => Some(
            CombinedRecord {
                date,
                stock_allocation: pair.allocation,
                snp500_price: pair.matched_price,
                snp500_return: None,
            },
        ),
        None => None,
    }
}

/// [`combined_of`] as a function value.
pub open spec fn combining<V>() -> spec_fn(AlignedPair<V>) -> Option<CombinedRecord<V>> {
    |pair: AlignedPair<V>| combined_of(pair)
}

/// The combined records of all pairs whose forecast has a day, in the order
/// of the pairs.
pub open spec fn combined<V>(pairs: Seq<AlignedPair<V>>) -> Seq<CombinedRecord<V>> {
    filter_map(pairs, combining())
}

/// Whether `records` are forecasts for `combined`, one for one and in the
/// same order, under the two functions of the return model: each forecast has
/// the date and the price of its combined record, a predicted return that
/// `allocation_to_return` gives on the allocation, and a predicted price that
/// `price_in_10y` gives on the price and that return.
pub open spec fn predicts<V, R: Fn(V) -> V, C: Fn(V, V) -> V>(
    records: Seq<PredictionRecord<V>>,
    combined: Seq<CombinedRecord<V>>,
    allocation_to_return: R,
    price_in_10y: C,
) -> bool {
    &&& records.len() == combined.len()
    &&& forall|k: int|
        0 <= k < records.len() ==> {
            let record = #[trigger] records[k];
            &&& record.date == combined[k].date
            &&& record.snp500_price == combined[k].snp500_price
            &&& allocation_to_return.ensures(
                (combined[k].stock_allocation,),
                record.snp500_return_predicted,
            )
            &&& price_in_10y.ensures(
                (record.snp500_price, record.snp500_return_predicted),
                record.snp500_price_predicted,
            )
        }
}

/// Whether the return model can be called on every pair: the first function
/// on the allocation, the second on the price and on whatever the first
/// returned.
pub open spec fn model_accepts<V, R: Fn(V) -> V, C: Fn(V, V) -> V>(
    pairs: Seq<AlignedPair<V>>,
    allocation_to_return: R,
    price_in_10y: C,
) -> bool {
    forall|i: int|
        0 <= i < pairs.len() ==> {
            let pair = #[trigger] pairs[i];
            &&& allocation_to_return.requires((pair.allocation,))
            &&& forall|predicted: V|
                allocation_to_return.ensures((pair.allocation,), predicted)
                    ==> price_in_10y.requires((pair.matched_price, predicted))
        }
}

/// Returns the day that a forecast from an observation on `date` is for: the
/// same month and day ten years later, or `None` where that day does not
/// exist or lies beyond [`MAX_YEAR`].
pub fn forecast_day(date: &Date) -> (day: Option<Date>)
    ensures
        day == forecast_date(*date),
        day is Some <==> !(date@.month == 2 && date@.day == 29) && date@.year + FORECAST_YEARS
            <= MAX_YEAR,
        day matches Some(shifted) ==> shifted@ == date@.in_year(date@.year + FORECAST_YEARS),
{
    date.with_year(date.year() + FORECAST_YEARS)
}

/// Dates each pair ten years ahead, and leaves out the pairs that have no
/// such day.
pub fn combine<V: Copy>(pairs: &[AlignedPair<V>]) -> (records: Vec<CombinedRecord<V>>)
    ensures
        records@ == combined(pairs@),
{
    let mut records: Vec<CombinedRecord<V>> = Vec::new();
    let mut i: usize = 0;
    while i < pairs.len()
        invariant
            i <= pairs@.len(),
            records@ == combined(pairs@.take(i as int)),
        decreases pairs@.len() - i,
    {
        proof {
            assert(pairs@.take(i + 1) =~= pairs@.take(i as int).push(pairs@[i as int]));
            lemma_filter_map_push(pairs@.take(i as int), pairs@[i as int], combining());
        }
        let pair = &pairs[i];
        match forecast_day(&pair.allocation_date) {
            Some(date) => {
                records.push(
                    CombinedRecord {
                        date,
                        stock_allocation: pair.allocation,
                        snp500_price: pair.matched_price,
                        snp500_return: None,
                    },
                );
            },
            None => {},
        }
        i += 1;
    }
    assert(pairs@.take(i as int) =~= pairs@);
    records
}

/// Turns each pair into a forecast: the predicted return comes from the
/// allocation, the predicted price from the matched price and that return,
/// and the date lies ten years ahead. Pairs that have no such day are left
/// out.
///
/// The two functions of the return model are the caller's, and must accept
/// what every pair hands them.
pub fn project<V: Copy, R: Fn(V) -> V, C: Fn(V, V) -> V>(
    pairs: &[AlignedPair<V>],
    allocation_to_return: R,
    price_in_10y: C,
) -> (records: Vec<PredictionRecord<V>>)
    requires
        model_accepts(pairs@, allocation_to_return, price_in_10y),
    ensures
        predicts(records@, combined(pairs@), allocation_to_return, price_in_10y),
{
    let mut records: Vec<PredictionRecord<V>> = Vec::new();
    let mut i: usize = 0;
    while i < pairs.len()
        invariant
            i <= pairs@.len(),
            model_accepts(pairs@, allocation_to_return, price_in_10y),
            predicts(
                records@,
                combined(pairs@.take(i as int)),
                allocation_to_return,
                price_in_10y,
            ),
        decreases pairs@.len() - i,
    {
        proof {
            assert(pairs@.take(i + 1) =~= pairs@.take(i as int).push(pairs@[i as int]));
            lemma_filter_map_push(pairs@.take(i as int), pairs@[i as int], combining());
        }
        let pair = &pairs[i];
        let snp500_return_predicted = allocation_to_return(pair.allocation);
        let snp500_price_predicted = price_in_10y(pair.matched_price, snp500_return_predicted);
        match forecast_day(&pair.allocation_date) {
            Some(date) => {
                records.push(
                    PredictionRecord {
                        date,
                        snp500_price: pair.matched_price,
                        snp500_return_predicted,
                        snp500_price_predicted,
                    },
                );
            },
            None => {},
        }
        i += 1;
    }
    assert(pairs@.take(i as int) =~= pairs@);
    records
}

/// Whether the return model can be called on every allocation and, with
/// whatever it returns for one, on every price.
pub open spec fn model_accepts_series<V, R: Fn(V) -> V, C: Fn(V, V) -> V>(
    allocations: Seq<AllocationRecord<V>>,
    prices: Seq<Snp500Record<V>>,
    allocation_to_return: R,
    price_in_10y: C,
) -> bool {
    forall|i: int|
        0 <= i < allocations.len() ==> {
            let allocation = #[trigger] allocations[i];
            &&& allocation_to_return.requires((allocation.allocation,))
            &&& forall|j: int, predicted: V|
                0 <= j < prices.len() && allocation_to_return.ensures(
                    (allocation.allocation,),
                    predicted,
                ) ==> #[trigger] price_in_10y.requires((prices[j].closing_price, predicted))
        }
}

/// Aligns the two series and dates each pair ten years ahead.
///
/// Both series are meant to be in ascending order of date. There is then one
/// record for each observation that lies from the first price to the last and
/// is not dated February 29, in the order of the observations, with the first
/// price that is not before the observation.
pub fn combined_records<V: Copy>(
    allocations: &[AllocationRecord<V>],
    snp500: &[Snp500Record<V>],
) -> (records: Vec<CombinedRecord<V>>)
    ensures
        records@ == combined(aligned(allocations@, snp500@)),
        ascending(allocation_days(allocations@)) ==> records@ == combined(
            matched(allocations@, snp500@),
        ),
{
    let pairs = align(allocations, snp500);
    combine(pairs.as_slice())
}

/// Aligns the two series and turns each pair into a forecast for the day ten
/// years ahead, with the return model that the caller hands in.
///
/// The forecasts stand one for one beside the records of
/// [`combined_records`]: same dates, same prices, same order.
pub fn prediction_records<V: Copy, R: Fn(V) -> V, C: Fn(V, V) -> V>(
    allocations: &[AllocationRecord<V>],
    snp500: &[Snp500Record<V>],
    allocation_to_return: R,
    price_in_10y: C,
) -> (records: Vec<PredictionRecord<V>>)
    requires
        model_accepts_series(allocations@, snp500@, allocation_to_return, price_in_10y),
    ensures
        predicts(
            records@,
            combined(aligned(allocations@, snp500@)),
            allocation_to_return,
            price_in_10y,
        ),
        ascending(allocation_days(allocations@)) ==> predicts(
            records@,
            combined(matched(allocations@, snp500@)),
            allocation_to_return,
            price_in_10y,
        ),
{
    let pairs = align(allocations, snp500);
    proof {
        lemma_aligned_pairs_come_from(allocations@, snp500@);
        assert forall|k: int| 0 <= k < pairs@.len() implies {
            let pair = #[trigger] pairs@[k];
            &&& allocation_to_return.requires((pair.allocation,))
            &&& forall|predicted: V|
                allocation_to_return.ensures((pair.allocation,), predicted)
                    ==> price_in_10y.requires((pair.matched_price, predicted))
        } by {
            let (i, j) = choose|i: int, j: int|
                0 <= i < allocations@.len() && 0 <= j < snp500@.len() && pairs@[k] == pair_of(
                    allocations@[i],
                    snp500@[j],
                );
            let allocation = allocations@[i];
            assert(allocation_to_return.requires((allocation.allocation,)));
            assert forall|predicted: V|
                allocation_to_return.ensures(
                    (allocation.allocation,),
                    predicted,
                ) implies price_in_10y.requires((snp500@[j].closing_price, predicted)) by {}
        }
    }
    project(pairs.as_slice(), allocation_to_return, price_in_10y)
}

/// A forecast has a day exactly when the observation is not dated February
/// 29 and ten years on is a year that a date can lie in; the day is then the
/// same month and day, ten years later. A February 29 never has one: ten
/// years after a leap year is no leap year.
pub proof fn lemma_forecast_date(date: Date)
    requires
        date@.is_calendar_date(),
    ensures
        forecast_date(date) is Some <==> !(date@.month == 2 && date@.day == 29) && date@.year
            + FORECAST_YEARS <= MAX_YEAR,
        forecast_date(date) matches Some(day) ==> day@ == date@.in_year(
            date@.year + FORECAST_YEARS,
        ),
{
    date.lemma_in_year(date@.year + FORECAST_YEARS);
}

/// The combined records are in the order of their pairs: ascending where the
/// pairs are, and strictly so where those are.
pub proof fn lemma_combined_keeps_order<V>(pairs: Seq<AlignedPair<V>>)
    ensures
        ascending(pair_days(pairs)) ==> ascending(combined_days(combined(pairs))),
        strictly_ascending(pair_days(pairs)) ==> strictly_ascending(
            combined_days(combined(pairs)),
        ),
{
    let records = combined(pairs);
    let days = pair_days(pairs);
    let sources = lemma_filter_map_selects(pairs, combining());
    assert forall|k: int| 0 <= k < records.len() implies #[trigger] combined_days(records)[k]
        == days[sources[k]].in_year(days[sources[k]].year + FORECAST_YEARS) by {
        let pair = pairs[sources[k]];
        assert(combined_of(pair) == Some(records[k]));
        pair.allocation_date.lemma_in_year(pair.allocation_date@.year + FORECAST_YEARS);
    }
    if ascending(days) {
        assert forall|k: int, l: int| 0 <= k < l < records.len() implies !(
        #[trigger] combined_days(records)[l]).is_before(#[trigger] combined_days(records)[k]) by {
            assert(!days[sources[l]].is_before(days[sources[k]]));
        }
    }
    if strictly_ascending(days) {
        assert forall|k: int, l: int| 0 <= k < l < records.len() implies (
        #[trigger] combined_days(records)[k]).is_before(#[trigger] combined_days(records)[l]) by {
            assert(days[sources[k]].is_before(days[sources[l]]));
        }
    }
}

/// The records of two series in ascending order are themselves in ascending
/// order of date, and strictly so where the observations are: what comes out
/// keeps the order of what went in.
pub proof fn lemma_records_keep_order<V>(
    allocations: Seq<AllocationRecord<V>>,
    prices: Seq<Snp500Record<V>>,
)
    ensures
        ascending(allocation_days(allocations)) ==> ascending(
            combined_days(combined(matched(allocations, prices))),
        ),
        strictly_ascending(allocation_days(allocations)) ==> strictly_ascending(
            combined_days(combined(matched(allocations, prices))),
        ),
{
    lemma_matched_keeps_order(allocations, prices);
    lemma_combined_keeps_order(matched(allocations, prices));
}

/// Aligning and combining the same two series again gives the same records:
/// what [`combined_records`] returns depends on the series alone.
pub proof fn lemma_records_agree<V>(
    allocations: Seq<AllocationRecord<V>>,
    prices: Seq<Snp500Record<V>>,
    first: Seq<CombinedRecord<V>>,
    second: Seq<CombinedRecord<V>>,
)
    requires
        first == combined(aligned(allocations, prices)),
        second == combined(aligned(allocations, prices)),
    ensures
        first == second,
{
}

/// Forecasts are dated as the combined records that they stand beside.
pub proof fn lemma_predictions_dated_as_combined<V, R: Fn(V) -> V, C: Fn(V, V) -> V>(
    records: Seq<PredictionRecord<V>>,
    combined: Seq<CombinedRecord<V>>,
    allocation_to_return: R,
    price_in_10y: C,
)
    requires
        predicts(records, combined, allocation_to_return, price_in_10y),
    ensures
        prediction_days(records) == combined_days(combined),
{
    assert forall|k: int| 0 <= k < records.len() implies prediction_days(records)[k]
        == combined_days(combined)[k] by {
        assert(records[k].date == combined[k].date);
    }
    assert(prediction_days(records) =~= combined_days(combined));
}

/// Whether a function of one argument returns one value only on each
/// argument.
pub open spec fn return_is_single_valued<V, R: Fn(V) -> V>(f: R) -> bool {
    forall|a: V, first: V, second: V|
        #![trigger f.ensures((a,), first), f.ensures((a,), second)]
        f.ensures((a,), first) && f.ensures((a,), second) ==> first == second
}

/// Whether a function of two arguments returns one value only on each pair
/// of arguments.
pub open spec fn price_is_single_valued<V, C: Fn(V, V) -> V>(f: C) -> bool {
    forall|a: V, b: V, first: V, second: V|
        #![trigger f.ensures((a, b), first), f.ensures((a, b), second)]
        f.ensures((a, b), first) && f.ensures((a, b), second) ==> first == second
}

/// Running the forecast again gives the same records: two results for the
/// same combined records are equal, where each function of the return model
/// returns one value only on each argument.
pub proof fn lemma_predictions_agree<V, R: Fn(V) -> V, C: Fn(V, V) -> V>(
    first: Seq<PredictionRecord<V>>,
    second: Seq<PredictionRecord<V>>,
    combined: Seq<CombinedRecord<V>>,
    allocation_to_return: R,
    price_in_10y: C,
)
    requires
        predicts(first, combined, allocation_to_return, price_in_10y),
        predicts(second, combined, allocation_to_return, price_in_10y),
        return_is_single_valued(allocation_to_return),
        price_is_single_valued(price_in_10y),
    ensures
        first == second,
{
    assert forall|k: int| 0 <= k < first.len() implies first[k] == second[k] by {
        let a = first[k];
        let b = second[k];
        assert(a.date == b.date);
        assert(a.snp500_return_predicted == b.snp500_return_predicted);
        assert(a.snp500_price_predicted == b.snp500_price_predicted);
    }
    assert(first =~= second);
}

} // verus!
