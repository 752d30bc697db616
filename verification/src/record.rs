//! The observations that go in and the records that come out.
//!
//! Every record is generic over `V`, the type of its ratios and prices. The
//! library only carries such values from input to output; it never looks
//! inside one.

use crate::date::{Date, Ymd};
use vstd::prelude::*;

verus! {

/// The share of stocks in household financial assets, observed on a day.
#[derive(Debug, PartialEq)]
pub struct AllocationRecord<V> {
    pub date: Date,
    pub allocation: V,
}

/// The closing price of the index on a trading day.
#[derive(Debug, PartialEq)]
pub struct Snp500Record<V> {
    pub date: Date,
    pub closing_price: V,
}

/// An allocation observation together with the price it was matched to.
#[derive(Debug, PartialEq)]
pub struct AlignedPair<V> {
    pub allocation_date: Date,
    pub allocation: V,
    pub matched_price: V,
}

/// An aligned pair, dated at the day its forecast is for. The return that
/// the index then really had is not known when the record is made.
#[derive(Debug, PartialEq)]
pub struct CombinedRecord<V> {
    pub date: Date,
    pub stock_allocation: V,
    pub snp500_price: V,
    pub snp500_return: Option<V>,
}

/// A forecast: the price on the day of the observation, the yearly return
/// predicted from the allocation, and the price predicted for `date`.
#[derive(Debug, PartialEq)]
pub struct PredictionRecord<V> {
    pub date: Date,
    pub snp500_price: V,
    pub snp500_return_predicted: V,
    pub snp500_price_predicted: V,
}

/// The days of a series of allocation observations, in order.
pub open spec fn allocation_days<V>(allocations: Seq<AllocationRecord<V>>) -> Seq<Ymd> {
    Seq::new(allocations.len(), |i: int| allocations[i].date@)
}

/// The days of a series of prices, in order.
pub open spec fn price_days<V>(prices: Seq<Snp500Record<V>>) -> Seq<Ymd> {
    Seq::new(prices.len(), |i: int| prices[i].date@)
}

/// The days of the observations behind a sequence of aligned pairs.
pub open spec fn pair_days<V>(pairs: Seq<AlignedPair<V>>) -> Seq<Ymd> {
    Seq::new(pairs.len(), |i: int| pairs[i].allocation_date@)
}

/// The days that a sequence of combined records is dated at.
pub open spec fn combined_days<V>(records: Seq<CombinedRecord<V>>) -> Seq<Ymd> {
    Seq::new(records.len(), |i: int| records[i].date@)
}

/// The days that a sequence of forecasts is dated at.
pub open spec fn prediction_days<V>(records: Seq<PredictionRecord<V>>) -> Seq<Ymd> {
    Seq::new(records.len(), |i: int| records[i].date@)
}

/// No day of the sequence comes before an earlier one.
pub open spec fn ascending(days: Seq<Ymd>) -> bool {
    forall|i: int, j: int| 0 <= i < j < days.len() ==> !#[trigger] days[j].is_before(#[trigger] days[i])
}

/// Every day of the sequence comes after all earlier ones: ascending, and no
/// day occurs twice.
pub open spec fn strictly_ascending(days: Seq<Ymd>) -> bool {
    forall|i: int, j: int| 0 <= i < j < days.len() ==> #[trigger] days[i].is_before(#[trigger] days[j])
}

} // verus!
