use greatest_predictor::align::align;
use greatest_predictor::date::Date;
use greatest_predictor::record::{AlignedPair, AllocationRecord, Snp500Record};

fn day(year: i32, month: u32, day: u32) -> Date {
    Date::new(year, month, day).unwrap()
}

fn allocation(date: Date, allocation: f64) -> AllocationRecord<f64> {
    AllocationRecord { date, allocation }
}

fn price(date: Date, closing_price: f64) -> Snp500Record<f64> {
    Snp500Record { date, closing_price }
}

fn pair(allocation_date: Date, allocation: f64, matched_price: f64) -> AlignedPair<f64> {
    AlignedPair { allocation_date, allocation, matched_price }
}

fn quarterly_prices() -> Vec<Snp500Record<f64>> {
    vec![
        price(day(2020, 2, 1), 100.0),
        price(day(2020, 5, 1), 110.0),
        price(day(2020, 8, 1), 120.0),
    ]
}

#[test]
fn quarterly_observations_take_the_next_price() {
    let allocations = vec![
        allocation(day(2020, 1, 1), 0.30),
        allocation(day(2020, 4, 1), 0.35),
        allocation(day(2020, 7, 1), 0.40),
    ];
    let pairs = align(&allocations, &quarterly_prices());
    // 2020-01-01 lies before the first price and is left out.
    assert_eq!(
        pairs,
        vec![pair(day(2020, 4, 1), 0.35, 110.0), pair(day(2020, 7, 1), 0.40, 120.0)]
    );
}

#[test]
fn observation_on_the_day_of_a_price_takes_that_price() {
    let allocations = vec![allocation(day(2020, 5, 1), 0.33)];
    let pairs = align(&allocations, &quarterly_prices());
    assert_eq!(pairs, vec![pair(day(2020, 5, 1), 0.33, 110.0)]);
}

#[test]
fn observation_on_the_day_of_the_first_price_is_kept() {
    let allocations = vec![allocation(day(2020, 2, 1), 0.33)];
    let pairs = align(&allocations, &quarterly_prices());
    assert_eq!(pairs, vec![pair(day(2020, 2, 1), 0.33, 100.0)]);
}

#[test]
fn observation_on_the_day_of_the_last_price_is_kept() {
    let allocations = vec![allocation(day(2020, 8, 1), 0.33)];
    let pairs = align(&allocations, &quarterly_prices());
    assert_eq!(pairs, vec![pair(day(2020, 8, 1), 0.33, 120.0)]);
}

#[test]
fn observations_before_the_first_price_are_dropped() {
    let allocations = vec![
        allocation(day(2019, 10, 1), 0.20),
        allocation(day(2020, 1, 31), 0.25),
        allocation(day(2020, 2, 2), 0.30),
    ];
    let pairs = align(&allocations, &quarterly_prices());
    assert_eq!(pairs, vec![pair(day(2020, 2, 2), 0.30, 110.0)]);
}

#[test]
fn observations_after_the_last_price_are_dropped() {
    let allocations = vec![
        allocation(day(2020, 7, 31), 0.30),
        allocation(day(2020, 8, 2), 0.35),
        allocation(day(2021, 1, 1), 0.40),
    ];
    let pairs = align(&allocations, &quarterly_prices());
    assert_eq!(pairs, vec![pair(day(2020, 7, 31), 0.30, 120.0)]);
}

#[test]
fn no_prices_give_no_pairs() {
    let allocations = vec![allocation(day(2020, 4, 1), 0.35)];
    let prices: Vec<Snp500Record<f64>> = Vec::new();
    assert_eq!(align(&allocations, &prices), Vec::new());
}

#[test]
fn no_observations_give_no_pairs() {
    let allocations: Vec<AllocationRecord<f64>> = Vec::new();
    assert_eq!(align(&allocations, &quarterly_prices()), Vec::new());
}

#[test]
fn several_observations_can_share_a_price() {
    let allocations = vec![
        allocation(day(2020, 2, 10), 0.31),
        allocation(day(2020, 3, 10), 0.32),
        allocation(day(2020, 4, 10), 0.33),
    ];
    let pairs = align(&allocations, &quarterly_prices());
    assert_eq!(
        pairs,
        vec![
            pair(day(2020, 2, 10), 0.31, 110.0),
            pair(day(2020, 3, 10), 0.32, 110.0),
            pair(day(2020, 4, 10), 0.33, 110.0),
        ]
    );
}

#[test]
fn daily_prices_between_observations_are_passed_over() {
    let prices = vec![
        price(day(2020, 1, 2), 10.0),
        price(day(2020, 1, 3), 11.0),
        price(day(2020, 1, 6), 12.0),
        price(day(2020, 3, 31), 13.0),
        price(day(2020, 4, 1), 14.0),
        price(day(2020, 4, 2), 15.0),
    ];
    let allocations = vec![
        allocation(day(2020, 1, 4), 0.30),
        allocation(day(2020, 4, 1), 0.35),
    ];
    let pairs = align(&allocations, &prices);
    assert_eq!(
        pairs,
        vec![pair(day(2020, 1, 4), 0.30, 12.0), pair(day(2020, 4, 1), 0.35, 14.0)]
    );
}

#[test]
fn pairs_keep_the_order_of_the_observations() {
    let allocations = vec![
        allocation(day(2020, 2, 1), 0.1),
        allocation(day(2020, 3, 1), 0.2),
        allocation(day(2020, 5, 1), 0.3),
        allocation(day(2020, 6, 1), 0.4),
        allocation(day(2020, 8, 1), 0.5),
    ];
    let pairs = align(&allocations, &quarterly_prices());
    assert_eq!(pairs.len(), 5);
    for k in 1..pairs.len() {
        assert!(pairs[k - 1].allocation_date.is_before(&pairs[k].allocation_date));
    }
    let carried: Vec<f64> = pairs.iter().map(|p| p.allocation).collect();
    assert_eq!(carried, vec![0.1, 0.2, 0.3, 0.4, 0.5]);
}

#[test]
fn the_cursor_never_moves_back() {
    // The observations are out of order: the second comes before the first.
    // The price cursor stays where the first observation left it.
    let allocations = vec![
        allocation(day(2020, 6, 1), 0.40),
        allocation(day(2020, 3, 1), 0.35),
    ];
    let pairs = align(&allocations, &quarterly_prices());
    assert_eq!(
        pairs,
        vec![pair(day(2020, 6, 1), 0.40, 120.0), pair(day(2020, 3, 1), 0.35, 120.0)]
    );
}

#[test]
fn only_leading_observations_are_skipped_when_out_of_order() {
    let allocations = vec![
        allocation(day(2020, 1, 1), 0.30),
        allocation(day(2020, 6, 1), 0.40),
        allocation(day(2020, 1, 15), 0.35),
    ];
    let pairs = align(&allocations, &quarterly_prices());
    assert_eq!(
        pairs,
        vec![pair(day(2020, 6, 1), 0.40, 120.0), pair(day(2020, 1, 15), 0.35, 120.0)]
    );
}

#[test]
fn once_the_prices_run_out_nothing_more_is_matched() {
    let allocations = vec![
        allocation(day(2020, 9, 1), 0.40),
        allocation(day(2020, 3, 1), 0.35),
    ];
    assert_eq!(align(&allocations, &quarterly_prices()), Vec::new());
}

#[test]
fn aligning_twice_gives_the_same_pairs() {
    let allocations = vec![
        allocation(day(2020, 1, 1), 0.30),
        allocation(day(2020, 4, 1), 0.35),
        allocation(day(2020, 7, 1), 0.40),
        allocation(day(2020, 10, 1), 0.45),
    ];
    let prices = quarterly_prices();
    assert_eq!(align(&allocations, &prices), align(&allocations, &prices));
}
