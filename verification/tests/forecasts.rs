use greatest_predictor::align::align;
use greatest_predictor::date::Date;
use greatest_predictor::project::{combine, combined_records, prediction_records, project, FORECAST_YEARS};
use greatest_predictor::record::{
    AlignedPair, AllocationRecord, CombinedRecord, PredictionRecord, Snp500Record,
};

fn day(year: i32, month: u32, day: u32) -> Date {
    Date::new(year, month, day).unwrap()
}

fn allocation(date: Date, allocation: f64) -> AllocationRecord<f64> {
    AllocationRecord { date, allocation }
}

fn price(date: Date, closing_price: f64) -> Snp500Record<f64> {
    Snp500Record { date, closing_price }
}

// The return model that the forecasts are meant for: the yearly return falls
// in a straight line from 25% at an allocation of 15% to -6% at one of 55%.
fn allocation_to_return(allocation: f64) -> f64 {
    let f = (allocation - 0.15) / (0.55 - 0.15);
    0.25 - f * (0.25 - -0.06)
}

fn price_now_to_price_in_10y(price_now: f64, predicted_return: f64) -> f64 {
    price_now * (1.0 + predicted_return).powi(10)
}

fn prices() -> Vec<Snp500Record<f64>> {
    vec![
        price(day(2012, 1, 3), 100.0),
        price(day(2012, 2, 29), 105.0),
        price(day(2012, 3, 1), 106.0),
        price(day(2012, 7, 2), 110.0),
        price(day(2012, 10, 1), 120.0),
    ]
}

#[test]
fn forecasts_look_ten_years_ahead() {
    assert_eq!(FORECAST_YEARS, 10);
}

#[test]
fn the_return_model_meets_its_end_points() {
    assert_eq!(allocation_to_return(0.15), 0.25);
    assert!((allocation_to_return(0.55) - -0.06).abs() < 1e-12);
    assert!((allocation_to_return(0.35) - 0.095).abs() < 1e-12);
    assert!(allocation_to_return(0.05) > 0.25);
    assert!(allocation_to_return(0.65) < -0.06);
    assert!(allocation_to_return(0.20) > allocation_to_return(0.30));
}

#[test]
fn the_predicted_price_compounds_over_ten_years() {
    assert_eq!(price_now_to_price_in_10y(100.0, 0.25), 931.322574615478515625);
    assert_eq!(price_now_to_price_in_10y(100.0, 0.0), 100.0);
    assert_eq!(price_now_to_price_in_10y(1024.0, -0.5), 1.0);
}

#[test]
fn combined_records_carry_allocation_and_price() {
    let allocations = vec![
        allocation(day(2012, 1, 1), 0.30),
        allocation(day(2012, 4, 1), 0.35),
        allocation(day(2012, 7, 2), 0.40),
        allocation(day(2012, 10, 2), 0.45),
    ];
    let records = combined_records(&allocations, &prices());
    assert_eq!(
        records,
        vec![
            CombinedRecord {
                date: day(2022, 4, 1),
                stock_allocation: 0.35,
                snp500_price: 110.0,
                snp500_return: None,
            },
            CombinedRecord {
                date: day(2022, 7, 2),
                stock_allocation: 0.40,
                snp500_price: 110.0,
                snp500_return: None,
            },
        ]
    );
}

fn close(left: f64, right: f64) -> bool {
    (left - right).abs() <= 1e-12 * right.abs()
}

#[test]
fn prediction_records_apply_the_return_model() {
    let allocations = vec![
        allocation(day(2012, 1, 1), 0.30),
        allocation(day(2012, 4, 1), 0.15),
        allocation(day(2012, 10, 1), 0.35),
    ];
    let records =
        prediction_records(&allocations, &prices(), allocation_to_return, price_now_to_price_in_10y);
    assert_eq!(records.len(), 2);
    assert_eq!(
        records[0],
        PredictionRecord {
            date: day(2022, 4, 1),
            snp500_price: 110.0,
            snp500_return_predicted: 0.25,
            snp500_price_predicted: 1024.4548320770263671875,
        }
    );
    assert_eq!(records[1].date, day(2022, 10, 1));
    assert_eq!(records[1].snp500_price, 120.0);
    assert_eq!(records[1].snp500_return_predicted, allocation_to_return(0.35));
    assert!(close(records[1].snp500_return_predicted, 0.095));
    // 120 * 1.095^10
    assert!(close(records[1].snp500_price_predicted, 297.387313615037));
}

#[test]
fn every_forecast_compounds_its_own_price_and_return() {
    let allocations = vec![
        allocation(day(2012, 1, 3), 0.20),
        allocation(day(2012, 3, 1), 0.31),
        allocation(day(2012, 6, 1), 0.42),
        allocation(day(2012, 9, 1), 0.53),
    ];
    let records =
        prediction_records(&allocations, &prices(), allocation_to_return, price_now_to_price_in_10y);
    assert_eq!(records.len(), 4);
    let expected_prices = [100.0, 106.0, 110.0, 120.0];
    for (k, record) in records.iter().enumerate() {
        assert_eq!(record.snp500_price, expected_prices[k]);
        assert_eq!(record.snp500_return_predicted, allocation_to_return(allocations[k].allocation));
        assert!(close(
            record.snp500_price_predicted,
            record.snp500_price * (1.0 + record.snp500_return_predicted).powi(10)
        ));
    }
}

#[test]
fn a_leap_day_observation_is_left_out() {
    let allocations = vec![allocation(day(2012, 2, 29), 0.30)];
    let pairs = align(&allocations, &prices());
    assert_eq!(
        pairs,
        vec![AlignedPair { allocation_date: day(2012, 2, 29), allocation: 0.30, matched_price: 105.0 }]
    );
    assert_eq!(combine(&pairs), Vec::new());
    assert_eq!(project(&pairs, allocation_to_return, price_now_to_price_in_10y), Vec::new());
    assert_eq!(combined_records(&allocations, &prices()), Vec::new());
    assert_eq!(
        prediction_records(&allocations, &prices(), allocation_to_return, price_now_to_price_in_10y),
        Vec::new()
    );
}

#[test]
fn a_leap_day_between_other_observations_leaves_them_alone() {
    let allocations = vec![
        allocation(day(2012, 2, 28), 0.30),
        allocation(day(2012, 2, 29), 0.31),
        allocation(day(2012, 3, 1), 0.32),
    ];
    let records = combined_records(&allocations, &prices());
    let dates: Vec<Date> = records.iter().map(|r| r.date).collect();
    assert_eq!(dates, vec![day(2022, 2, 28), day(2022, 3, 1)]);
    let carried: Vec<f64> = records.iter().map(|r| r.stock_allocation).collect();
    assert_eq!(carried, vec![0.30, 0.32]);
}

#[test]
fn combine_dates_each_pair_ten_years_on() {
    let pairs = vec![
        AlignedPair { allocation_date: day(1999, 12, 31), allocation: 1u8, matched_price: 2u8 },
        AlignedPair { allocation_date: day(2000, 2, 29), allocation: 3u8, matched_price: 4u8 },
        AlignedPair { allocation_date: day(2000, 3, 1), allocation: 5u8, matched_price: 6u8 },
    ];
    assert_eq!(
        combine(&pairs),
        vec![
            CombinedRecord {
                date: day(2009, 12, 31),
                stock_allocation: 1u8,
                snp500_price: 2u8,
                snp500_return: None,
            },
            CombinedRecord {
                date: day(2010, 3, 1),
                stock_allocation: 5u8,
                snp500_price: 6u8,
                snp500_return: None,
            },
        ]
    );
}

#[test]
fn project_hands_the_model_the_allocation_then_price_and_return() {
    let pairs = vec![
        AlignedPair { allocation_date: day(2001, 1, 1), allocation: 7i64, matched_price: 100i64 },
        AlignedPair { allocation_date: day(2004, 2, 29), allocation: 8i64, matched_price: 200i64 },
        AlignedPair { allocation_date: day(2005, 5, 5), allocation: 9i64, matched_price: 300i64 },
    ];
    let records = project(&pairs, |allocation| allocation * 2, |price, predicted| price - predicted);
    assert_eq!(
        records,
        vec![
            PredictionRecord {
                date: day(2011, 1, 1),
                snp500_price: 100,
                snp500_return_predicted: 14,
                snp500_price_predicted: 86,
            },
            PredictionRecord {
                date: day(2015, 5, 5),
                snp500_price: 300,
                snp500_return_predicted: 18,
                snp500_price_predicted: 282,
            },
        ]
    );
}

#[test]
fn forecasts_keep_the_order_of_the_observations() {
    let allocations = vec![
        allocation(day(2012, 1, 3), 0.20),
        allocation(day(2012, 2, 1), 0.25),
        allocation(day(2012, 2, 29), 0.30),
        allocation(day(2012, 5, 1), 0.35),
        allocation(day(2012, 10, 1), 0.40),
        allocation(day(2012, 11, 1), 0.45),
    ];
    let records =
        prediction_records(&allocations, &prices(), allocation_to_return, price_now_to_price_in_10y);
    let dates: Vec<Date> = records.iter().map(|r| r.date).collect();
    assert_eq!(dates, vec![day(2022, 1, 3), day(2022, 2, 1), day(2022, 5, 1), day(2022, 10, 1)]);
    for k in 1..dates.len() {
        assert!(dates[k - 1].is_before(&dates[k]));
    }
}

#[test]
fn forecasts_stand_beside_the_combined_records() {
    let allocations = vec![
        allocation(day(2012, 1, 3), 0.20),
        allocation(day(2012, 2, 29), 0.30),
        allocation(day(2012, 5, 1), 0.35),
    ];
    let combined = combined_records(&allocations, &prices());
    let predicted =
        prediction_records(&allocations, &prices(), allocation_to_return, price_now_to_price_in_10y);
    assert_eq!(combined.len(), predicted.len());
    for (c, p) in combined.iter().zip(predicted.iter()) {
        assert_eq!(c.date, p.date);
        assert_eq!(c.snp500_price, p.snp500_price);
        assert_eq!(allocation_to_return(c.stock_allocation), p.snp500_return_predicted);
    }
}

#[test]
fn running_the_forecast_twice_gives_the_same_records() {
    let allocations = vec![
        allocation(day(2011, 10, 1), 0.28),
        allocation(day(2012, 1, 3), 0.20),
        allocation(day(2012, 2, 29), 0.30),
        allocation(day(2012, 5, 1), 0.35),
        allocation(day(2013, 1, 1), 0.36),
    ];
    let first =
        prediction_records(&allocations, &prices(), allocation_to_return, price_now_to_price_in_10y);
    let second =
        prediction_records(&allocations, &prices(), allocation_to_return, price_now_to_price_in_10y);
    assert_eq!(first, second);
    let bits = |records: &Vec<PredictionRecord<f64>>| -> Vec<(u64, u64, u64)> {
        records
            .iter()
            .map(|r| {
                (
                    r.snp500_price.to_bits(),
                    r.snp500_return_predicted.to_bits(),
                    r.snp500_price_predicted.to_bits(),
                )
            })
            .collect()
    };
    assert_eq!(bits(&first), bits(&second));
    assert_eq!(
        combined_records(&allocations, &prices()),
        combined_records(&allocations, &prices())
    );
}

#[test]
fn empty_series_give_no_records() {
    let none: Vec<AllocationRecord<f64>> = Vec::new();
    let no_prices: Vec<Snp500Record<f64>> = Vec::new();
    let some = vec![allocation(day(2012, 5, 1), 0.35)];
    assert_eq!(combined_records(&none, &prices()), Vec::new());
    assert_eq!(combined_records(&some, &no_prices), Vec::new());
    assert_eq!(
        prediction_records(&none, &prices(), allocation_to_return, price_now_to_price_in_10y),
        Vec::new()
    );
    assert_eq!(
        prediction_records(&some, &no_prices, allocation_to_return, price_now_to_price_in_10y),
        Vec::new()
    );
}
