use market_data::aggs::{is_valid_tick, map_aggs, AggBar, AggsResponse};
use market_data::double::Double;
use market_data::massive::read_daily_bars;
use market_data::{Bar, ProviderError};

fn double(x: f64) -> Double {
    Double { bits: x.to_bits() }
}

fn agg(t: i64, o: f64, h: f64, l: f64, c: f64, v: f64) -> AggBar {
    AggBar {
        t,
        o: double(o),
        h: double(h),
        l: double(l),
        c: double(c),
        v: double(v),
    }
}

fn closes(bars: &[Bar]) -> Vec<f64> {
    bars.iter().map(|b| f64::from_bits(b.close.bits)).collect()
}

#[test]
fn map_aggs_converts_millis_and_orders() {
    // Deliberately out of order with a duplicate timestamp.
    let resp = AggsResponse {
        results: vec![
            agg(2_000, 11.0, 12.0, 10.0, 11.5, 100.0),
            agg(1_000, 10.0, 11.0, 9.0, 10.5, 50.0),
            agg(2_000, 11.0, 12.0, 10.0, 11.9, 100.0), // dup t → dropped after sort
        ],
    };
    let bars = map_aggs(resp, 100, "AAA").unwrap();
    assert_eq!(bars.len(), 2);
    // millis → seconds, ascending.
    assert_eq!(bars[0].t, 1);
    assert_eq!(bars[1].t, 2);
    assert_eq!(closes(&bars), vec![10.5, 11.5]);
}

#[test]
fn map_aggs_drops_bad_ticks_and_errors_when_empty() {
    let resp = AggsResponse {
        results: vec![
            agg(1_000, 0.0, 1.0, 1.0, 1.0, 10.0),    // non-positive open
            agg(2_000, 10.0, 9.0, 11.0, 10.0, 10.0), // high < low
            agg(3_000, 10.0, 11.0, 9.0, 10.0, -1.0), // negative volume
        ],
    };
    assert!(matches!(
        map_aggs(resp, 100, "BAD"),
        Err(ProviderError::NotFound(_))
    ));
}

#[test]
fn map_aggs_trims_to_lookback() {
    let resp = AggsResponse {
        results: (1..=10)
            .map(|i| agg(i * 1_000, 10.0, 11.0, 9.0, 10.0 + i as f64, 1.0))
            .collect(),
    };
    let bars = map_aggs(resp, 3, "AAA").unwrap();
    assert_eq!(bars.len(), 3);
    assert_eq!(bars[0].t, 8); // most recent three
}

#[test]
fn daily_bars_maps_adjusted_aggregates() {
    let resp = AggsResponse {
        results: vec![
            agg(3_000, 102.0, 103.0, 101.0, 102.5, 3.0),
            agg(1_000, 100.0, 101.0, 99.0, 100.5, 1.0),
            agg(2_000, 101.0, 102.0, 100.0, 101.5, 2.0),
        ],
    };
    let bars = map_aggs(resp, 100, "AAPL").unwrap();
    assert_eq!(bars.iter().map(|b| b.t).collect::<Vec<_>>(), vec![1, 2, 3]);
    assert_eq!(bars[2].open, double(102.0));
    assert_eq!(bars[2].high, double(103.0));
    assert_eq!(bars[2].low, double(101.0));
    assert_eq!(bars[2].close, double(102.5));
    assert_eq!(bars[2].volume, double(3.0));
}

#[test]
fn no_valid_bar_names_the_symbol() {
    let empty = AggsResponse { results: vec![] };
    assert_eq!(
        map_aggs(empty, 5, "ZZZ").unwrap_err(),
        ProviderError::NotFound("no valid daily bars for ZZZ".into())
    );
}

#[test]
fn a_lookback_of_nothing_keeps_nothing() {
    let resp = AggsResponse {
        results: vec![agg(1_000, 1.0, 1.0, 1.0, 1.0, 0.0)],
    };
    assert_eq!(map_aggs(resp, 0, "AAA").unwrap(), vec![]);
}

#[test]
fn times_round_toward_zero_before_duplicates_go() {
    let resp = AggsResponse {
        results: vec![
            agg(1_999, 1.0, 1.0, 1.0, 1.0, 0.0),
            agg(-999, 2.0, 2.0, 2.0, 2.0, 0.0),
            agg(999, 3.0, 3.0, 3.0, 3.0, 0.0),
            agg(-1_000, 4.0, 4.0, 4.0, 4.0, 0.0),
            agg(1_000, 5.0, 5.0, 5.0, 5.0, 0.0),
        ],
    };
    let bars = map_aggs(resp, 9, "AAA").unwrap();
    assert_eq!(bars.iter().map(|b| b.t).collect::<Vec<_>>(), vec![-1, 0, 1]);
    assert_eq!(closes(&bars), vec![4.0, 2.0, 1.0]);
}

#[test]
fn mapping_agrees_with_a_stable_sort() {
    let mut seed: u64 = 7;
    for round in 0..200 {
        let mut ticks = vec![];
        for i in 0..round {
            seed = seed.wrapping_mul(6364136223846793005).wrapping_add(1442695040888963407);
            let t = ((seed >> 40) % 64) as i64 * 500 - 8000;
            let price = if seed >> 60 == 0 { -1.0 } else { 1.0 + i as f64 };
            ticks.push(agg(t, price, price, price, price, 1.0));
        }
        let mut expected: Vec<(i64, f64)> = ticks
            .iter()
            .map(|b| (b.t / 1000, f64::from_bits(b.c.bits)))
            .filter(|b| b.1 > 0.0)
            .collect();
        expected.sort_by_key(|b| b.0);
        expected.dedup_by_key(|b| b.0);
        let start = expected.len().saturating_sub(20);
        match map_aggs(AggsResponse { results: ticks }, 20, "AAA") {
            Ok(bars) => {
                let found: Vec<(i64, f64)> = bars
                    .iter()
                    .map(|b| (b.t, f64::from_bits(b.close.bits)))
                    .collect();
                assert_eq!(found, expected[start..].to_vec());
            }
            Err(_) => assert!(expected.is_empty()),
        }
    }
}

#[test]
fn the_order_of_distinct_ticks_is_irrelevant() {
    let ticks: Vec<AggBar> = (0..50)
        .map(|i| agg((i * 37 % 50) * 1_000, 1.0, 1.0, 1.0, 1.0 + i as f64, 1.0))
        .collect();
    let mut reversed = ticks.clone();
    reversed.reverse();
    assert_eq!(
        map_aggs(AggsResponse { results: ticks }, 30, "A").unwrap(),
        map_aggs(AggsResponse { results: reversed }, 30, "A").unwrap()
    );
}

#[test]
fn ticks_are_judged_as_doubles_are() {
    let odd = [
        0.0,
        -0.0,
        1.0,
        -1.0,
        1.5,
        f64::MIN_POSITIVE,
        5e-324,
        -5e-324,
        f64::MAX,
        f64::MIN,
        f64::INFINITY,
        f64::NEG_INFINITY,
        f64::NAN,
        -f64::NAN,
    ];
    for h in odd {
        for l in odd {
            for v in odd {
                let valid = h.is_finite()
                    && h > 0.0
                    && l.is_finite()
                    && l > 0.0
                    && h >= l
                    && v.is_finite()
                    && v >= 0.0;
                assert_eq!(is_valid_tick(&agg(0, 1.0, h, l, 1.0, v)), valid);
            }
            let prices = h.is_finite() && h > 0.0 && l.is_finite() && l > 0.0;
            assert_eq!(is_valid_tick(&agg(0, h, 1.0, 1.0, l, 0.0)), prices);
        }
    }
}

#[test]
fn doubles_compare_as_floats_do() {
    let odd = [
        0.0,
        -0.0,
        1.0,
        -1.0,
        1.0000000000000002,
        2.0,
        1e-9,
        9.999999999999999e-10,
        5e-324,
        -5e-324,
        f64::MAX,
        f64::MIN,
        f64::INFINITY,
        f64::NEG_INFINITY,
        f64::NAN,
        -f64::NAN,
    ];
    for a in odd {
        assert_eq!(double(a).is_finite(), a.is_finite());
        assert_eq!(double(a).is_positive(), a > 0.0);
        for b in odd {
            assert_eq!(double(a).less(&double(b)), a < b);
            assert_eq!(double(a).at_least(&double(b)), a >= b);
        }
    }
}

#[test]
fn failed_requests_for_bars_are_handed_on() {
    let limited = ProviderError::RateLimited { retry_after: None };
    assert_eq!(
        read_daily_bars(Err(limited), 3, "AAA").unwrap_err(),
        ProviderError::RateLimited { retry_after: None }
    );
    let ticks = || vec![
        agg(2_000, 11.0, 12.0, 10.0, 11.5, 100.0),
        agg(1_000, 10.0, 11.0, 9.0, 10.5, 50.0),
    ];
    assert_eq!(
        read_daily_bars(Ok(AggsResponse { results: ticks() }), 1, "AAA").unwrap(),
        map_aggs(AggsResponse { results: ticks() }, 1, "AAA").unwrap()
    );
}
