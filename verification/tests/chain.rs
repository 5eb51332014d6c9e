use market_data::calendar::days_from_civil;
use market_data::chain::{
    are_expirations_representable, atm_candidates, ivs_at_strike, nearest_strike, select_atm_iv,
    ChainResponse, ContractDetails, OptionContract, Quote, UnderlyingAsset, SECS_PER_DAY,
    STRIKE_TOLERANCE_BITS,
};
use market_data::double::Double;
use market_data::massive::{read_iv_snapshot, read_snapshot};
use market_data::ProviderError;

fn double(x: f64) -> Double {
    Double { bits: x.to_bits() }
}

fn float(x: Double) -> f64 {
    f64::from_bits(x.bits)
}

fn distance(a: Double, b: Double) -> Double {
    double((float(a) - float(b)).abs())
}

fn mean(ivs: &Vec<Double>) -> Double {
    double(ivs.iter().map(|iv| float(*iv)).sum::<f64>() / ivs.len() as f64)
}

fn contract(exp: &str, strike: f64, iv: Option<f64>, underlying: Option<f64>) -> OptionContract {
    OptionContract {
        implied_volatility: iv.map(double),
        details: ContractDetails {
            strike_price: double(strike),
            expiration_date: exp.to_string(),
        },
        underlying_asset: underlying.map(|price| UnderlyingAsset {
            price: Some(double(price)),
        }),
    }
}

fn select(results: Vec<OptionContract>, now: i64) -> Result<f64, ProviderError> {
    select_atm_iv(&ChainResponse { results }, now, "X", distance, mean).map(float)
}

#[test]
fn select_atm_iv_picks_nearest_dte_strike_and_averages() {
    let now = days_from_civil(2024, 3, 1) * SECS_PER_DAY;
    let chain = ChainResponse {
        results: vec![
            // A far expiration (should lose to the ~30 DTE one).
            contract("2024-06-01", 100.0, Some(0.99), Some(101.0)),
            // ~30 DTE band; underlying ~101, so strike 100 is ATM.
            contract("2024-03-31", 100.0, Some(0.30), Some(101.0)), // call
            contract("2024-03-31", 100.0, Some(0.40), Some(101.0)), // put → avg 0.35
            contract("2024-03-31", 120.0, Some(0.80), Some(101.0)), // far OTM, ignored
        ],
    };
    let iv = select_atm_iv(&chain, now, "AAA", distance, mean).unwrap();
    let iv = float(iv);
    assert!((iv - 0.35).abs() < 1e-9, "got {iv}");
}

#[test]
fn select_atm_iv_typed_errors() {
    let now = 0;
    assert!(matches!(
        select_atm_iv(&ChainResponse { results: vec![] }, now, "X", distance, mean),
        Err(ProviderError::NotFound(_))
    ));
    // No underlying price → Transport.
    let no_px = ChainResponse {
        results: vec![contract("2024-03-31", 100.0, Some(0.3), None)],
    };
    assert!(matches!(
        select_atm_iv(&no_px, now, "X", distance, mean),
        Err(ProviderError::Transport(_))
    ));
}

#[test]
fn every_failure_says_what_is_missing() {
    assert_eq!(
        select(vec![], 0).unwrap_err(),
        ProviderError::NotFound("empty options chain for X".into())
    );
    assert_eq!(
        select(vec![contract("2024-03-31", 1.0, Some(0.3), None)], 0).unwrap_err(),
        ProviderError::Transport("no underlying price in chain for X".into())
    );
    assert_eq!(
        select(vec![contract("soon", 1.0, Some(0.3), Some(1.0))], 0).unwrap_err(),
        ProviderError::Transport("no parseable expirations for X".into())
    );
    for iv in [None, Some(0.0), Some(-0.2), Some(f64::NAN), Some(f64::INFINITY)] {
        assert_eq!(
            select(vec![contract("2024-03-31", 1.0, iv, Some(1.0))], 0).unwrap_err(),
            ProviderError::NotFound("no usable IV near 30 DTE for X".into())
        );
    }
    // A strike without a finite distance from itself is no strike.
    assert_eq!(
        select(vec![contract("2024-03-31", f64::INFINITY, Some(0.2), Some(1.0))], 0).unwrap_err(),
        ProviderError::NotFound("no IV at ATM strike for X".into())
    );
}

#[test]
fn the_first_underlying_price_counts() {
    let mut silent = contract("2024-03-31", 10.0, Some(0.1), None);
    silent.underlying_asset = Some(UnderlyingAsset { price: None });
    let results = vec![
        silent,
        contract("2024-03-31", 20.0, Some(0.2), Some(19.0)),
        contract("2024-03-31", 10.0, Some(0.3), Some(11.0)),
    ];
    let found = atm_candidates(&ChainResponse { results }, 0, "X").unwrap();
    assert_eq!(found.underlying, double(19.0));
    assert_eq!(found.quotes.len(), 3);
}

#[test]
fn the_nearest_expiration_wins_and_the_first_of_two_equally_near() {
    let now = days_from_civil(2024, 3, 1) * SECS_PER_DAY;
    // 29 and 31 days out are equally near; 0x is unreadable; 35 is farther.
    let results = vec![
        contract("2024-04-05", 100.0, Some(0.1), Some(100.0)),
        contract("2024-0x-31", 100.0, Some(0.2), Some(100.0)),
        contract("2024-04-01", 100.0, Some(0.3), Some(100.0)),
        contract("2024-03-30", 100.0, Some(0.4), Some(100.0)),
    ];
    assert_eq!(select(results, now).unwrap(), 0.3);
    // The same day spelled otherwise is another expiration.
    let results = vec![
        contract("2024-3-31", 100.0, Some(0.5), Some(100.0)),
        contract("2024-03-31", 100.0, Some(0.7), Some(100.0)),
    ];
    assert_eq!(select(results, now).unwrap(), 0.5);
}

#[test]
fn days_before_the_epoch_round_toward_zero() {
    // Half a day before the epoch still counts as day 0.
    let results = vec![
        contract("1970-01-30", 1.0, Some(0.1), Some(1.0)),
        contract("1970-01-31", 1.0, Some(0.2), Some(1.0)),
    ];
    assert_eq!(select(results, -43_200).unwrap(), 0.2);
}

#[test]
fn the_nearest_strike_is_the_first_smallest_distance() {
    let at = |ds: &[f64]| nearest_strike(&ds.iter().map(|d| double(*d)).collect());
    assert_eq!(at(&[3.0, 1.0, 2.0, 1.0]), 1);
    assert_eq!(at(&[0.0]), 0);
    assert_eq!(at(&[f64::INFINITY, 2.0]), 1);
    assert_eq!(at(&[f64::NAN, 2.0]), 0);
    assert_eq!(at(&[2.0, f64::NAN, 1.0]), 2);
    let odd = [3.0, f64::NAN, 1.0, 2.0, 0.5, f64::INFINITY, 0.5];
    for i in 0..odd.len() {
        let ds = &odd[i..];
        let best = (i..odd.len())
            .min_by(|a, b| {
                odd[*a]
                    .partial_cmp(&odd[*b])
                    .unwrap_or(std::cmp::Ordering::Equal)
            })
            .unwrap();
        assert_eq!(at(ds), best - i);
    }
}

#[test]
fn strikes_within_the_tolerance_are_averaged() {
    assert_eq!(STRIKE_TOLERANCE_BITS, 1e-9f64.to_bits());
    let quote = |strike: f64, iv: f64| Quote {
        strike: double(strike),
        iv: double(iv),
    };
    let quotes = vec![quote(100.0, 0.1), quote(100.0, 0.2), quote(105.0, 0.3)];
    let gaps = vec![double(0.0), double(9e-10), double(1e-9)];
    assert_eq!(
        ivs_at_strike(&quotes, &gaps, "X").unwrap(),
        vec![double(0.1), double(0.2)]
    );
    let gaps = vec![double(1e-9), double(f64::NAN), double(1.0)];
    assert_eq!(
        ivs_at_strike(&quotes, &gaps, "X").unwrap_err(),
        ProviderError::NotFound("no IV at ATM strike for X".into())
    );
}

#[test]
fn expirations_out_of_reach_are_told_apart() {
    let far = "9223372036854775807-01-01";
    let priced = ChainResponse {
        results: vec![contract(far, 1.0, Some(0.1), Some(1.0))],
    };
    assert!(!are_expirations_representable(&priced, 0));
    let unpriced = ChainResponse {
        results: vec![contract(far, 1.0, Some(0.1), None)],
    };
    assert!(are_expirations_representable(&unpriced, 0));
    assert!(select_atm_iv(&unpriced, 0, "X", distance, mean).is_err());
}

#[test]
fn iv_snapshot_reads_atm_iv_with_empty_history() {
    let now = days_from_civil(2024, 3, 1) * SECS_PER_DAY;
    let chain = ChainResponse {
        results: vec![
            contract("2024-03-31", 100.0, Some(0.30), Some(101.0)),
            contract("2024-03-31", 100.0, Some(0.40), Some(101.0)),
            contract("2024-03-31", 110.0, Some(0.90), Some(101.0)),
        ],
    };
    let snap = read_snapshot(&chain, now, "AAPL", distance, mean).unwrap();
    assert_eq!(snap.symbol, "AAPL");
    assert!((float(snap.iv) - 0.35).abs() < 1e-9);
    assert!(snap.iv_history.is_empty());
    let empty = ChainResponse { results: vec![] };
    assert_eq!(
        read_snapshot(&empty, now, "AAPL", distance, mean).unwrap_err(),
        ProviderError::NotFound("empty options chain for AAPL".into())
    );
}

#[test]
fn a_read_fails_only_for_want_of_data() {
    let now = days_from_civil(2024, 3, 1) * SECS_PER_DAY;
    // A chain with or without a price, a readable expiration and a usable volatility.
    for price in [None, Some(100.0)] {
        for exp in ["soon", "2024-03-31"] {
            for iv in [None, Some(0.0), Some(f64::NAN), Some(f64::INFINITY), Some(0.25)] {
                let read = select(vec![contract(exp, 100.0, iv, price)], now);
                if price.is_none() || exp == "soon" {
                    assert!(matches!(read, Err(ProviderError::Transport(_))));
                } else if iv == Some(0.25) {
                    assert_eq!(read.unwrap(), 0.25);
                } else {
                    assert!(matches!(read, Err(ProviderError::NotFound(_))));
                }
            }
        }
    }
    assert!(matches!(select(vec![], now), Err(ProviderError::NotFound(_))));
}

#[test]
fn only_the_day_matters_and_not_the_symbol() {
    let day = days_from_civil(2024, 3, 1) * SECS_PER_DAY;
    let chain = ChainResponse {
        results: vec![
            contract("2024-03-30", 100.0, Some(0.2), Some(100.0)),
            contract("2024-04-01", 100.0, Some(0.6), Some(100.0)),
        ],
    };
    let read = |now: i64, symbol: &str| {
        select_atm_iv(&chain, now, symbol, distance, mean).map(float)
    };
    for now in [day, day + 1, day + 43_200, day + SECS_PER_DAY - 1] {
        assert_eq!(read(now, "X"), Ok(0.2));
        assert_eq!(read(now, "Y"), Ok(0.2));
    }
    // The next day the expirations are 28 and 30 days out.
    assert_eq!(read(day + SECS_PER_DAY, "X"), Ok(0.6));
}

#[test]
fn a_contract_that_can_not_win_changes_nothing() {
    let now = days_from_civil(2024, 3, 1) * SECS_PER_DAY;
    let chain = || {
        vec![
            contract("2024-03-30", 100.0, Some(0.2), Some(101.0)),
            contract("2024-03-30", 100.0, Some(0.4), None),
        ]
    };
    let iv = select(chain(), now).unwrap();
    for late in [
        contract("never", 101.0, Some(0.9), Some(500.0)),
        contract("2024-04-01", 101.0, Some(0.9), Some(500.0)),
        contract("2024-06-01", 101.0, Some(0.9), None),
        contract("2024-03-30", 101.0, None, Some(500.0)),
        contract("2024-03-30", 101.0, Some(-0.9), None),
        contract("2024-03-30", 101.0, Some(f64::NAN), None),
    ] {
        let mut results = chain();
        results.push(late);
        assert_eq!(select(results, now), Ok(iv));
    }
    // One that can win does.
    let mut results = chain();
    results.push(contract("2024-03-31", 101.0, Some(0.9), None));
    assert_eq!(select(results, now), Ok(0.9));
}

#[test]
fn failed_requests_for_a_chain_are_handed_on() {
    let refused = ProviderError::Auth("HTTP 401".into());
    assert_eq!(
        read_iv_snapshot(Err(refused), 0, "X", distance, mean).unwrap_err(),
        ProviderError::Auth("HTTP 401".into())
    );
    let chain = ChainResponse {
        results: vec![contract("1970-01-31", 1.0, Some(0.5), Some(1.0))],
    };
    let snap = read_iv_snapshot(Ok(chain), 0, "X", distance, mean).unwrap();
    assert_eq!((snap.symbol.as_str(), snap.iv), ("X", double(0.5)));
    assert!(snap.iv_history.is_empty());
    let empty = ChainResponse { results: vec![] };
    assert_eq!(
        read_iv_snapshot(Ok(empty), 0, "X", distance, mean).unwrap_err(),
        ProviderError::NotFound("empty options chain for X".into())
    );
}
