use market_data::calendar::days_from_civil;
use market_data::clock::{now_millis, now_secs};
use market_data::duration::Duration;
use market_data::http::{HttpClient, Reply, Step};
use market_data::massive::{is_window_representable, MASSIVE_BASE_URL};
use market_data::model::{Capability, ProviderKind};
use market_data::{MassiveSource, ProviderError};

fn source() -> MassiveSource {
    MassiveSource::with_key("test-key".to_string()).unwrap()
}

#[test]
fn bars_are_asked_for_adjusted_with_the_key_out_of_the_url() {
    let source = source();
    let request = source.daily_bars_request("AAPL", 100, 1_700_000_000_000);
    // 100 sessions span 160 days and 5 of slack.
    assert_eq!(
        request.url,
        "https://api.massive.com/v2/aggs/ticker/AAPL/range/1/day/1685744000000/1700000000000\
         ?adjusted=true&sort=asc&limit=50000"
    );
    assert_eq!(request.bearer, "test-key");
    assert!(!request.url.contains("test-key"));
}

#[test]
fn windows_before_the_epoch_are_written_with_a_sign() {
    let source = source().with_base_url("http://localhost:1".to_string());
    let request = source.daily_bars_request("A", 0, 0);
    assert_eq!(
        request.url,
        "http://localhost:1/v2/aggs/ticker/A/range/1/day/-432000000/0\
         ?adjusted=true&sort=asc&limit=50000"
    );
}

#[test]
fn spans_are_those_of_the_float_formula() {
    let source = source().with_base_url(String::new());
    let span = |lookback: usize| {
        let url = source.daily_bars_request("", lookback, 0).url;
        let from: i64 = url.split('/').nth(8).unwrap().parse().unwrap();
        -from / 86_400_000
    };
    for lookback in (0..5000).chain(60_000_000_000..60_000_002_000) {
        let expected = ((lookback as f64) * 1.6).ceil() as i64 + 5;
        assert_eq!(span(lookback), expected);
    }
    let mut lookback: usize = 1;
    while lookback < 60_000_000_000 {
        for near in lookback..lookback + 20 {
            assert_eq!(span(near), ((near as f64) * 1.6).ceil() as i64 + 5);
        }
        lookback = lookback * 7 / 4 + 1;
    }
}

#[test]
fn windows_out_of_reach_are_told_apart() {
    assert!(is_window_representable(100, 0));
    assert!(is_window_representable(60_000_000_000, 0));
    assert!(!is_window_representable(70_000_000_000, 0));
    assert!(!is_window_representable(usize::MAX, i64::MAX));
    assert!(!is_window_representable(0, i64::MIN));
}

#[test]
fn chains_are_asked_for_around_the_target() {
    let source = source();
    let now = days_from_civil(2024, 3, 1) * 86_400 + 86_399;
    let request = source.chain_request("AAPL", now);
    assert_eq!(
        request.url,
        "https://api.massive.com/v3/snapshot/options/AAPL\
         ?expiration_date.gte=2024-03-22&expiration_date.lte=2024-04-15&limit=250"
    );
    assert_eq!(request.bearer, "test-key");
}

#[test]
fn urls_do_not_depend_on_the_key() {
    let other = MassiveSource::with_key("another".to_string()).unwrap();
    assert_eq!(
        source().daily_bars_request("A", 9, 5).url,
        other.daily_bars_request("A", 9, 5).url
    );
    assert_eq!(
        source().chain_request("A", 5).url,
        other.chain_request("A", 5).url
    );
}

#[test]
fn the_key_does_not_show_in_debug_output() {
    let text = format!("{:?}", source());
    assert!(!text.contains("test-key"));
    assert!(text.contains("REDACTED"));
}

#[test]
fn a_missing_key_is_an_auth_error() {
    assert_eq!(
        MassiveSource::from_env(None).unwrap_err(),
        ProviderError::Auth("MASSIVE_API_KEY not set".into())
    );
    let source = MassiveSource::from_env(Some("k".to_string())).unwrap();
    assert_eq!(source.chain_request("A", 0).bearer, "k");
}

#[test]
fn a_missing_client_is_passed_on() {
    let failed = HttpClient::from_build(Err("no TLS".to_string()), HttpClient::default_timeouts());
    assert_eq!(
        MassiveSource::with_client("k".to_string(), failed).unwrap_err(),
        ProviderError::Transport("building HTTP client: no TLS".into())
    );
}

#[test]
fn builders_change_one_thing_each() {
    let base = Duration::from_millis(1);
    let source = source()
        .with_base_url("http://x".to_string())
        .with_backoff_base(base);
    let request = source.chain_request("A", 0);
    assert!(request.url.starts_with("http://x/v3/"));
    assert_eq!(request.bearer, "test-key");
    let reply = Reply::Broken {
        reason: String::new(),
    };
    assert_eq!(
        source.http().begin().on_reply(&reply),
        Step::Retry { delay: base }
    );
    assert_eq!(MASSIVE_BASE_URL, "https://api.massive.com");
}

#[test]
fn the_source_serves_end_of_day_data_only() {
    let info = source().info();
    assert_eq!(info.id, "massive");
    assert_eq!(info.kind, ProviderKind::MarketData);
    assert_eq!(
        info.capabilities,
        vec![
            Capability::DailyBars,
            Capability::ImpliedVol,
            Capability::OptionsChain
        ]
    );
}

#[test]
fn requests_of_now_are_made_by_the_clock() {
    let source = source();
    let before = now_millis();
    let url = source.daily_bars_request_now("AAPL", 100).unwrap().url;
    let bounds = url.split('?').next().unwrap();
    let to_ms: i64 = bounds.rsplit('/').next().unwrap().parse().unwrap();
    assert!(before <= to_ms && to_ms <= now_millis());
    assert_eq!(url, source.daily_bars_request("AAPL", 100, to_ms).url);
    assert!(source.daily_bars_request_now("AAPL", usize::MAX).is_none());

    let before = now_secs();
    let (now_s, request) = source.chain_request_now("AAPL");
    assert!(before <= now_s && now_s <= now_secs());
    assert_eq!(request.url, source.chain_request("AAPL", now_s).url);
    assert_eq!(request.bearer, "test-key");
}

#[test]
fn a_million_sessions_are_within_reach() {
    for to_ms in [0, 1_700_000_000_000, i64::MAX] {
        assert!(is_window_representable(1_000_000, to_ms));
    }
}
