use market_data::duration::Duration;
use market_data::http::{
    backoff_delay, decode_error, parse_retry_after, retry_after_hint, status_to_error, Exchange,
    HttpClient, Reply, Step, Timeouts, FORBIDDEN, MAX_ATTEMPTS, NOT_FOUND, TOO_MANY_REQUESTS,
    UNAUTHORIZED,
};
use market_data::ProviderError;

fn response(status: u16) -> Reply {
    Reply::Response {
        status,
        retry_after: None,
    }
}

fn broken(reason: &str) -> Reply {
    Reply::Broken {
        reason: reason.to_string(),
    }
}

#[test]
fn parse_retry_after_reads_delta_seconds() {
    assert_eq!(parse_retry_after(Some("7")), Some(Duration::from_secs(7)));
    assert_eq!(
        parse_retry_after(Some("  2 ")),
        Some(Duration::from_secs(2))
    );
    // HTTP-date form and garbage are not guessed at.
    assert_eq!(
        parse_retry_after(Some("Wed, 21 Oct 2015 07:28:00 GMT")),
        None
    );
    assert_eq!(parse_retry_after(Some("")), None);
    assert_eq!(parse_retry_after(None), None);
}

#[test]
fn backoff_doubles_per_attempt() {
    let base = Duration::from_millis(100);
    assert_eq!(backoff_delay(base, 1), Duration::from_millis(100));
    assert_eq!(backoff_delay(base, 2), Duration::from_millis(200));
    assert_eq!(backoff_delay(base, 3), Duration::from_millis(400));
}

#[test]
fn status_mapping_is_typed() {
    assert!(matches!(
        status_to_error(reqwest::StatusCode::UNAUTHORIZED.as_u16()),
        ProviderError::Auth(_)
    ));
    assert!(matches!(
        status_to_error(reqwest::StatusCode::FORBIDDEN.as_u16()),
        ProviderError::Auth(_)
    ));
    assert!(matches!(
        status_to_error(reqwest::StatusCode::NOT_FOUND.as_u16()),
        ProviderError::NotFound(_)
    ));
    assert!(matches!(
        status_to_error(reqwest::StatusCode::BAD_GATEWAY.as_u16()),
        ProviderError::Transport(_)
    ));
}

#[test]
fn status_errors_carry_the_code() {
    assert_eq!(status_to_error(401), ProviderError::Auth("HTTP 401".into()));
    assert_eq!(status_to_error(403), ProviderError::Auth("HTTP 403".into()));
    assert_eq!(
        status_to_error(404),
        ProviderError::NotFound("HTTP 404".into())
    );
    assert_eq!(
        status_to_error(500),
        ProviderError::Transport("HTTP 500".into())
    );
    assert_eq!(
        status_to_error(302),
        ProviderError::Transport("HTTP 302".into())
    );
}

#[test]
fn status_numbers_are_those_of_the_client() {
    assert_eq!(UNAUTHORIZED, reqwest::StatusCode::UNAUTHORIZED.as_u16());
    assert_eq!(FORBIDDEN, reqwest::StatusCode::FORBIDDEN.as_u16());
    assert_eq!(NOT_FOUND, reqwest::StatusCode::NOT_FOUND.as_u16());
    assert_eq!(
        TOO_MANY_REQUESTS,
        reqwest::StatusCode::TOO_MANY_REQUESTS.as_u16()
    );
}

#[test]
fn retry_after_edges() {
    assert_eq!(parse_retry_after(Some("0")), Some(Duration::from_secs(0)));
    assert_eq!(parse_retry_after(Some("+5")), Some(Duration::from_secs(5)));
    assert_eq!(parse_retry_after(Some("-5")), None);
    assert_eq!(parse_retry_after(Some("+")), None);
    assert_eq!(parse_retry_after(Some("1 2")), None);
    assert_eq!(parse_retry_after(Some("1.5")), None);
    assert_eq!(
        parse_retry_after(Some("\u{3000}\t12\u{a0}\n")),
        Some(Duration::from_secs(12))
    );
    assert_eq!(
        parse_retry_after(Some("18446744073709551615")),
        Some(Duration::from_secs(u64::MAX))
    );
    assert_eq!(parse_retry_after(Some("18446744073709551616")), None);
    for text in ["7", " 42", "x", "00012", "++1", "1_000", "\u{660}"] {
        let expected = text.trim().parse::<u64>().ok().map(Duration::from_secs);
        assert_eq!(parse_retry_after(Some(text)), expected);
    }
}

#[test]
fn white_space_is_what_std_says() {
    for code in 0..=0x10_ffffu32 {
        if let Some(c) = char::from_u32(code) {
            let text: String = vec![c, '1'].into_iter().collect();
            if c.is_whitespace() || c == '+' || c.is_ascii_digit() {
                assert!(parse_retry_after(Some(&text)).is_some());
            } else {
                assert!(parse_retry_after(Some(&text)).is_none());
            }
        }
    }
}

#[test]
fn header_bytes_are_read_as_visible_text() {
    assert_eq!(
        retry_after_hint(Some(&b" 17\t".to_vec())),
        Some(Duration::from_secs(17))
    );
    assert_eq!(retry_after_hint(Some(&vec![b'1', 0xff])), None);
    assert_eq!(retry_after_hint(Some(&vec![b'1', b'\n'])), None);
    assert_eq!(retry_after_hint(Some(&vec![])), None);
    assert_eq!(retry_after_hint(None), None);
}

#[test]
fn backoff_saturates() {
    let longest = Duration::new(u64::MAX, 999_999_999);
    assert_eq!(backoff_delay(longest, 1), longest);
    let odd = Duration::new(3, 141_592_653);
    assert_eq!(backoff_delay(odd, 1), odd);
    assert_eq!(backoff_delay(longest, 2), longest);
    assert_eq!(backoff_delay(Duration::from_secs(1), 32), Duration::from_secs(1 << 31));
    for attempt in [33, 95, 101, 102, u32::MAX] {
        assert_eq!(backoff_delay(Duration::new(0, 0), attempt), Duration::new(0, 0));
    }
    for attempt in [102, u32::MAX] {
        assert_eq!(backoff_delay(Duration::new(0, 1), attempt), longest);
    }
    // 2^33 nanoseconds.
    assert_eq!(
        backoff_delay(Duration::new(0, 1), 34),
        Duration::new(8, 589_934_592)
    );
    // 2^93 nanoseconds still fit, 2^94 do not.
    assert_eq!(
        backoff_delay(Duration::new(0, 1), 94),
        Duration::new(9_903_520_314_283_042_199, 192_993_792)
    );
    assert_eq!(backoff_delay(Duration::new(0, 1), 95), longest);
    for (secs, nanos, attempt) in [(3, 999_999_999, 7), (u64::MAX / 2, 5, 2), (u64::MAX, 0, 5)] {
        let expected = std::time::Duration::new(secs, nanos).saturating_mul(1u32 << (attempt - 1));
        let delay = backoff_delay(Duration::new(secs, nanos), attempt);
        assert_eq!(delay.as_secs(), expected.as_secs());
        assert_eq!(delay.subsec_nanos(), expected.subsec_nanos());
    }
}

#[test]
fn success_is_decoded_on_any_attempt() {
    for status in [200, 204, 299] {
        let mut exchange = Exchange::first(Duration::from_millis(1));
        assert_eq!(exchange.on_reply(&response(status)), Step::Decode);
    }
    let mut exchange = Exchange::first(Duration::from_millis(1));
    exchange.on_reply(&broken("reset"));
    exchange.on_reply(&response(503));
    assert_eq!(exchange.on_reply(&response(200)), Step::Decode);
}

#[test]
fn transient_failures_are_retried_a_bounded_number_of_times() {
    let mut exchange = Exchange::first(Duration::from_millis(500));
    assert_eq!(
        exchange.on_reply(&response(500)),
        Step::Retry {
            delay: Duration::from_millis(500)
        }
    );
    assert_eq!(
        exchange.on_reply(&broken("timed out")),
        Step::Retry {
            delay: Duration::from_millis(1000)
        }
    );
    assert_eq!(
        exchange.on_reply(&response(599)),
        Step::Fail(ProviderError::Transport("HTTP 599".into()))
    );
    assert_eq!(MAX_ATTEMPTS, 3);
}

#[test]
fn an_exchange_broken_to_the_end_names_the_reason() {
    let mut exchange = Exchange::first(Duration::from_millis(0));
    exchange.on_reply(&broken("a"));
    exchange.on_reply(&broken("b"));
    assert_eq!(
        exchange.on_reply(&broken("c")),
        Step::Fail(ProviderError::Transport("request failed: c".into()))
    );
}

#[test]
fn rate_limited_surfaces_retry_after_hint() {
    let mut exchange = Exchange::first(Duration::from_millis(1));
    let reply = Reply::Response {
        status: 429,
        retry_after: Some(b"2".to_vec()),
    };
    assert_eq!(
        exchange.on_reply(&reply),
        Step::Fail(ProviderError::RateLimited {
            retry_after: Some(Duration::from_secs(2))
        })
    );
    assert_eq!(
        exchange.on_reply(&response(429)),
        Step::Fail(ProviderError::RateLimited { retry_after: None })
    );
}

#[test]
fn unauthorized_maps_to_auth_error() {
    let mut exchange = Exchange::first(Duration::from_millis(1));
    assert!(matches!(
        exchange.on_reply(&response(401)),
        Step::Fail(ProviderError::Auth(_))
    ));
}

#[test]
fn refusals_are_not_retried() {
    for (status, error) in [
        (400, ProviderError::Transport("HTTP 400".into())),
        (401, ProviderError::Auth("HTTP 401".into())),
        (404, ProviderError::NotFound("HTTP 404".into())),
        (600, ProviderError::Transport("HTTP 600".into())),
        (199, ProviderError::Transport("HTTP 199".into())),
        (300, ProviderError::Transport("HTTP 300".into())),
    ] {
        let mut exchange = Exchange::first(Duration::from_millis(1));
        assert_eq!(exchange.on_reply(&response(status)), Step::Fail(error));
    }
}

#[test]
fn bodies_that_do_not_decode_are_transport_errors() {
    assert_eq!(
        decode_error("expected value"),
        ProviderError::Transport("decoding JSON body: expected value".into())
    );
}

#[test]
fn the_client_builds_and_starts_exchanges() {
    let client = HttpClient::new().unwrap();
    assert_eq!(
        client.begin().on_reply(&response(500)),
        Step::Retry {
            delay: Duration::from_millis(500)
        }
    );
    let client = client.with_backoff_base(Duration::from_millis(3));
    assert_eq!(
        client.begin().on_reply(&response(500)),
        Step::Retry {
            delay: Duration::from_millis(3)
        }
    );
    let request = client.inner().get("http://localhost/x").build().unwrap();
    assert_eq!(request.url().path(), "/x");
    assert_eq!(
        HttpClient::default_timeouts(),
        Timeouts {
            connect_secs: 10,
            total_secs: 30
        }
    );
}

#[test]
fn a_client_that_could_not_be_built_is_a_transport_error() {
    let failed = HttpClient::from_build(Err("no TLS".to_string()), HttpClient::default_timeouts());
    assert_eq!(
        failed.unwrap_err(),
        ProviderError::Transport("building HTTP client: no TLS".into())
    );
}
