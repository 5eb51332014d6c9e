//! The Massive market-data source, end-of-day only.
//!
//! What is asked of the provider, with which credentials, and how its answers are read. Prices
//! are always asked for split-adjusted: realized volatility on unadjusted prices is wrong.
use crate::aggs::{is_mapped, map_aggs, AggsResponse};
use crate::calendar::{
    civil_from_days, date_of_day, day_number, is_date, law_days_read_back,
    law_every_date_has_a_day, push_ymd, ymd_day, ymd_text,
};
use crate::chain::{
    day_of, expirations_fit, is_atm_read, select_atm_iv, ChainResponse, SECS_PER_DAY, TARGET_DTE,
};
use crate::clock::{millis_since_epoch, now_millis, now_secs, secs_since_epoch, span_at};
use crate::double::Double;
use crate::duration::{Duration, NANOS_PER_MILLI};
use crate::http::{
    HttpClient, Timeouts, BACKOFF_BASE_MILLIS, CONNECT_TIMEOUT_SECS, TIMEOUT_SECS,
};
use crate::integer::fits_i64;
use crate::model::{
    Bar, Capability, Failure, IvSnapshot, ProviderError, ProviderInfo, ProviderKind, ProviderResult,
};
use crate::text::{push_signed, signed_decimal};
use vstd::prelude::*;

verus! {

/// Where the provider answers.
pub const MASSIVE_BASE_URL: &'static str = "https://api.massive.com";

/// Milliseconds in a day.
pub const MS_PER_DAY: i64 = 86_400_000;

/// Days from today to the earliest expiration asked for.
pub const EARLIEST_DTE: i64 = 21;

/// Days from today to the latest expiration asked for.
pub const LATEST_DTE: i64 = 45;

// --- Credentials ---

/// An API key, kept in a `secrecy::SecretString` so that it can not leak to a log or an error.
#[verifier::external_body]
#[derive(Debug)]
pub struct ApiKey {
    inner: secrecy::SecretString,
}

/// The characters that an [`ApiKey`] keeps.
pub uninterp spec fn key_text(key: ApiKey) -> Seq<char>;

/// `secrecy::SecretString::from` on a `String`: the secret keeps the characters of `text`.
#[verifier::external_body]
fn conceal(text: String) -> (key: ApiKey)
    ensures
        key_text(key) == text@,
{
    ApiKey { inner: secrecy::SecretString::from(text) }
}

/// `secrecy::ExposeSecret::expose_secret` of a `secrecy::SecretString`: the characters it keeps.
#[verifier::external_body]
fn expose(key: &ApiKey) -> (text: &str)
    ensures
        text@ == key_text(*key),
{
    secrecy::ExposeSecret::expose_secret(&key.inner)
}

// --- The source ---

/// One GET request: where it goes, and the bearer token that rides its `Authorization` header.
pub struct Request<'a> {
    pub url: String,
    pub bearer: &'a str,
}

/// The Massive end-of-day source.
#[derive(Debug)]
pub struct MassiveSource {
    api_key: ApiKey,
    base_url: String,
    http: HttpClient,
}

impl MassiveSource {
    /// The API key.
    pub closed spec fn key(self) -> Seq<char> {
        key_text(self.api_key)
    }

    /// Where requests go.
    pub closed spec fn base_url(self) -> Seq<char> {
        self.base_url@
    }

    /// The client that sends them.
    pub closed spec fn client(self) -> HttpClient {
        self.http
    }

    /// Construct from the value of the `MASSIVE_API_KEY` environment variable.
    pub fn from_env(variable: Option<String>) -> (source: ProviderResult<MassiveSource>)
        ensures
            match (variable, source) {
                (None, Ok(_)) => false,
                (None, Err(e)) => e@ == Failure::Auth("MASSIVE_API_KEY not set"@),
                (Some(key), Ok(s)) => s.is_fresh(key@),
                (Some(key), Err(e)) => exists|reason: Seq<char>|
                    e@ == Failure::Transport(#[trigger] ("building HTTP client: "@ + reason)),
            },
    {
        match variable {
            Some(key) => MassiveSource::with_key(key),
            None => Err(ProviderError::Auth("MASSIVE_API_KEY not set".to_owned())),
        }
    }

    /// Whether this is a source as constructed with `key`: the provider's own address, and the
    /// client as [`HttpClient::new`] builds it.
    pub open spec fn is_fresh(self, key: Seq<char>) -> bool {
        &&& self.key() == key
        &&& self.base_url() == MASSIVE_BASE_URL@
        &&& self.client().timeouts() == (Timeouts {
            connect_secs: CONNECT_TIMEOUT_SECS,
            total_secs: TIMEOUT_SECS,
        })
        &&& self.client().backoff_base() == Duration::of_nanos(
            (BACKOFF_BASE_MILLIS * NANOS_PER_MILLI) as nat,
        )
    }

    /// Construct with an explicit key.
    pub fn with_key(key: String) -> (source: ProviderResult<MassiveSource>)
        ensures
            match source {
                Ok(s) => s.is_fresh(key@),
                Err(e) => exists|reason: Seq<char>|
                    e@ == Failure::Transport(#[trigger] ("building HTTP client: "@ + reason)),
            },
    {
        MassiveSource::with_client(key, HttpClient::new())
    }

    /// Construct with an explicit key and the client that could be built, if one could.
    pub fn with_client(key: String, built: ProviderResult<HttpClient>) -> (source: ProviderResult<
        MassiveSource,
    >)
        ensures
            match built {
                Ok(client) => {
                    &&& source matches Ok(s)
                    &&& s.key() == key@
                    &&& s.base_url() == MASSIVE_BASE_URL@
                    &&& s.client() == client
                },
                Err(e) => source == Err::<MassiveSource, ProviderError>(e),
            },
    {
        match built {
            Ok(http) => Ok(
                MassiveSource {
                    api_key: conceal(key),
                    base_url: MASSIVE_BASE_URL.to_owned(),
                    http,
                },
            ),
            Err(e) => Err(e),
        }
    }

    /// Point the source at a different base URL.
    #[must_use]
    pub fn with_base_url(self, url: String) -> (source: MassiveSource)
        ensures
            source.base_url() == url@,
            source.key() == self.key(),
            source.client() == self.client(),
    {
        MassiveSource { api_key: self.api_key, base_url: url, http: self.http }
    }

    /// Change the wait after the first attempt at a request.
    #[must_use]
    pub fn with_backoff_base(self, base: Duration) -> (source: MassiveSource)
        ensures
            source.client().backoff_base() == base,
            source.client().timeouts() == self.client().timeouts(),
            source.client().client() == self.client().client(),
            source.key() == self.key(),
            source.base_url() == self.base_url(),
    {
        MassiveSource {
            api_key: self.api_key,
            base_url: self.base_url,
            http: self.http.with_backoff_base(base),
        }
    }

    /// The client to send this source's requests with.
    pub fn http(&self) -> (client: &HttpClient)
        ensures
            *client == self.client(),
    {
        &self.http
    }

    /// Introduce the source: end-of-day bars and the options chain with its implied volatility;
    /// no intraday bars, no quotes, no options history.
    pub fn info(&self) -> (info: ProviderInfo)
        ensures
            info.id@ == "massive"@,
            info.kind == ProviderKind::MarketData,
            info.capabilities@ == seq![
                Capability::DailyBars,
                Capability::ImpliedVol,
                Capability::OptionsChain,
            ],
    {
        let capabilities: Vec<Capability> = vec![
            Capability::DailyBars,
            Capability::ImpliedVol,
            Capability::OptionsChain,
        ];
        assert(capabilities@ =~= seq![
            Capability::DailyBars,
            Capability::ImpliedVol,
            Capability::OptionsChain,
        ]);
        ProviderInfo { id: "massive".to_owned(), kind: ProviderKind::MarketData, capabilities }
    }
}

// --- Daily bars ---

/// The calendar days to ask for so that `lookback` sessions are covered: 1.6 days a session,
/// rounded up, and five days of slack for long weekends.
pub open spec fn span_days(lookback: nat) -> nat {
    (8 * lookback + 4) / 5 + 5
}

/// The start of the window, in milliseconds since 1970-01-01, that ends at `to_ms`.
pub open spec fn window_start(lookback: nat, to_ms: int) -> int {
    to_ms - span_days(lookback) * MS_PER_DAY
}

/// Whether the window and its start fit 64 bits.
pub open spec fn window_fits(lookback: nat, to_ms: int) -> bool {
    fits_i64(span_days(lookback) * MS_PER_DAY) && fits_i64(window_start(lookback, to_ms))
}

fn window_start_wide(lookback_days: usize, to_ms: i64) -> (r: (i128, i128))
    ensures
        r.0 == span_days(lookback_days as nat) * MS_PER_DAY,
        r.1 == window_start(lookback_days as nat, to_ms as int),
{
    let span: i128 = (8 * lookback_days as i128 + 4) / 5 + 5;
    assert(0 <= span * 86_400_000 <= 0x4_0000_0000_0000_0000 * 86_400_000);
    let window: i128 = span * MS_PER_DAY as i128;
    (window, to_ms as i128 - window)
}

/// Check that the window for `lookback_days` up to `to_ms` is within reach of 64-bit times.
pub fn is_window_representable(lookback_days: usize, to_ms: i64) -> (r: bool)
    ensures
        r == window_fits(lookback_days as nat, to_ms as int),
{
    let (window, from): (i128, i128) = window_start_wide(lookback_days, to_ms);
    let (low, high): (i128, i128) = (i64::MIN as i128, i64::MAX as i128);
    low <= window && window <= high && low <= from && from <= high
}

/// The path of the aggregates of `symbol` between two times.
pub open spec fn aggs_path(symbol: Seq<char>, from_ms: int, to_ms: int) -> Seq<char> {
    "/v2/aggs/ticker/"@ + symbol + "/range/1/day/"@ + signed_decimal(from_ms) + "/"@
        + signed_decimal(to_ms)
}

/// The path of the options chain of `symbol`.
pub open spec fn chain_path(symbol: Seq<char>) -> Seq<char> {
    "/v3/snapshot/options/"@ + symbol
}

/// The query that bounds the expirations of a chain, seen from day `today`.
pub open spec fn chain_query(today: int) -> Seq<char> {
    let (gy, gm, gd) = date_of_day(today + EARLIEST_DTE);
    let (ly, lm, ld) = date_of_day(today + LATEST_DTE);
    "?expiration_date.gte="@ + ymd_text(gy, gm, gd) + "&expiration_date.lte="@ + ymd_text(
        ly,
        lm,
        ld,
    ) + "&limit=250"@
}

impl MassiveSource {
    /// Where the daily bars of `symbol` are, split-adjusted and ascending.
    pub open spec fn daily_bars_url(
        self,
        symbol: Seq<char>,
        lookback: nat,
        to_ms: int,
    ) -> Seq<char> {
        self.base_url() + aggs_path(symbol, window_start(lookback, to_ms), to_ms)
            + "?adjusted=true&sort=asc&limit=50000"@
    }

    /// Where the options chain of `symbol` is, around the target expiration.
    pub open spec fn chain_url(self, symbol: Seq<char>, today: int) -> Seq<char> {
        self.base_url() + chain_path(symbol) + chain_query(today)
    }

    /// The request for the split-adjusted daily bars that cover `lookback_days` sessions up to
    /// `to_ms`, in milliseconds since 1970-01-01.
    pub fn daily_bars_request(&self, symbol: &str, lookback_days: usize, to_ms: i64) -> (
        request: Request<'_>)
        requires
            window_fits(lookback_days as nat, to_ms as int),
        ensures
            request.url@ == self.daily_bars_url(symbol@, lookback_days as nat, to_ms as int),
            request.bearer@ == self.key(),
    {
        let from_ms: i64 = window_start_wide(lookback_days, to_ms).1 as i64;
        let mut url: String = self.base_url.clone();
        url.append("/v2/aggs/ticker/");
        url.append(symbol);
        url.append("/range/1/day/");
        push_signed(&mut url, from_ms);
        url.append("/");
        push_signed(&mut url, to_ms);
        url.append("?adjusted=true&sort=asc&limit=50000");
        assert(url@ =~= self.daily_bars_url(symbol@, lookback_days as nat, to_ms as int));
        Request { url, bearer: expose(&self.api_key) }
    }

    /// The request for the options chain around the target expiration, seen from `now_secs`, in
    /// seconds since 1970-01-01.
    pub fn chain_request(&self, symbol: &str, now_secs: i64) -> (request: Request<'_>)
        ensures
            request.url@ == self.chain_url(symbol@, day_of(now_secs)),
            request.bearer@ == self.key(),
    {
        let today: i64 = now_secs / SECS_PER_DAY;
        let (gy, gm, gd): (i64, i64, i64) = civil_from_days(today + EARLIEST_DTE);
        let (ly, lm, ld): (i64, i64, i64) = civil_from_days(today + LATEST_DTE);
        let mut url: String = self.base_url.clone();
        url.append("/v3/snapshot/options/");
        url.append(symbol);
        url.append("?expiration_date.gte=");
        push_ymd(&mut url, gy, gm, gd);
        url.append("&expiration_date.lte=");
        push_ymd(&mut url, ly, lm, ld);
        url.append("&limit=250");
        assert(url@ =~= self.chain_url(symbol@, day_of(now_secs)));
        Request { url, bearer: expose(&self.api_key) }
    }

    /// The request for the daily bars that cover `lookback_days` sessions up to now, by the clock;
    /// `None` when the window is out of reach of 64-bit times.
    pub fn daily_bars_request_now(&self, symbol: &str, lookback_days: usize) -> (request: Option<
        Request<'_>,
    >)
        ensures
            exists|reading: std::time::SystemTime|
                {
                    let to_ms = millis_since_epoch(#[trigger] span_at(reading)) as int;
                    match request {
                        Some(r) => {
                            &&& window_fits(lookback_days as nat, to_ms)
                            &&& r.url@ == self.daily_bars_url(symbol@, lookback_days as nat, to_ms)
                            &&& r.bearer@ == self.key()
                        },
                        None => !window_fits(lookback_days as nat, to_ms),
                    }
                },
    {
        let to_ms: i64 = now_millis();
        if is_window_representable(lookback_days, to_ms) {
            Some(self.daily_bars_request(symbol, lookback_days, to_ms))
        } else {
            None
        }
    }

    /// The request for the options chain around the target expiration, seen from now, and the
    /// reading of the clock in seconds that it is seen from.
    pub fn chain_request_now(&self, symbol: &str) -> (asked: (i64, Request<'_>))
        ensures
            exists|reading: std::time::SystemTime|
                asked.0 == secs_since_epoch(#[trigger] span_at(reading)),
            asked.1.url@ == self.chain_url(symbol@, day_of(asked.0)),
            asked.1.bearer@ == self.key(),
    {
        let now_s: i64 = now_secs();
        (now_s, self.chain_request(symbol, now_s))
    }
}

// --- Answers ---

/// Read the answer to a request for daily bars: a failed request is handed on as it is, and the
/// ticks of any other are mapped to canonical bars.
pub fn read_daily_bars(
    reply: ProviderResult<AggsResponse>,
    lookback_days: usize,
    symbol: &str,
) -> (bars: ProviderResult<Vec<Bar>>)
    ensures
        match reply {
            Ok(resp) => is_mapped(resp.results@, lookback_days as nat, symbol@, bars),
            Err(e) => bars == Err::<Vec<Bar>, ProviderError>(e),
        },
{
    match reply {
        Ok(resp) => map_aggs(resp, lookback_days, symbol),
        Err(e) => Err(e),
    }
}

/// Whether `snapshot` holds the at-the-money read of a chain, with the symbol and an empty history.
pub open spec fn is_snapshot<D: Fn(Double, Double) -> Double, M: Fn(&Vec<Double>) -> Double>(
    chain: ChainResponse,
    now_secs: i64,
    symbol: Seq<char>,
    distance: D,
    mean: M,
    snapshot: ProviderResult<IvSnapshot>,
) -> bool {
    &&& is_atm_read(
        chain.results@,
        now_secs,
        symbol,
        distance,
        mean,
        match snapshot {
            Ok(s) => Ok(s.iv),
            Err(e) => Err(e),
        },
    )
    &&& snapshot matches Ok(s) ==> s.symbol@ == symbol && s.iv_history@.len() == 0
}

/// Read the answer to a request for a chain: a failed request is handed on as it is, and any other
/// is read as a snapshot.
pub fn read_iv_snapshot<D: Fn(Double, Double) -> Double, M: Fn(&Vec<Double>) -> Double>(
    reply: ProviderResult<ChainResponse>,
    now_secs: i64,
    symbol: &str,
    distance: D,
    mean: M,
) -> (snapshot: ProviderResult<IvSnapshot>)
    requires
        reply matches Ok(chain) ==> expirations_fit(chain.results@, day_of(now_secs)),
        forall|a: Double, b: Double| call_requires(distance, (a, b)),
        forall|ivs: &Vec<Double>| call_requires(mean, (ivs,)),
    ensures
        match reply {
            Ok(chain) => is_snapshot(chain, now_secs, symbol@, distance, mean, snapshot),
            Err(e) => snapshot == Err::<IvSnapshot, ProviderError>(e),
        },
{
    match reply {
        Ok(chain) => read_snapshot(&chain, now_secs, symbol, distance, mean),
        Err(e) => Err(e),
    }
}

/// Read the at-the-money implied volatility of a chain as a snapshot. Its history is empty:
/// the trailing series is for the caller to accumulate.
pub fn read_snapshot<D: Fn(Double, Double) -> Double, M: Fn(&Vec<Double>) -> Double>(
    chain: &ChainResponse,
    now_secs: i64,
    symbol: &str,
    distance: D,
    mean: M,
) -> (snapshot: ProviderResult<IvSnapshot>)
    requires
        expirations_fit(chain.results@, day_of(now_secs)),
        forall|a: Double, b: Double| call_requires(distance, (a, b)),
        forall|ivs: &Vec<Double>| call_requires(mean, (ivs,)),
    ensures
        is_snapshot(*chain, now_secs, symbol@, distance, mean, snapshot),
{
    match select_atm_iv(chain, now_secs, symbol, distance, mean) {
        Ok(iv) => Ok(IvSnapshot::new(symbol, iv, Vec::new())),
        Err(e) => Err(e),
    }
}

// --- Laws of the requests ---

/// The key never shows in a URL: sources that differ in nothing but the key ask the same URLs.
pub proof fn law_urls_do_not_depend_on_the_key(
    first: MassiveSource,
    second: MassiveSource,
    symbol: Seq<char>,
    lookback: nat,
    to_ms: int,
    today: int,
)
    requires
        first.base_url() == second.base_url(),
    ensures
        first.daily_bars_url(symbol, lookback, to_ms) == second.daily_bars_url(
            symbol,
            lookback,
            to_ms,
        ),
        first.chain_url(symbol, today) == second.chain_url(symbol, today),
{
}

/// Daily bars are always asked for split-adjusted: whatever the source, symbol and window, that is
/// how the URL ends.
pub proof fn law_bars_are_asked_for_adjusted(
    source: MassiveSource,
    symbol: Seq<char>,
    lookback: nat,
    to_ms: int,
)
    ensures
        ({
            let url = source.daily_bars_url(symbol, lookback, to_ms);
            let query = "?adjusted=true&sort=asc&limit=50000"@;
            url.len() >= query.len() && url.skip(url.len() - query.len()) == query
        }),
{
    let url = source.daily_bars_url(symbol, lookback, to_ms);
    let query = "?adjusted=true&sort=asc&limit=50000"@;
    assert(url.skip(url.len() - query.len()) =~= query);
}

/// The window covers the sessions asked for at eight calendar days to five sessions, with five
/// days to spare and less than one day more. So it holds a day for each session and the five to
/// spare, and a million sessions up to any time since 1970 are within reach.
pub proof fn law_window_covers_the_lookback(lookback: nat, to_ms: int)
    ensures
        ({
            let covered = to_ms - window_start(lookback, to_ms) - 5 * MS_PER_DAY;
            8 * lookback * MS_PER_DAY <= 5 * covered < (8 * lookback + 5) * MS_PER_DAY
        }),
        to_ms - window_start(lookback, to_ms) >= (lookback + 5) * MS_PER_DAY,
        lookback <= 1_000_000 && 0 <= to_ms <= i64::MAX ==> window_fits(lookback, to_ms),
{
}

/// The two dates of a chain request read back as the bounds of the expirations asked for, and the
/// target expiration lies between them. The days are those of years from 0 on, which are written
/// without a sign.
pub proof fn law_chain_window_holds_the_target(today: int)
    requires
        0 <= date_of_day(today + EARLIEST_DTE).0 <= i64::MAX,
        0 <= date_of_day(today + LATEST_DTE).0 <= i64::MAX,
    ensures
        ({
            let (gy, gm, gd) = date_of_day(today + EARLIEST_DTE);
            let (ly, lm, ld) = date_of_day(today + LATEST_DTE);
            &&& ymd_day(ymd_text(gy, gm, gd)) == Some(today + EARLIEST_DTE)
            &&& ymd_day(ymd_text(ly, lm, ld)) == Some(today + LATEST_DTE)
            &&& today + EARLIEST_DTE <= today + TARGET_DTE <= today + LATEST_DTE
        }),
{
    law_days_read_back(today + EARLIEST_DTE);
    law_days_read_back(today + LATEST_DTE);
}

// --- Laws of the requests in full ---

/// A request for bars, letter by letter: the address, every character of the symbol, the start and
/// the end of the window in milliseconds, and the query. The start is a whole number of days
/// before the end: eight for five sessions, rounded up, and five.
pub proof fn law_bars_url_in_full(
    source: MassiveSource,
    symbol: Seq<char>,
    lookback: nat,
    to_ms: int,
    days: int,
)
    requires
        8 * lookback <= 5 * (days - 5) < 8 * lookback + 5,
    ensures
        source.daily_bars_url(symbol, lookback, to_ms) == source.base_url() + "/v2/aggs/ticker/"@
            + symbol + "/range/1/day/"@ + signed_decimal(to_ms - days * 86_400_000) + "/"@
            + signed_decimal(to_ms) + "?adjusted=true&sort=asc&limit=50000"@,
{
    assert(days == span_days(lookback));
    assert(source.daily_bars_url(symbol, lookback, to_ms) =~= source.base_url()
        + "/v2/aggs/ticker/"@ + symbol + "/range/1/day/"@ + signed_decimal(
        to_ms - days * 86_400_000,
    ) + "/"@ + signed_decimal(to_ms) + "?adjusted=true&sort=asc&limit=50000"@);
}

/// A request for a chain, letter by letter: the address, every character of the symbol, and the
/// dates 21 and 45 days from `today` as the bounds of the expirations.
pub proof fn law_chain_url_in_full(
    source: MassiveSource,
    symbol: Seq<char>,
    today: int,
    earliest: (int, int, int),
    latest: (int, int, int),
)
    requires
        is_date(earliest.0, earliest.1, earliest.2),
        is_date(latest.0, latest.1, latest.2),
        day_number(earliest.0, earliest.1, earliest.2) == today + 21,
        day_number(latest.0, latest.1, latest.2) == today + 45,
    ensures
        source.chain_url(symbol, today) == source.base_url() + "/v3/snapshot/options/"@ + symbol
            + "?expiration_date.gte="@ + ymd_text(earliest.0, earliest.1, earliest.2)
            + "&expiration_date.lte="@ + ymd_text(latest.0, latest.1, latest.2) + "&limit=250"@,
{
    law_every_date_has_a_day(earliest.0, earliest.1, earliest.2);
    law_every_date_has_a_day(latest.0, latest.1, latest.2);
    assert(source.chain_url(symbol, today) =~= source.base_url() + "/v3/snapshot/options/"@
        + symbol + "?expiration_date.gte="@ + ymd_text(earliest.0, earliest.1, earliest.2)
        + "&expiration_date.lte="@ + ymd_text(latest.0, latest.1, latest.2) + "&limit=250"@);
}

/// Text put between the same beginning and the same end tells itself apart.
proof fn lemma_middle_is_told(
    head: Seq<char>,
    first: Seq<char>,
    second: Seq<char>,
    tail: Seq<char>,
)
    requires
        head + first + tail == head + second + tail,
    ensures
        first == second,
{
    let (a, b) = (head + first + tail, head + second + tail);
    assert(a.len() == head.len() + first.len() + tail.len());
    assert(b.len() == head.len() + second.len() + tail.len());
    let at = head.len() as int;
    assert(a.subrange(at, at + first.len()) =~= first);
    assert(b.subrange(at, at + second.len()) =~= second);
}

/// Two symbols never share an address: with all else equal, bars and chains of different symbols
/// are asked for at different URLs.
pub proof fn law_symbols_do_not_share_an_url(
    source: MassiveSource,
    first: Seq<char>,
    second: Seq<char>,
    lookback: nat,
    to_ms: int,
    today: int,
)
    requires
        first != second,
    ensures
        source.daily_bars_url(first, lookback, to_ms) != source.daily_bars_url(
            second,
            lookback,
            to_ms,
        ),
        source.chain_url(first, today) != source.chain_url(second, today),
{
    let head = source.base_url() + "/v2/aggs/ticker/"@;
    let tail = "/range/1/day/"@ + signed_decimal(window_start(lookback, to_ms)) + "/"@
        + signed_decimal(to_ms) + "?adjusted=true&sort=asc&limit=50000"@;
    assert(source.daily_bars_url(first, lookback, to_ms) =~= head + first + tail);
    assert(source.daily_bars_url(second, lookback, to_ms) =~= head + second + tail);
    if head + first + tail == head + second + tail {
        lemma_middle_is_told(head, first, second, tail);
    }
    let head = source.base_url() + "/v3/snapshot/options/"@;
    let tail = chain_query(today);
    assert(source.chain_url(first, today) =~= head + first + tail);
    assert(source.chain_url(second, today) =~= head + second + tail);
    if head + first + tail == head + second + tail {
        lemma_middle_is_told(head, first, second, tail);
    }
}

/// A window is out of reach only where its length or its start is beyond 64 bits.
pub proof fn law_reach_of_a_window(lookback: nat, to_ms: int, days: int)
    requires
        8 * lookback <= 5 * (days - 5) < 8 * lookback + 5,
    ensures
        window_fits(lookback, to_ms) <==> days * 86_400_000 <= 0x7fff_ffff_ffff_ffff
            && -0x8000_0000_0000_0000 <= to_ms - days * 86_400_000 <= 0x7fff_ffff_ffff_ffff,
{
    assert(days == span_days(lookback));
}

/// A fresh source holds the whole key and the provider's own address, gives a connection ten
/// seconds and an exchange thirty, and waits half a second before the second attempt.
pub proof fn law_fresh_source_in_numbers(source: MassiveSource, key: Seq<char>)
    requires
        source.is_fresh(key),
    ensures
        source.key() == key,
        source.base_url() == "https://api.massive.com"@,
        source.client().timeouts().connect_secs == 10,
        source.client().timeouts().total_secs == 30,
        source.client().backoff_base().as_nanos() == 500_000_000,
{
    Duration::law_nanos_identify(500_000_000);
}

/// A snapshot names the whole symbol, has an empty history, and holds the read of the chain; where
/// the read fails its error is handed on as it is.
pub proof fn law_snapshot_holds_the_read<
    D: Fn(Double, Double) -> Double,
    M: Fn(&Vec<Double>) -> Double,
>(
    chain: ChainResponse,
    now_secs: i64,
    symbol: Seq<char>,
    distance: D,
    mean: M,
    snapshot: ProviderResult<IvSnapshot>,
)
    requires
        is_snapshot(chain, now_secs, symbol, distance, mean, snapshot),
    ensures
        match snapshot {
            Ok(s) => {
                &&& s.symbol@ == symbol
                &&& s.iv_history@.len() == 0
                &&& is_atm_read(chain.results@, now_secs, symbol, distance, mean, Ok(s.iv))
            },
            Err(e) => is_atm_read(chain.results@, now_secs, symbol, distance, mean, Err(e)),
        },
{
}

} // verus!
