//! Rules of talking to a REST provider: which replies to retry and how long to wait, and what
//! every failure is called.
//!
//! A `429` is surfaced at once as [`ProviderError::RateLimited`] with the `Retry-After` hint; only
//! transient failures (`5xx`, broken exchanges) are tried again, a bounded number of times.
use crate::duration::{max_nanos, Duration, NANOS_PER_MILLI, NANOS_PER_SEC};
use crate::model::{message, Failure, ProviderError, ProviderResult};
use crate::text::{
    chars_of, decimal, is_digit, is_whitespace, law_only_white_space_around_is_dropped,
    law_text_is_no_number, law_unsigned_is_read_by_position, lemma_trimmed_keeps, push_decimal,
    read_unsigned, trim, trimmed, unsigned_value,
};
use vstd::arithmetic::power2::pow2;
use vstd::prelude::*;

verus! {

/// Total attempts for one request: the first try plus the retries of transient failures.
pub const MAX_ATTEMPTS: u32 = 3;

/// Seconds a client waits for a connection.
pub const CONNECT_TIMEOUT_SECS: u64 = 10;

/// Seconds a client waits for a whole exchange.
pub const TIMEOUT_SECS: u64 = 30;

/// Milliseconds between the first attempt and the second.
pub const BACKOFF_BASE_MILLIS: u64 = 500;

pub const UNAUTHORIZED: u16 = 401;

pub const FORBIDDEN: u16 = 403;

pub const NOT_FOUND: u16 = 404;

pub const TOO_MANY_REQUESTS: u16 = 429;

// --- Status codes ---

/// Whether a status code reports success.
pub open spec fn is_success(status: u16) -> bool {
    200 <= status < 300
}

/// Whether a status code reports a failure of the server.
pub open spec fn is_server_error(status: u16) -> bool {
    500 <= status < 600
}

/// `reqwest::StatusCode::is_success` of the code `status`: true of 200 to 299. A number that is no
/// status code is no success.
#[verifier::external_body]
fn status_is_success(status: u16) -> (r: bool)
    ensures
        r == is_success(status),
{
    reqwest::StatusCode::from_u16(status).is_ok_and(|code| code.is_success())
}

/// `reqwest::StatusCode::is_server_error` of the code `status`: true of 500 to 599. A number that
/// is no status code is no server error.
#[verifier::external_body]
fn status_is_server_error(status: u16) -> (r: bool)
    ensures
        r == is_server_error(status),
{
    reqwest::StatusCode::from_u16(status).is_ok_and(|code| code.is_server_error())
}

/// The failure that a status code stands for.
pub open spec fn status_failure(status: u16) -> Failure {
    let text = "HTTP "@ + decimal(status as nat);
    if status == UNAUTHORIZED || status == FORBIDDEN {
        Failure::Auth(text)
    } else if status == NOT_FOUND {
        Failure::NotFound(text)
    } else {
        Failure::Transport(text)
    }
}

/// Map a status that is neither a success nor retried onto a typed error.
pub fn status_to_error(status: u16) -> (e: ProviderError)
    ensures
        e@ == status_failure(status),
{
    let mut text: String = message("HTTP ", "");
    proof {
        reveal_strlit("");
        assert("HTTP "@ + ""@ =~= "HTTP "@);
    }
    push_decimal(&mut text, status as u64);
    if status == UNAUTHORIZED || status == FORBIDDEN {
        ProviderError::Auth(text)
    } else if status == NOT_FOUND {
        ProviderError::NotFound(text)
    } else {
        ProviderError::Transport(text)
    }
}

// --- Retry-After ---

/// The span that a `Retry-After` text asks for: a number of seconds, white space around it
/// ignored. Any other form asks for nothing.
pub open spec fn retry_after_value(text: Seq<char>) -> Option<Duration> {
    match unsigned_value(trimmed(text)) {
        Some(secs) => Some(Duration::of_nanos((secs * NANOS_PER_SEC) as nat)),
        None => None,
    }
}

/// Parse a `Retry-After` header. Only the delta-seconds form is understood; the HTTP-date form
/// maps to `None` rather than a wrong guess.
pub fn parse_retry_after(raw: Option<&str>) -> (delay: Option<Duration>)
    ensures
        delay == (match raw {
            Some(text) => retry_after_value(text@),
            None => None,
        }),
{
    match raw {
        Some(text) => match read_unsigned(&trim(&chars_of(text))) {
            Some(secs) => Some(Duration::from_secs(secs)),
            None => None,
        },
        None => None,
    }
}

/// Whether a byte of a header value is a visible ASCII character or a tab.
pub open spec fn is_visible(b: u8) -> bool {
    32 <= b < 127 || b == 9
}

/// The text of a header value, when all of it is visible ASCII.
pub open spec fn header_text(bytes: Seq<u8>) -> Option<Seq<char>> {
    if forall|i: int| 0 <= i < bytes.len() ==> is_visible(#[trigger] bytes[i]) {
        Some(Seq::new(bytes.len(), |i: int| bytes[i] as char))
    } else {
        None
    }
}

/// `reqwest::header::HeaderValue::to_str` of the header value made of `bytes`: its characters when
/// every byte is visible ASCII or a tab, and nothing otherwise. Bytes that no header value may
/// hold are not visible either.
#[verifier::external_body]
fn header_to_str(bytes: &[u8]) -> (text: Option<String>)
    ensures
        match header_text(bytes@) {
            Some(chars) => text matches Some(t) && t@ == chars,
            None => text is None,
        },
{
    let value = reqwest::header::HeaderValue::from_bytes(bytes).ok()?;
    value.to_str().ok().map(|text| text.to_string())
}

/// The span that the bytes of a `Retry-After` header ask for.
pub open spec fn retry_hint(header: Option<Seq<u8>>) -> Option<Duration> {
    match header {
        Some(bytes) => match header_text(bytes) {
            Some(text) => retry_after_value(text),
            None => None,
        },
        None => None,
    }
}

/// Read the `Retry-After` header of a response.
pub fn retry_after_hint(header: Option<&Vec<u8>>) -> (delay: Option<Duration>)
    ensures
        delay == retry_hint(
            match header {
                Some(bytes) => Some(bytes@),
                None => None,
            },
        ),
{
    match header {
        Some(bytes) => match header_to_str(bytes.as_slice()) {
            Some(text) => parse_retry_after(Some(text.as_str())),
            None => None,
        },
        None => None,
    }
}

// --- Backoff ---

/// The wait after attempt `attempt`: the base, doubled with each attempt after the first, and
/// never longer than a span can be.
pub open spec fn backoff(base: Duration, attempt: nat) -> Duration {
    let nanos = base.as_nanos() * pow2((attempt - 1) as nat);
    Duration::of_nanos(
        if nanos <= max_nanos() {
            nanos
        } else {
            max_nanos()
        },
    )
}

/// Doubling a span that is already the longest keeps it so: saturating on the way makes no
/// difference.
proof fn lemma_saturated_steps(n: nat, p: nat, q: nat)
    requires
        q >= 1,
    ensures
        n * p <= max_nanos() ==> (n * p) * q == n * (p * q),
        n * p > max_nanos() ==> max_nanos() * q >= max_nanos() && n * (p * q) > max_nanos(),
{
    assert((n * p) * q == n * (p * q)) by (nonlinear_arith);
    let x = n * p;
    let m = max_nanos();
    assert(x > m ==> x * q > m && m * q >= m) by (nonlinear_arith)
        requires
            q >= 1,
            x >= 0,
            m >= 0,
    ;
}

/// A span doubled a hundred times is nothing or past the longest, as it is when doubled more often.
proof fn lemma_hundred_doublings(n: nat, doublings: nat)
    requires
        doublings >= 100,
    ensures
        n > 0 ==> n * pow2(doublings) > max_nanos(),
        n == 0 ==> n * pow2(doublings) == 0,
{
    vstd::arithmetic::power2::lemma2_to64();
    vstd::arithmetic::power2::lemma2_to64_rest();
    vstd::arithmetic::power2::lemma_pow2_adds(50, 50);
    if doublings > 100 {
        vstd::arithmetic::power2::lemma_pow2_strictly_increases(100, doublings);
    }
    let p = pow2(doublings);
    assert(n > 0 ==> n * p >= p) by (nonlinear_arith);
    assert(n == 0 ==> n * p == 0) by (nonlinear_arith);
}

/// Exponential backoff for an attempt counted from 1: the base doubled with each attempt after the
/// first, saturating.
pub fn backoff_delay(base: Duration, attempt: u32) -> (delay: Duration)
    requires
        1 <= attempt,
    ensures
        delay == backoff(base, attempt as nat),
        attempt == 1 ==> delay == base,
{
    let doublings: u32 = if attempt - 1 > 100 { 100 } else { attempt - 1 };
    let ghost n = base.as_nanos();
    let mut delay: Duration = base.saturating_mul(1);
    let mut done: u32 = 0;
    proof {
        vstd::arithmetic::power2::lemma2_to64();
        assert(n * 1 == n) by (nonlinear_arith);
    }
    while done < doublings
        invariant
            done <= doublings <= 100,
            n == base.as_nanos(),
            delay == backoff(base, (done + 1) as nat),
            done == 0 ==> delay == base,
        decreases doublings - done,
    {
        let shift: u32 = if doublings - done > 31 { 31 } else { doublings - done };
        proof {
            let p = pow2(done as nat);
            let q = pow2(shift as nat);
            vstd::arithmetic::power2::lemma2_to64();
            if shift < 31 {
                vstd::arithmetic::power2::lemma_pow2_strictly_increases(shift as nat, 31);
            }
            vstd::bits::lemma_u32_shl_is_mul(1, shift);
            vstd::arithmetic::power2::lemma_pow2_pos(shift as nat);
            vstd::arithmetic::power2::lemma_pow2_adds(done as nat, shift as nat);
            lemma_saturated_steps(n, p, q);
            Duration::law_nanos_identify(max_nanos());
            if n * p <= max_nanos() {
                Duration::law_nanos_identify(n * p);
            }
        }
        delay = delay.saturating_mul(1u32 << shift);
        done = done + shift;
    }
    proof {
        if attempt - 1 > 100 {
            lemma_hundred_doublings(n, 100);
            lemma_hundred_doublings(n, (attempt - 1) as nat);
        }
    }
    delay
}

// --- One exchange: attempts until a verdict ---

/// What came back from one attempt at a request.
#[derive(Debug, PartialEq, Eq)]
pub enum Reply {
    /// The server answered with this status and, if it sent one, this `Retry-After` header.
    Response { status: u16, retry_after: Option<Vec<u8>> },
    /// The exchange broke down before an answer.
    Broken { reason: String },
}

/// A [`Reply`], its contents as sequences.
pub enum ReplyView {
    Response { status: u16, retry_after: Option<Seq<u8>> },
    Broken { reason: Seq<char> },
}

impl View for Reply {
    type V = ReplyView;

    open spec fn view(&self) -> ReplyView {
        match *self {
            Reply::Response { status, retry_after } => ReplyView::Response {
                status,
                retry_after: match retry_after {
                    Some(bytes) => Some(bytes@),
                    None => None,
                },
            },
            Reply::Broken { reason } => ReplyView::Broken { reason: reason@ },
        }
    }
}

/// What to do after a reply.
#[derive(Debug, PartialEq, Eq)]
pub enum Step {
    /// The request succeeded: decode its body.
    Decode,
    /// Wait, then send the request again.
    Retry { delay: Duration },
    /// Give up with this error.
    Fail(ProviderError),
}

/// A [`Step`], its error as a [`Failure`].
pub enum StepView {
    Decode,
    Retry { delay: Duration },
    Fail(Failure),
}

impl View for Step {
    type V = StepView;

    open spec fn view(&self) -> StepView {
        match *self {
            Step::Decode => StepView::Decode,
            Step::Retry { delay } => StepView::Retry { delay },
            Step::Fail(e) => StepView::Fail(e@),
        }
    }
}

/// Whether a reply may be different next time: a broken exchange or a failure of the server.
pub open spec fn is_transient(reply: ReplyView) -> bool {
    match reply {
        ReplyView::Response { status, .. } => is_server_error(status),
        ReplyView::Broken { .. } => true,
    }
}

/// The failure that a reply stands for when it is not tried again.
pub open spec fn reply_failure(reply: ReplyView) -> Failure {
    match reply {
        ReplyView::Response { status, retry_after } => if status == TOO_MANY_REQUESTS {
            Failure::RateLimited(retry_hint(retry_after))
        } else {
            status_failure(status)
        },
        ReplyView::Broken { reason } => Failure::Transport("request failed: "@ + reason),
    }
}

/// What to do after `reply` came back from attempt `attempt`.
pub open spec fn step_after(base: Duration, attempt: nat, reply: ReplyView) -> StepView {
    if reply matches ReplyView::Response { status, .. } && is_success(status) {
        StepView::Decode
    } else if is_transient(reply) && attempt < MAX_ATTEMPTS {
        StepView::Retry { delay: backoff(base, attempt) }
    } else {
        StepView::Fail(reply_failure(reply))
    }
}

/// A request under way: which attempt is running, and how long the first wait is.
#[derive(Clone, Copy, Debug)]
pub struct Exchange {
    attempt: u32,
    backoff_base: Duration,
}

impl Exchange {
    #[verifier::type_invariant]
    spec fn well_formed(self) -> bool {
        1 <= self.attempt <= MAX_ATTEMPTS
    }

    /// The number of the running attempt.
    pub closed spec fn attempt(self) -> nat {
        self.attempt as nat
    }

    /// The wait after the first attempt.
    pub closed spec fn backoff_base(self) -> Duration {
        self.backoff_base
    }

    /// The first attempt at a request.
    pub fn first(backoff_base: Duration) -> (exchange: Exchange)
        ensures
            exchange.attempt() == 1,
            exchange.backoff_base() == backoff_base,
    {
        Exchange { attempt: 1, backoff_base }
    }

    /// Decide on the reply to the running attempt. A retry starts the next attempt.
    pub fn on_reply(&mut self, reply: &Reply) -> (step: Step)
        ensures
            1 <= old(self).attempt() <= MAX_ATTEMPTS,
            step@ == step_after(old(self).backoff_base(), old(self).attempt(), reply@),
            final(self).backoff_base() == old(self).backoff_base(),
            final(self).attempt() == old(self).attempt() + (if step@ is Retry {
                1int
            } else {
                0int
            }),
    {
        proof {
            use_type_invariant(&*self);
        }
        match reply {
            Reply::Response { status, retry_after } => {
                if status_is_success(*status) {
                    return Step::Decode;
                }
                if *status == TOO_MANY_REQUESTS {
                    let hint: Option<Duration> = retry_after_hint(retry_after.as_ref());
                    return Step::Fail(ProviderError::RateLimited { retry_after: hint });
                }
                if status_is_server_error(*status) && self.attempt < MAX_ATTEMPTS {
                    return self.retry();
                }
                Step::Fail(status_to_error(*status))
            },
            Reply::Broken { reason } => {
                if self.attempt < MAX_ATTEMPTS {
                    return self.retry();
                }
                Step::Fail(ProviderError::Transport(message("request failed: ", reason.as_str())))
            },
        }
    }

    fn retry(&mut self) -> (step: Step)
        requires
            1 <= old(self).attempt() < MAX_ATTEMPTS,
        ensures
            step@ == (StepView::Retry {
                delay: backoff(old(self).backoff_base(), old(self).attempt()),
            }),
            final(self).backoff_base() == old(self).backoff_base(),
            final(self).attempt() == old(self).attempt() + 1,
    {
        let delay: Duration = backoff_delay(self.backoff_base, self.attempt);
        self.attempt = self.attempt + 1;
        Step::Retry { delay }
    }
}

/// The error for a successful response whose body is not the expected JSON.
pub fn decode_error(reason: &str) -> (e: ProviderError)
    ensures
        e@ == Failure::Transport("decoding JSON body: "@ + reason@),
{
    ProviderError::Transport(message("decoding JSON body: ", reason))
}

// --- The client ---

/// `reqwest::Client`, a pool of connections with the settings it was built with.
#[verifier::external_type_specification]
#[verifier::external_body]
pub struct ExClient(reqwest::Client);

/// `reqwest::Error`, the reason why `reqwest` could not do what it was asked.
#[verifier::external_type_specification]
#[verifier::external_body]
pub struct ExError(reqwest::Error);

/// `reqwest::ClientBuilder::build` after `connect_timeout` and `timeout`, both in seconds, asked
/// with no other limits than those of every client. Whether a client can be built depends on the
/// machine's TLS set-up, and a client shows nothing of its settings, so nothing is claimed of the
/// outcome.
#[verifier::external_body]
fn build_client(connect_timeout_secs: u64, timeout_secs: u64) -> (built: Result<
    reqwest::Client,
    reqwest::Error,
>)
    requires
        connect_timeout_secs == CONNECT_TIMEOUT_SECS,
        timeout_secs == TIMEOUT_SECS,
{
    reqwest::Client::builder()
        .connect_timeout(std::time::Duration::from_secs(connect_timeout_secs))
        .timeout(std::time::Duration::from_secs(timeout_secs))
        .build()
}

/// The time limits of a client.
#[derive(Clone, Copy, Debug, PartialEq, Eq, Structural)]
pub struct Timeouts {
    pub connect_secs: u64,
    pub total_secs: u64,
}

/// A JSON HTTP client with time limits and a backoff for its retries.
#[derive(Debug)]
pub struct HttpClient {
    inner: reqwest::Client,
    timeouts: Timeouts,
    backoff_base: Duration,
}

impl HttpClient {
    /// The time limits recorded for the client. Those of a client that [`HttpClient::new`] returns
    /// are the limits that were asked for when it was built.
    pub closed spec fn timeouts(self) -> Timeouts {
        self.timeouts
    }

    /// The wait after the first attempt at a request.
    pub closed spec fn backoff_base(self) -> Duration {
        self.backoff_base
    }

    /// The client that sends the requests.
    pub closed spec fn client(self) -> reqwest::Client {
        self.inner
    }

    /// The time limits of every client.
    pub fn default_timeouts() -> (timeouts: Timeouts)
        ensures
            timeouts == (Timeouts {
                connect_secs: CONNECT_TIMEOUT_SECS,
                total_secs: TIMEOUT_SECS,
            }),
    {
        Timeouts { connect_secs: CONNECT_TIMEOUT_SECS, total_secs: TIMEOUT_SECS }
    }

    /// Build a client with connect and total timeouts.
    pub fn new() -> (client: ProviderResult<HttpClient>)
        ensures
            match client {
                Ok(c) => {
                    &&& c.timeouts() == (Timeouts {
                        connect_secs: CONNECT_TIMEOUT_SECS,
                        total_secs: TIMEOUT_SECS,
                    })
                    &&& c.backoff_base() == Duration::of_nanos(
                        (BACKOFF_BASE_MILLIS * NANOS_PER_MILLI) as nat,
                    )
                },
                Err(e) => exists|reason: Seq<char>|
                    e@ == Failure::Transport(#[trigger] ("building HTTP client: "@ + reason)),
            },
    {
        let timeouts: Timeouts = HttpClient::default_timeouts();
        match build_client(timeouts.connect_secs, timeouts.total_secs) {
            Ok(inner) => HttpClient::from_build(Ok(inner), timeouts),
            Err(e) => HttpClient::from_build(Err(e.to_string()), timeouts),
        }
    }

    /// Wrap a client, `timeouts` recorded as its limits, or name the reason why there is none.
    pub fn from_build(built: Result<reqwest::Client, String>, timeouts: Timeouts) -> (client:
        ProviderResult<HttpClient>)
        ensures
            match built {
                Ok(inner) => {
                    &&& client matches Ok(c)
                    &&& c.client() == inner
                    &&& c.timeouts() == timeouts
                    &&& c.backoff_base() == Duration::of_nanos(
                        (BACKOFF_BASE_MILLIS * NANOS_PER_MILLI) as nat,
                    )
                },
                Err(reason) => {
                    &&& client matches Err(e)
                    &&& e@ == Failure::Transport("building HTTP client: "@ + reason@)
                },
            },
    {
        match built {
            Ok(inner) => Ok(
                HttpClient {
                    inner,
                    timeouts,
                    backoff_base: Duration::from_millis(BACKOFF_BASE_MILLIS),
                },
            ),
            Err(reason) => Err(
                ProviderError::Transport(message("building HTTP client: ", reason.as_str())),
            ),
        }
    }

    /// Override the wait after the first attempt.
    #[must_use]
    pub fn with_backoff_base(self, base: Duration) -> (client: HttpClient)
        ensures
            client.backoff_base() == base,
            client.timeouts() == self.timeouts(),
            client.client() == self.client(),
    {
        HttpClient { inner: self.inner, timeouts: self.timeouts, backoff_base: base }
    }

    /// The client to send requests with.
    pub fn inner(&self) -> (inner: &reqwest::Client)
        ensures
            *inner == self.client(),
    {
        &self.inner
    }

    /// Start the first attempt at a request.
    pub fn begin(&self) -> (exchange: Exchange)
        ensures
            exchange.attempt() == 1,
            exchange.backoff_base() == self.backoff_base(),
    {
        Exchange::first(self.backoff_base)
    }
}

// --- Laws of an exchange ---

/// How an exchange ends when its attempts, from number `attempt` on, are answered by `replies`:
/// the number of the last attempt and the step it ended with. `None` when it wants more replies.
pub open spec fn ending(base: Duration, attempt: nat, replies: Seq<ReplyView>) -> Option<
    (nat, StepView),
>
    decreases replies.len(),
{
    if replies.len() == 0 {
        None
    } else {
        match step_after(base, attempt, replies[0]) {
            StepView::Retry { .. } => ending(base, attempt + 1, replies.skip(1)),
            last => Some((attempt, last)),
        }
    }
}

/// Whatever the replies, an exchange ends by the last allowed attempt, with a body to decode or an
/// error.
pub proof fn law_attempts_are_bounded(base: Duration, attempt: nat, replies: Seq<ReplyView>)
    requires
        1 <= attempt <= MAX_ATTEMPTS,
        attempt + replies.len() > MAX_ATTEMPTS,
    ensures
        ending(base, attempt, replies) matches Some((used, last)) && attempt <= used
            <= MAX_ATTEMPTS && !(last is Retry),
    decreases replies.len(),
{
    if step_after(base, attempt, replies[0]) is Retry {
        law_attempts_are_bounded(base, attempt + 1, replies.skip(1));
    }
}

/// A reply is tried again exactly when it is transient and an attempt is left.
pub proof fn law_only_transient_replies_are_retried(
    base: Duration,
    attempt: nat,
    reply: ReplyView,
)
    ensures
        step_after(base, attempt, reply) is Retry <==> is_transient(reply) && attempt
            < MAX_ATTEMPTS,
{
}

/// A rate limit ends the exchange on the spot, on any attempt, and carries the parsed hint.
pub proof fn law_rate_limit_is_surfaced_at_once(
    base: Duration,
    attempt: nat,
    header: Option<Seq<u8>>,
    later: Seq<ReplyView>,
)
    ensures
        ({
            let reply = ReplyView::Response { status: TOO_MANY_REQUESTS, retry_after: header };
            ending(base, attempt, seq![reply] + later) == Some(
                (attempt, StepView::Fail(Failure::RateLimited(retry_hint(header)))),
            )
        }),
{
}

/// An exchange that keeps failing ends with the failure of its last reply.
pub proof fn law_exhausted_retries_report_the_last_failure(
    base: Duration,
    replies: Seq<ReplyView>,
)
    requires
        replies.len() == MAX_ATTEMPTS,
        forall|i: int| 0 <= i < replies.len() ==> is_transient(#[trigger] replies[i]),
    ensures
        ending(base, 1, replies) == Some(
            (MAX_ATTEMPTS as nat, StepView::Fail(reply_failure(replies.last()))),
        ),
{
    reveal_with_fuel(ending, 4);
    assert(replies.skip(1).skip(1) =~= replies.skip(2));
    assert(is_transient(replies[0]) && is_transient(replies[1]) && is_transient(replies[2]));
}

/// Each wait is twice the one before, up to the longest span; the first is the base itself.
pub proof fn law_backoff_doubles(base: Duration, attempt: nat)
    requires
        base.as_nanos() <= max_nanos(),
        attempt >= 1,
    ensures
        backoff(base, 1).as_nanos() == base.as_nanos(),
        backoff(base, attempt + 1).as_nanos() == (if 2 * backoff(base, attempt).as_nanos()
            <= max_nanos() {
            2 * backoff(base, attempt).as_nanos()
        } else {
            max_nanos()
        }),
{
    let n = base.as_nanos();
    let p = pow2((attempt - 1) as nat);
    vstd::arithmetic::power2::lemma2_to64();
    vstd::arithmetic::power2::lemma_pow2_unfold(attempt);
    assert(n * (2 * p) == 2 * (n * p)) by (nonlinear_arith);
    assert(n * 1 == n) by (nonlinear_arith);
    Duration::law_nanos_identify(n);
    Duration::law_nanos_identify(max_nanos());
    if n * p <= max_nanos() {
        Duration::law_nanos_identify(n * p);
    }
    if 2 * (n * p) <= max_nanos() {
        Duration::law_nanos_identify(2 * (n * p));
    }
}

/// A `Retry-After` text that, white space aside, is anything but digits led by at most a `+` gives
/// no hint: dates are not guessed at.
pub proof fn law_only_seconds_are_understood(text: Seq<char>, i: int)
    requires
        0 <= i < trimmed(text).len(),
        !is_digit(trimmed(text)[i]),
        i > 0 || trimmed(text)[0] != '+',
    ensures
        retry_after_value(text) is None,
{
    let body = trimmed(text);
    if body[0] == '+' {
        assert(body.skip(1)[i - 1] == body[i]);
    }
}

// --- Laws of the replies in numbers ---

/// The codes from 200 to 299 report success, those from 500 to 599 a failure of the server.
pub proof fn law_kinds_of_status(status: u16)
    ensures
        is_success(status) <==> 200 <= status <= 299,
        is_server_error(status) <==> 500 <= status <= 599,
{
}

/// What a status stands for: 401 and 403 refused credentials, 404 missing data, and any other a
/// failed exchange, each with the code in its message.
pub proof fn law_status_is_told_in_full(status: u16)
    ensures
        status == 401 || status == 403 ==> status_failure(status) == Failure::Auth(
            "HTTP "@ + decimal(status as nat),
        ),
        status == 404 ==> status_failure(status) == Failure::NotFound(
            "HTTP "@ + decimal(status as nat),
        ),
        status != 401 && status != 403 && status != 404 ==> status_failure(status)
            == Failure::Transport("HTTP "@ + decimal(status as nat)),
{
}

/// A header value is text when all its bytes are visible ASCII or tabs, and then each byte is its
/// character.
pub proof fn law_header_text_is_its_bytes(bytes: Seq<u8>)
    ensures
        match header_text(bytes) {
            Some(text) => {
                &&& text.len() == bytes.len()
                &&& forall|i: int| 0 <= i < bytes.len() ==> (#[trigger] text[i]) as int == bytes[i]
                &&& forall|i: int|
                    0 <= i < bytes.len() ==> 32 <= #[trigger] bytes[i] <= 126 || bytes[i] == 9
            },
            None => exists|i: int|
                0 <= i < bytes.len() && !(32 <= #[trigger] bytes[i] <= 126 || bytes[i] == 9),
        },
{
    if forall|i: int| 0 <= i < bytes.len() ==> is_visible(#[trigger] bytes[i]) {
        assert forall|i: int| 0 <= i < bytes.len() implies 32 <= #[trigger] bytes[i] <= 126
            || bytes[i] == 9 by {
            assert(is_visible(bytes[i]));
        }
    } else {
        let i = choose|i: int| 0 <= i < bytes.len() && !is_visible(#[trigger] bytes[i]);
        assert(!(32 <= bytes[i] <= 126 || bytes[i] == 9));
    }
}

/// A `Retry-After` text asks for as many seconds as the number says that is left when the white
/// space around it is dropped, and for nothing when none is left.
pub proof fn law_retry_after_is_in_seconds(text: Seq<char>)
    ensures
        match unsigned_value(trimmed(text)) {
            Some(secs) => retry_after_value(text) matches Some(d) && d.as_nanos() == secs
                * 1_000_000_000,
            None => retry_after_value(text) is None,
        },
{
    if let Some(secs) = unsigned_value(trimmed(text)) {
        Duration::law_nanos_identify((secs * NANOS_PER_SEC) as nat);
    }
}

/// The hint is what the text of the header asks for; a header that is missing or no text hints at
/// nothing.
pub proof fn law_hint_is_that_of_the_text(header: Option<Seq<u8>>)
    ensures
        match header {
            Some(bytes) => match header_text(bytes) {
                Some(text) => retry_hint(header) == retry_after_value(text),
                None => retry_hint(header) is None,
            },
            None => retry_hint(header) is None,
        },
{
}

proof fn lemma_byte_digits(
    bytes: Seq<u8>,
    chars: Seq<char>,
    place: spec_fn(int, u8) -> int,
    char_place: spec_fn(int, char) -> int,
)
    requires
        bytes.len() == chars.len(),
        forall|i: int| 0 <= i < bytes.len() ==> #[trigger] chars[i] as int == bytes[i],
        forall|v: int, b: u8| #[trigger] place(v, b) == 10 * v + (b - 48),
        forall|v: int, c: char| #[trigger] char_place(v, c) == 10 * v + (c as int - 48),
    ensures
        bytes.fold_left(0, place) == chars.fold_left(0, char_place),
    decreases bytes.len(),
{
    if bytes.len() > 0 {
        let (b, c) = (bytes.drop_last(), chars.drop_last());
        assert forall|i: int| 0 <= i < b.len() implies #[trigger] c[i] as int == b[i] by {
            assert(c[i] == chars[i] && b[i] == bytes[i]);
        }
        lemma_byte_digits(b, c, place, char_place);
        assert(chars[chars.len() - 1] as int == bytes[bytes.len() - 1]);
    }
}

/// A rate limit hands on the whole wait that its header asks for. Whatever the attempt, a 429 whose
/// header is a number of seconds in digits, blanks around it and a plus in front allowed, ends the
/// exchange with that many seconds; a number beyond 64 bits gives no hint.
pub proof fn law_rate_limit_tells_every_second(
    base: Duration,
    attempt: nat,
    reply: Reply,
    step: Step,
    header: Vec<u8>,
    before: Seq<u8>,
    plus: bool,
    digits: Seq<u8>,
    after: Seq<u8>,
    place: spec_fn(int, u8) -> int,
)
    requires
        reply == (Reply::Response { status: 429, retry_after: Some(header) }),
        step@ == step_after(base, attempt, reply@),
        plus ==> header@ == before + seq![43u8] + digits + after,
        !plus ==> header@ == before + digits + after,
        forall|i: int| 0 <= i < before.len() ==> #[trigger] before[i] == 32 || before[i] == 9,
        forall|i: int| 0 <= i < after.len() ==> #[trigger] after[i] == 32 || after[i] == 9,
        digits.len() > 0,
        forall|i: int| 0 <= i < digits.len() ==> 48 <= #[trigger] digits[i] <= 57,
        forall|v: int, b: u8| #[trigger] place(v, b) == 10 * v + (b - 48),
    ensures
        step matches Step::Fail(ProviderError::RateLimited { retry_after }) && {
            let n = digits.fold_left(0, place);
            &&& 0 <= n
            &&& n <= 0xffff_ffff_ffff_ffff ==> (retry_after matches Some(d) && d.as_nanos() == n
                * 1_000_000_000)
            &&& n > 0xffff_ffff_ffff_ffff ==> retry_after is None
        },
{
    let bytes = header@;
    let n = digits.fold_left(0, place);
    assert forall|i: int| 0 <= i < bytes.len() implies is_visible(#[trigger] bytes[i]) by {
        let at = before.len() as int;
        let sign: int = if plus { 1 } else { 0 };
        if i < at {
            assert(bytes[i] == before[i]);
        } else if i < at + sign {
        } else if i < at + sign + digits.len() {
            assert(bytes[i] == digits[i - at - sign]);
        } else {
            assert(bytes[i] == after[i - at - sign - digits.len()]);
        }
    }
    let chars = Seq::new(bytes.len(), |i: int| bytes[i] as char);
    let chars_before = Seq::new(before.len(), |i: int| before[i] as char);
    let chars_after = Seq::new(after.len(), |i: int| after[i] as char);
    let chars_digits = Seq::new(digits.len(), |i: int| digits[i] as char);
    let body = if plus {
        seq!['+'] + chars_digits
    } else {
        chars_digits
    };
    let char_place = |v: int, c: char| 10 * v + (c as int - 48);
    assert forall|i: int| 0 <= i < chars_digits.len() implies '0' <= #[trigger] chars_digits[i]
        <= '9' by {
        assert(48 <= digits[i] <= 57);
    }
    assert(chars =~= chars_before + body + chars_after);
    assert forall|i: int| 0 <= i < chars_before.len() implies is_whitespace(
        #[trigger] chars_before[i],
    ) by {
        assert(before[i] == 32 || before[i] == 9);
    }
    assert forall|i: int| 0 <= i < chars_after.len() implies is_whitespace(
        #[trigger] chars_after[i],
    ) by {
        assert(after[i] == 32 || after[i] == 9);
    }
    assert(body[body.len() - 1] == chars_digits[chars_digits.len() - 1]);
    law_only_white_space_around_is_dropped(chars_before, body, chars_after);
    lemma_byte_digits(digits, chars_digits, place, char_place);
    law_unsigned_is_read_by_position(chars_digits, char_place);
    law_retry_after_is_in_seconds(chars);
}

/// What is done about a reply, by its status and the number of the attempt. Success is decoded.
/// Every server error and every broken exchange is tried again after the first and the second
/// attempt, and the third is the last. Nothing else is tried again.
pub proof fn law_decision_on_a_reply(base: Duration, attempt: nat, reply: Reply, step: Step)
    requires
        1 <= attempt <= 3,
        base.as_nanos() < 0x1_0000_0000_0000_0000 * 1_000_000_000,
        step@ == step_after(base, attempt, reply@),
    ensures
        match reply {
            Reply::Response { status, .. } => {
                &&& 200 <= status <= 299 ==> step is Decode
                &&& 500 <= status <= 599 && attempt < 3 ==> step is Retry
                &&& 500 <= status <= 599 && attempt == 3 ==> (step matches Step::Fail(
                    ProviderError::Transport(text),
                ) && text@ == "HTTP "@ + decimal(status as nat))
                &&& status == 401 || status == 403 ==> (step matches Step::Fail(
                    ProviderError::Auth(text),
                ) && text@ == "HTTP "@ + decimal(status as nat))
                &&& status == 404 ==> (step matches Step::Fail(ProviderError::NotFound(text))
                    && text@ == "HTTP "@ + decimal(status as nat))
                &&& status == 429 ==> (step matches Step::Fail(e) && e is RateLimited)
                &&& !(200 <= status <= 299 || 500 <= status <= 599 || status == 401 || status == 403
                    || status == 404 || status == 429) ==> (step matches Step::Fail(
                    ProviderError::Transport(text),
                ) && text@ == "HTTP "@ + decimal(status as nat))
            },
            Reply::Broken { reason } => {
                &&& attempt < 3 ==> step is Retry
                &&& attempt == 3 ==> (step matches Step::Fail(ProviderError::Transport(text))
                    && text@ == "request failed: "@ + reason@)
            },
        },
        step matches Step::Retry { delay } ==> {
            let nanos = base.as_nanos() * (if attempt == 1 {
                1int
            } else {
                2int
            });
            let longest = 0x1_0000_0000_0000_0000 * 1_000_000_000 - 1;
            delay.as_nanos() == (if nanos <= longest {
                nanos
            } else {
                longest
            })
        },
{
    if step is Retry {
        law_backoff_doubles(base, 1);
        law_backoff_doubles(base, attempt);
        assert(backoff(base, attempt).as_nanos() <= max_nanos());
    }
}

/// A rate limit without a header gives no hint, and one with a header that holds anything but
/// digits, blanks and plus signs gives none either.
pub proof fn law_rate_limit_guesses_no_hint(
    base: Duration,
    attempt: nat,
    reply: Reply,
    step: Step,
)
    requires
        step@ == step_after(base, attempt, reply@),
        match reply {
            Reply::Response { status, retry_after } => status == 429 && match retry_after {
                Some(header) => exists|i: int|
                    0 <= i < header@.len() && !(48 <= #[trigger] header@[i] <= 57 || header@[i]
                        == 32 || header@[i] == 9 || header@[i] == 43),
                None => true,
            },
            Reply::Broken { .. } => false,
        },
    ensures
        step matches Step::Fail(ProviderError::RateLimited { retry_after }) && retry_after is None,
{
    if let Reply::Response { retry_after: Some(header), .. } = reply {
        let bytes = header@;
        let i = choose|i: int|
            0 <= i < bytes.len() && !(48 <= #[trigger] bytes[i] <= 57 || bytes[i] == 32 || bytes[i]
                == 9 || bytes[i] == 43);
        if let Some(text) = header_text(bytes) {
            law_header_text_is_its_bytes(bytes);
            assert(is_visible(bytes[i]));
            assert(text[i] as int == bytes[i]);
            lemma_trimmed_keeps(text, i);
            let k = choose|k: int| 0 <= k < trimmed(text).len() && trimmed(text)[k] == text[i];
            law_text_is_no_number(trimmed(text), k);
        }
    }
}

} // verus!
