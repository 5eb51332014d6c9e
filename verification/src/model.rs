//! The canonical types that every market-data adapter maps onto.
use crate::double::Double;
use crate::duration::Duration;
use vstd::prelude::*;

verus! {

/// Why a provider could not answer.
#[derive(Debug, PartialEq, Eq)]
pub enum ProviderError {
    /// The credentials are missing or refused.
    Auth(String),
    /// There is no such data.
    NotFound(String),
    /// The provider asks to slow down, with its hint of how long to wait.
    RateLimited { retry_after: Option<Duration> },
    /// The exchange with the provider failed.
    Transport(String),
}

/// What a provider call gives back.
pub type ProviderResult<T> = Result<T, ProviderError>;

/// A [`ProviderError`], its messages as sequences of characters.
pub enum Failure {
    Auth(Seq<char>),
    NotFound(Seq<char>),
    RateLimited(Option<Duration>),
    Transport(Seq<char>),
}

impl View for ProviderError {
    type V = Failure;

    open spec fn view(&self) -> Failure {
        match *self {
            ProviderError::Auth(text) => Failure::Auth(text@),
            ProviderError::NotFound(text) => Failure::NotFound(text@),
            ProviderError::RateLimited { retry_after } => Failure::RateLimited(retry_after),
            ProviderError::Transport(text) => Failure::Transport(text@),
        }
    }
}

/// One message made of a fixed beginning and what it is about.
pub fn message(beginning: &str, subject: &str) -> (text: String)
    ensures
        text@ == beginning@ + subject@,
{
    let mut text: String = String::new();
    text.append(beginning);
    text.append(subject);
    assert(text@ =~= beginning@ + subject@);
    text
}

/// One daily bar. `t` is in seconds since 1970-01-01, UTC.
#[derive(Clone, Copy, Debug, PartialEq, Eq, Structural)]
pub struct Bar {
    pub t: i64,
    pub open: Double,
    pub high: Double,
    pub low: Double,
    pub close: Double,
    pub volume: Double,
}

impl Bar {
    /// A bar from its fields.
    pub fn new(
        t: i64,
        open: Double,
        high: Double,
        low: Double,
        close: Double,
        volume: Double,
    ) -> (bar: Bar)
        ensures
            bar == (Bar { t, open, high, low, close, volume }),
    {
        Bar { t, open, high, low, close, volume }
    }
}

/// An implied volatility with the trailing series it is ranked against.
#[derive(Debug, PartialEq, Eq)]
pub struct IvSnapshot {
    pub symbol: String,
    pub iv: Double,
    pub iv_history: Vec<Double>,
}

impl IvSnapshot {
    /// A snapshot of `symbol` at `iv`.
    pub fn new(symbol: &str, iv: Double, iv_history: Vec<Double>) -> (snapshot: IvSnapshot)
        ensures
            snapshot.symbol@ == symbol@,
            snapshot.iv == iv,
            snapshot.iv_history == iv_history,
    {
        IvSnapshot { symbol: symbol.to_owned(), iv, iv_history }
    }
}

/// What a provider is for.
#[derive(Clone, Copy, Debug, PartialEq, Eq, Structural)]
pub enum ProviderKind {
    MarketData,
}

/// What a provider can serve.
#[derive(Clone, Copy, Debug, PartialEq, Eq, Structural)]
pub enum Capability {
    DailyBars,
    IntradayBars,
    Quotes,
    ImpliedVol,
    OptionsChain,
    OptionsHistory,
}

/// How a provider introduces itself.
#[derive(Debug, PartialEq, Eq)]
pub struct ProviderInfo {
    pub id: String,
    pub kind: ProviderKind,
    pub capabilities: Vec<Capability>,
}

/// A failure tells the kind of its error and every character of its message, or the hint as it is.
pub proof fn law_failure_tells_the_error(e: ProviderError)
    ensures
        match e {
            ProviderError::Auth(text) => e@ == Failure::Auth(text@),
            ProviderError::NotFound(text) => e@ == Failure::NotFound(text@),
            ProviderError::RateLimited { retry_after } => e@ == Failure::RateLimited(retry_after),
            ProviderError::Transport(text) => e@ == Failure::Transport(text@),
        },
{
}

} // verus!
