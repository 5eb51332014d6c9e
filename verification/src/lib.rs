//! An end-of-day market-data source: what is asked of a REST provider, how its failures are told
//! apart and retried, and how its answers become canonical bars and implied volatilities.
pub mod aggs;
pub mod calendar;
pub mod chain;
pub mod clock;
pub mod double;
pub mod duration;
pub mod http;
pub mod integer;
pub mod massive;
pub mod model;
pub mod text;

pub use http::HttpClient;
pub use massive::MassiveSource;
pub use model::{Bar, IvSnapshot, ProviderError, ProviderResult};
