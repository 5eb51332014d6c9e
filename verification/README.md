# market_data

A verified end-of-day market-data source for the Massive REST API.

`src/` holds the rules, each proved against its contract:

- `http`: status codes, `Retry-After`, backoff, and the course of one exchange
- `massive`: the source, its credentials and the requests it makes
- `aggs`: raw daily aggregates to canonical bars
- `chain`: the at-the-money implied volatility of an options chain
- `calendar`, `clock`: civil dates as day numbers, and the system clock
- `double`, `duration`, `integer`, `text`, `model`: the values they share

`app/` is the ordinary Rust around it: the network, the JSON of the wire, and the two
floating-point calculations that the choice of a volatility rests on. `tests/` runs the library.
