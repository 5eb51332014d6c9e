//! The at-the-money implied volatility of an options chain.
//!
//! The choice of expiration, strike and quotes is made here. The two calculations it rests on,
//! the distance between two doubles and the mean of some, are handed in.
use crate::calendar::{dte, dte_fits, is_dte_representable, ymd_day};
use crate::double::{law_order_is_that_of_the_bits, Double};
use crate::integer::{law_quotient_is_toward_zero, trunc_div};
use crate::model::{message, Failure, ProviderError, ProviderResult};
use vstd::prelude::*;

verus! {

/// Seconds in a day.
pub const SECS_PER_DAY: i64 = 86_400;

/// Target days to expiry of the implied-volatility read.
pub const TARGET_DTE: i64 = 30;

/// Strikes closer than this are one strike: the double nearest to a billionth.
pub const STRIKE_TOLERANCE_BITS: u64 = 0x3e11_2e0b_e826_d695;

/// The strike and expiration of a contract.
#[derive(Debug, PartialEq, Eq)]
pub struct ContractDetails {
    pub strike_price: Double,
    /// `YYYY-MM-DD`.
    pub expiration_date: String,
}

/// What a contract is written on.
#[derive(Clone, Copy, Debug, PartialEq, Eq, Structural)]
pub struct UnderlyingAsset {
    pub price: Option<Double>,
}

/// One contract of a chain as the provider sends it.
#[derive(Debug, PartialEq, Eq)]
pub struct OptionContract {
    pub implied_volatility: Option<Double>,
    pub details: ContractDetails,
    pub underlying_asset: Option<UnderlyingAsset>,
}

/// The provider's answer to a request for a chain.
#[derive(Debug, PartialEq, Eq)]
pub struct ChainResponse {
    pub results: Vec<OptionContract>,
}

/// The day, counted from 1970-01-01, that holds second `now_secs`.
pub open spec fn day_of(now_secs: i64) -> int {
    trunc_div(now_secs as int, SECS_PER_DAY as int)
}

// --- The price of the underlying ---

/// The underlying price a contract carries.
pub open spec fn price_of(c: OptionContract) -> Option<Double> {
    match c.underlying_asset {
        Some(asset) => asset.price,
        None => None,
    }
}

/// The first underlying price in the chain.
pub open spec fn underlying_price(contracts: Seq<OptionContract>) -> Option<Double>
    decreases contracts.len(),
{
    if contracts.len() == 0 {
        None
    } else if price_of(contracts[0]) is Some {
        price_of(contracts[0])
    } else {
        underlying_price(contracts.skip(1))
    }
}

fn find_underlying(chain: &ChainResponse) -> (price: Option<Double>)
    ensures
        price == underlying_price(chain.results@),
{
    let mut i: usize = 0;
    assert(chain.results@.skip(0) =~= chain.results@);
    while i < chain.results.len()
        invariant
            i <= chain.results@.len(),
            underlying_price(chain.results@.skip(i as int)) == underlying_price(chain.results@),
        decreases chain.results@.len() - i,
    {
        assert(chain.results@.skip(i as int)[0] == chain.results@[i as int]);
        assert(chain.results@.skip(i as int).skip(1) =~= chain.results@.skip(i + 1));
        if let Some(asset) = &chain.results[i].underlying_asset {
            if asset.price.is_some() {
                return asset.price;
            }
        }
        i = i + 1;
    }
    None
}

// --- The expiration ---

/// How far the expiration of a contract is from the target, seen from day `today`.
pub open spec fn target_gap(c: OptionContract, today: int) -> Option<nat> {
    match ymd_day(c.details.expiration_date@) {
        Some(day) => {
            let off = day - today - TARGET_DTE;
            Some(
                (if off < 0 {
                    -off
                } else {
                    off
                }) as nat,
            )
        },
        None => None,
    }
}

/// The first contract whose expiration is nearest the target, among those with a readable one.
pub open spec fn target_contract(contracts: Seq<OptionContract>, today: int) -> Option<int>
    decreases contracts.len(),
{
    if contracts.len() == 0 {
        None
    } else {
        let last = contracts.len() - 1;
        match (target_contract(contracts.drop_last(), today), target_gap(contracts[last], today)) {
            (before, None) => before,
            (None, Some(_)) => Some(last),
            (Some(best), Some(gap)) => if gap < target_gap(contracts[best], today)->0 {
                Some(last)
            } else {
                Some(best)
            },
        }
    }
}

/// `target_contract` picks the first of the contracts nearest the target, and picks one whenever
/// some expiration is readable.
pub proof fn law_target_is_first_nearest(contracts: Seq<OptionContract>, today: int)
    ensures
        match target_contract(contracts, today) {
            Some(best) => {
                &&& 0 <= best < contracts.len()
                &&& target_gap(contracts[best], today) is Some
                &&& forall|i: int|
                    0 <= i < contracts.len() ==> match target_gap(#[trigger] contracts[i], today) {
                        Some(gap) => {
                            &&& target_gap(contracts[best], today)->0 <= gap
                            &&& i < best ==> target_gap(contracts[best], today)->0 < gap
                        },
                        None => true,
                    }
            },
            None => forall|i: int|
                0 <= i < contracts.len() ==> target_gap(#[trigger] contracts[i], today) is None,
        },
    decreases contracts.len(),
{
    if contracts.len() > 0 {
        let before = contracts.drop_last();
        law_target_is_first_nearest(before, today);
        assert forall|i: int| 0 <= i < before.len() implies before[i] == contracts[i] by {}
    }
}

/// Whether [`dte`] can be asked of every contract from day `today`. It is asked only of a chain
/// that has an underlying price.
pub open spec fn expirations_fit(contracts: Seq<OptionContract>, today: int) -> bool {
    underlying_price(contracts) is Some ==> forall|i: int|
        0 <= i < contracts.len() ==> dte_fits(
            (#[trigger] contracts[i]).details.expiration_date@,
            today,
        )
}

/// Check that every expiration of the chain is within reach of 64-bit day counts.
pub fn are_expirations_representable(chain: &ChainResponse, now_secs: i64) -> (r: bool)
    ensures
        r == expirations_fit(chain.results@, day_of(now_secs)),
{
    if find_underlying(chain).is_none() {
        return true;
    }
    let today: i64 = now_secs / SECS_PER_DAY;
    let mut i: usize = 0;
    while i < chain.results.len()
        invariant
            today == day_of(now_secs),
            i <= chain.results@.len(),
            underlying_price(chain.results@) is Some,
            forall|k: int|
                0 <= k < i ==> dte_fits(
                    (#[trigger] chain.results@[k]).details.expiration_date@,
                    today as int,
                ),
        decreases chain.results@.len() - i,
    {
        if !is_dte_representable(chain.results[i].details.expiration_date.as_str(), today) {
            assert(!dte_fits(chain.results@[i as int].details.expiration_date@, today as int));
            return false;
        }
        i = i + 1;
    }
    true
}

fn find_target(chain: &ChainResponse, today: i64) -> (best: Option<usize>)
    requires
        forall|i: int|
            0 <= i < chain.results@.len() ==> dte_fits(
                (#[trigger] chain.results@[i]).details.expiration_date@,
                today as int,
            ),
    ensures
        match target_contract(chain.results@, today as int) {
            Some(k) => best matches Some(b) && b == k && b < chain.results@.len(),
            None => best is None,
        },
{
    let mut best: Option<usize> = None;
    let mut best_gap: u128 = 0;
    let mut i: usize = 0;
    while i < chain.results.len()
        invariant
            i <= chain.results@.len(),
            forall|k: int|
                0 <= k < chain.results@.len() ==> dte_fits(
                    (#[trigger] chain.results@[k]).details.expiration_date@,
                    today as int,
                ),
            match target_contract(chain.results@.take(i as int), today as int) {
                Some(k) => {
                    &&& best matches Some(b)
                    &&& b == k
                    &&& b < i
                    &&& target_gap(chain.results@[k], today as int) == Some(best_gap as nat)
                },
                None => best is None,
            },
        decreases chain.results@.len() - i,
    {
        let ghost seen = chain.results@.take(i + 1);
        assert(seen.drop_last() =~= chain.results@.take(i as int));
        assert(seen[i as int] == chain.results@[i as int]);
        match dte(chain.results[i].details.expiration_date.as_str(), today) {
            Some(days) => {
                let off: i128 = days as i128 - TARGET_DTE as i128;
                let gap: u128 = if off < 0 { (-off) as u128 } else { off as u128 };
                if best.is_none() || gap < best_gap {
                    best = Some(i);
                    best_gap = gap;
                }
            },
            None => {},
        }
        i = i + 1;
    }
    assert(chain.results@.take(i as int) =~= chain.results@);
    best
}

// --- The quotes ---

/// A usable quote: a strike and its implied volatility.
#[derive(Clone, Copy, Debug, PartialEq, Eq, Structural)]
pub struct Quote {
    pub strike: Double,
    pub iv: Double,
}

/// The quotes to choose from and the price to choose by.
#[derive(Debug)]
pub struct Candidates {
    pub underlying: Double,
    pub quotes: Vec<Quote>,
}

/// Whether a volatility is usable: a finite number above zero.
pub open spec fn is_usable_iv(iv: Double) -> bool {
    iv.finite() && iv.value() > 0
}

/// The quotes of the contracts that expire on `expiration` and carry a usable volatility.
pub open spec fn quotes_at(contracts: Seq<OptionContract>, expiration: Seq<char>) -> Seq<Quote>
    decreases contracts.len(),
{
    if contracts.len() == 0 {
        Seq::empty()
    } else {
        let before = quotes_at(contracts.drop_last(), expiration);
        let c = contracts.last();
        match c.implied_volatility {
            Some(iv) => if c.details.expiration_date@ == expiration && is_usable_iv(iv) {
                before.push(Quote { strike: c.details.strike_price, iv })
            } else {
                before
            },
            None => before,
        }
    }
}

fn collect_quotes(chain: &ChainResponse, expiration: &String) -> (quotes: Vec<Quote>)
    ensures
        quotes@ == quotes_at(chain.results@, expiration@),
{
    let mut quotes: Vec<Quote> = Vec::new();
    let mut i: usize = 0;
    while i < chain.results.len()
        invariant
            i <= chain.results@.len(),
            quotes@ == quotes_at(chain.results@.take(i as int), expiration@),
        decreases chain.results@.len() - i,
    {
        let c: &OptionContract = &chain.results[i];
        assert(chain.results@.take(i + 1).drop_last() =~= chain.results@.take(i as int));
        if let Some(iv) = c.implied_volatility {
            if c.details.expiration_date == *expiration && iv.is_finite() && iv.is_positive() {
                quotes.push(Quote { strike: c.details.strike_price, iv });
            }
        }
        i = i + 1;
    }
    assert(chain.results@.take(i as int) =~= chain.results@);
    quotes
}

/// What a chain offers for the read, or the failure of having nothing to offer.
pub enum Offer {
    Quotes { underlying: Double, quotes: Seq<Quote> },
    Nothing(Failure),
}

/// What the chain offers on day `today`: the first underlying price, and the usable quotes at the
/// expiration nearest the target.
pub open spec fn offer(contracts: Seq<OptionContract>, today: int, symbol: Seq<char>) -> Offer {
    if contracts.len() == 0 {
        Offer::Nothing(Failure::NotFound("empty options chain for "@ + symbol))
    } else if underlying_price(contracts) is None {
        Offer::Nothing(Failure::Transport("no underlying price in chain for "@ + symbol))
    } else if target_contract(contracts, today) is None {
        Offer::Nothing(Failure::Transport("no parseable expirations for "@ + symbol))
    } else {
        let target = contracts[target_contract(contracts, today)->0];
        let quotes = quotes_at(contracts, target.details.expiration_date@);
        if quotes.len() == 0 {
            Offer::Nothing(Failure::NotFound("no usable IV near 30 DTE for "@ + symbol))
        } else {
            Offer::Quotes { underlying: underlying_price(contracts)->0, quotes }
        }
    }
}

/// Collect the quotes that the at-the-money volatility is chosen from.
pub fn atm_candidates(chain: &ChainResponse, now_secs: i64, symbol: &str) -> (found: ProviderResult<
    Candidates,
>)
    requires
        expirations_fit(chain.results@, day_of(now_secs)),
    ensures
        match offer(chain.results@, day_of(now_secs), symbol@) {
            Offer::Quotes { underlying, quotes } => {
                &&& found matches Ok(c)
                &&& c.underlying == underlying
                &&& c.quotes@ == quotes
                &&& quotes.len() > 0
            },
            Offer::Nothing(failure) => found matches Err(e) && e@ == failure,
        },
{
    if chain.results.len() == 0 {
        return Err(ProviderError::NotFound(message("empty options chain for ", symbol)));
    }
    let underlying: Double = match find_underlying(chain) {
        Some(price) => price,
        None => {
            let text: String = message("no underlying price in chain for ", symbol);
            return Err(ProviderError::Transport(text));
        },
    };
    let today: i64 = now_secs / SECS_PER_DAY;
    let target: usize = match find_target(chain, today) {
        Some(target) => target,
        None => {
            let text: String = message("no parseable expirations for ", symbol);
            return Err(ProviderError::Transport(text));
        },
    };
    let quotes: Vec<Quote> = collect_quotes(chain, &chain.results[target].details.expiration_date);
    if quotes.len() == 0 {
        return Err(ProviderError::NotFound(message("no usable IV near 30 DTE for ", symbol)));
    }
    Ok(Candidates { underlying, quotes })
}

// --- The strike ---

/// The place of the smallest distance, the first of equals. A distance that is no number is passed
/// over, unless it comes first: nothing is less than it.
pub open spec fn nearest(distances: Seq<Double>) -> int
    decreases distances.len(),
{
    if distances.len() <= 1 {
        0
    } else {
        let best = nearest(distances.drop_last());
        if distances.last().below(distances[best]) {
            distances.len() - 1
        } else {
            best
        }
    }
}

/// Find the smallest distance.
pub fn nearest_strike(distances: &Vec<Double>) -> (best: usize)
    requires
        distances@.len() > 0,
    ensures
        best == nearest(distances@),
        best < distances@.len(),
{
    let mut best: usize = 0;
    let mut i: usize = 1;
    while i < distances.len()
        invariant
            1 <= i <= distances@.len(),
            best < i,
            best == nearest(distances@.take(i as int)),
        decreases distances@.len() - i,
    {
        assert(distances@.take(i + 1).drop_last() =~= distances@.take(i as int));
        if distances[i].less(&distances[best]) {
            best = i;
        }
        i = i + 1;
    }
    assert(distances@.take(i as int) =~= distances@);
    best
}

/// Among distances that are all numbers, `nearest` is the first of the smallest.
pub proof fn law_nearest_is_first_smallest(distances: Seq<Double>)
    requires
        distances.len() > 0,
        forall|i: int| 0 <= i < distances.len() ==> (#[trigger] distances[i]).is_number(),
    ensures
        0 <= nearest(distances) < distances.len(),
        forall|i: int|
            0 <= i < distances.len() ==> distances[nearest(distances)].value() <= (
            #[trigger] distances[i]).value(),
        forall|i: int|
            0 <= i < nearest(distances) ==> distances[nearest(distances)].value() < (
            #[trigger] distances[i]).value(),
    decreases distances.len(),
{
    if distances.len() > 1 {
        let before = distances.drop_last();
        assert forall|i: int| 0 <= i < before.len() implies (#[trigger] before[i]).is_number()
            && before[i] == distances[i] by {}
        law_nearest_is_first_smallest(before);
        assert(before[nearest(before)] == distances[nearest(before)]);
        assert forall|i: int| 0 <= i < before.len() implies before[nearest(before)].value() <= (
        #[trigger] distances[i]).value() by {
            assert(before[i] == distances[i]);
        }
        assert forall|i: int| 0 <= i < nearest(before) implies before[nearest(before)].value() < (
        #[trigger] distances[i]).value() by {
            assert(before[i] == distances[i]);
        }
    }
}

/// The double under which two strikes are one.
pub open spec fn strike_tolerance() -> Double {
    Double { bits: STRIKE_TOLERANCE_BITS }
}

/// The volatilities of the quotes whose distance from the chosen strike is below the tolerance.
pub open spec fn ivs_within(quotes: Seq<Quote>, gaps: Seq<Double>) -> Seq<Double>
    decreases quotes.len(),
{
    if quotes.len() == 0 || gaps.len() == 0 {
        Seq::empty()
    } else {
        let before = ivs_within(quotes.drop_last(), gaps.drop_last());
        if gaps.last().below(strike_tolerance()) {
            before.push(quotes.last().iv)
        } else {
            before
        }
    }
}

/// Collect the volatilities at the chosen strike; `gaps` are the distances of the quotes from it.
pub fn ivs_at_strike(quotes: &Vec<Quote>, gaps: &Vec<Double>, symbol: &str) -> (
    ivs: ProviderResult<Vec<Double>>)
    requires
        quotes@.len() == gaps@.len(),
    ensures
        match ivs {
            Ok(v) => v@ == ivs_within(quotes@, gaps@) && v@.len() > 0,
            Err(e) => {
                &&& ivs_within(quotes@, gaps@).len() == 0
                &&& e@ == Failure::NotFound("no IV at ATM strike for "@ + symbol@)
            },
        },
{
    let tolerance: Double = Double { bits: STRIKE_TOLERANCE_BITS };
    let mut ivs: Vec<Double> = Vec::new();
    let mut i: usize = 0;
    while i < quotes.len()
        invariant
            i <= quotes@.len() == gaps@.len(),
            tolerance == strike_tolerance(),
            ivs@ == ivs_within(quotes@.take(i as int), gaps@.take(i as int)),
        decreases quotes@.len() - i,
    {
        assert(quotes@.take(i + 1).drop_last() =~= quotes@.take(i as int));
        assert(gaps@.take(i + 1).drop_last() =~= gaps@.take(i as int));
        if gaps[i].less(&tolerance) {
            ivs.push(quotes[i].iv);
        }
        i = i + 1;
    }
    assert(quotes@.take(i as int) =~= quotes@);
    assert(gaps@.take(i as int) =~= gaps@);
    if ivs.len() == 0 {
        return Err(ProviderError::NotFound(message("no IV at ATM strike for ", symbol)));
    }
    Ok(ivs)
}

// --- The read ---

/// Whether `found` are outcomes of `distance` between each strike and `point`.
pub open spec fn are_distances<D: Fn(Double, Double) -> Double>(
    distance: D,
    quotes: Seq<Quote>,
    point: Double,
    found: Seq<Double>,
) -> bool {
    &&& found.len() == quotes.len()
    &&& forall|i: int|
        0 <= i < quotes.len() ==> call_ensures(
            distance,
            ((#[trigger] quotes[i]).strike, point),
            found[i],
        )
}

fn distances_from<D: Fn(Double, Double) -> Double>(
    distance: &D,
    quotes: &Vec<Quote>,
    point: Double,
) -> (found: Vec<Double>)
    requires
        forall|a: Double, b: Double| call_requires(*distance, (a, b)),
    ensures
        are_distances(*distance, quotes@, point, found@),
{
    let mut found: Vec<Double> = Vec::new();
    let mut i: usize = 0;
    while i < quotes.len()
        invariant
            i <= quotes@.len(),
            found@.len() == i,
            forall|a: Double, b: Double| call_requires(*distance, (a, b)),
            forall|k: int|
                0 <= k < i ==> call_ensures(
                    *distance,
                    ((#[trigger] quotes@[k]).strike, point),
                    found@[k],
                ),
        decreases quotes@.len() - i,
    {
        let d: Double = distance(quotes[i].strike, point);
        found.push(d);
        i = i + 1;
    }
    found
}

/// Whether `value` is an outcome of `mean` on `ivs`.
pub open spec fn is_mean<M: Fn(&Vec<Double>) -> Double>(
    mean: M,
    ivs: Seq<Double>,
    value: Double,
) -> bool {
    exists|v: Vec<Double>| v@ == ivs && #[trigger] call_ensures(mean, (&v,), value)
}

/// Whether `iv` is the read of `quotes` at the strike whose distances from all strikes are `gaps`:
/// the mean of the volatilities within the tolerance, or the failure of having none.
pub open spec fn is_read_at<M: Fn(&Vec<Double>) -> Double>(
    mean: M,
    quotes: Seq<Quote>,
    gaps: Seq<Double>,
    symbol: Seq<char>,
    iv: ProviderResult<Double>,
) -> bool {
    let ivs = ivs_within(quotes, gaps);
    match iv {
        Ok(value) => ivs.len() > 0 && is_mean(mean, ivs, value),
        Err(e) => ivs.len() == 0 && e@ == Failure::NotFound("no IV at ATM strike for "@ + symbol),
    }
}

/// Whether `iv` is the at-the-money read of a chain: with distances of the strikes from the
/// underlying, and then from the nearest strike, what `is_read_at` says of the quotes on offer.
pub open spec fn is_atm_read<D: Fn(Double, Double) -> Double, M: Fn(&Vec<Double>) -> Double>(
    contracts: Seq<OptionContract>,
    now_secs: i64,
    symbol: Seq<char>,
    distance: D,
    mean: M,
    iv: ProviderResult<Double>,
) -> bool {
    match offer(contracts, day_of(now_secs), symbol) {
        Offer::Quotes { underlying, quotes } => exists|near: Seq<Double>|
            {
                &&& #[trigger] are_distances(distance, quotes, underlying, near)
                &&& exists|gaps: Seq<Double>|
                    {
                        &&& #[trigger] are_distances(
                            distance,
                            quotes,
                            quotes[nearest(near)].strike,
                            gaps,
                        )
                        &&& is_read_at(mean, quotes, gaps, symbol, iv)
                    }
            },
        Offer::Nothing(failure) => iv matches Err(e) && e@ == failure,
    }
}

/// Select the at-the-money implied volatility nearest [`TARGET_DTE`]: the expiration closest to
/// the target, the strike nearest the underlying, and the mean of the volatilities there.
/// `distance` tells how far apart two doubles are, and `mean` averages some.
pub fn select_atm_iv<D: Fn(Double, Double) -> Double, M: Fn(&Vec<Double>) -> Double>(
    chain: &ChainResponse,
    now_secs: i64,
    symbol: &str,
    distance: D,
    mean: M,
) -> (iv: ProviderResult<Double>)
    requires
        expirations_fit(chain.results@, day_of(now_secs)),
        forall|a: Double, b: Double| call_requires(distance, (a, b)),
        forall|ivs: &Vec<Double>| call_requires(mean, (ivs,)),
    ensures
        is_atm_read(chain.results@, now_secs, symbol@, distance, mean, iv),
{
    let candidates: Candidates = match atm_candidates(chain, now_secs, symbol) {
        Ok(candidates) => candidates,
        Err(e) => {
            return Err(e);
        },
    };
    let quotes: &Vec<Quote> = &candidates.quotes;
    let near: Vec<Double> = distances_from(&distance, quotes, candidates.underlying);
    let strike: Double = quotes[nearest_strike(&near)].strike;
    let gaps: Vec<Double> = distances_from(&distance, quotes, strike);
    let iv: ProviderResult<Double> = match ivs_at_strike(quotes, &gaps, symbol) {
        Ok(ivs) => Ok(mean(&ivs)),
        Err(e) => Err(e),
    };
    assert(are_distances(distance, quotes@, candidates.underlying, near@));
    assert(are_distances(distance, quotes@, quotes@[nearest(near@)].strike, gaps@));
    assert(is_read_at(mean, quotes@, gaps@, symbol@, iv));
    iv
}

// --- Laws of the read ---

/// The quotes are those of the expiration and no others: each comes from a contract that expires
/// then, with a usable volatility, and each such contract has its quote.
pub proof fn law_quotes_match_the_expiration(contracts: Seq<OptionContract>, expiration: Seq<char>)
    ensures
        forall|i: int|
            0 <= i < quotes_at(contracts, expiration).len() ==> is_usable_iv(
                (#[trigger] quotes_at(contracts, expiration)[i]).iv,
            ) && exists|k: int|
                0 <= k < contracts.len() && (#[trigger] contracts[k]).details.expiration_date@
                    == expiration && contracts[k].details.strike_price == quotes_at(
                    contracts,
                    expiration,
                )[i].strike && contracts[k].implied_volatility == Some(
                    quotes_at(contracts, expiration)[i].iv,
                ),
        forall|k: int|
            0 <= k < contracts.len() && (#[trigger] contracts[k]).details.expiration_date@
                == expiration && (contracts[k].implied_volatility matches Some(iv)
                && is_usable_iv(iv)) ==> quotes_at(contracts, expiration).contains(
                Quote {
                    strike: contracts[k].details.strike_price,
                    iv: contracts[k].implied_volatility->0,
                },
            ),
    decreases contracts.len(),
{
    if contracts.len() > 0 {
        let rest = contracts.drop_last();
        let before = quotes_at(rest, expiration);
        let all = quotes_at(contracts, expiration);
        let last = contracts.len() - 1;
        law_quotes_match_the_expiration(rest, expiration);
        assert forall|i: int| 0 <= i < all.len() implies is_usable_iv((#[trigger] all[i]).iv)
            && exists|k: int|
            0 <= k < contracts.len() && (#[trigger] contracts[k]).details.expiration_date@
                == expiration && contracts[k].details.strike_price == all[i].strike
                && contracts[k].implied_volatility == Some(all[i].iv) by {
            if i < before.len() {
                assert(all[i] == before[i]);
                let k = choose|k: int|
                    0 <= k < rest.len() && (#[trigger] rest[k]).details.expiration_date@
                        == expiration && rest[k].details.strike_price == before[i].strike
                        && rest[k].implied_volatility == Some(before[i].iv);
                assert(contracts[k] == rest[k]);
            } else {
                assert(contracts[last].implied_volatility == Some(all[i].iv));
            }
        }
        assert forall|k: int|
            0 <= k < contracts.len() && (#[trigger] contracts[k]).details.expiration_date@
                == expiration && (contracts[k].implied_volatility matches Some(iv)
                && is_usable_iv(iv)) implies all.contains(
            Quote {
                strike: contracts[k].details.strike_price,
                iv: contracts[k].implied_volatility->0,
            },
        ) by {
            let quote = Quote {
                strike: contracts[k].details.strike_price,
                iv: contracts[k].implied_volatility->0,
            };
            if k < last {
                assert(rest[k] == contracts[k]);
                assert(before.contains(quote));
                let i = choose|i: int| 0 <= i < before.len() && before[i] == quote;
                assert(all[i] == quote);
            } else {
                assert(all[before.len() as int] == quote);
            }
        }
    }
}

/// Whether `iv` is quoted within the tolerance of the chosen strike.
pub open spec fn is_quoted_at_strike(quotes: Seq<Quote>, gaps: Seq<Double>, iv: Double) -> bool {
    exists|k: int|
        0 <= k < quotes.len() && gaps[k].below(strike_tolerance()) && (#[trigger] quotes[k]).iv
            == iv
}

/// The volatilities averaged are those of the quotes within the tolerance of the chosen strike and
/// no others.
pub proof fn law_averaged_ivs_are_at_the_strike(quotes: Seq<Quote>, gaps: Seq<Double>)
    requires
        quotes.len() == gaps.len(),
    ensures
        forall|i: int|
            0 <= i < ivs_within(quotes, gaps).len() ==> is_quoted_at_strike(
                quotes,
                gaps,
                #[trigger] ivs_within(quotes, gaps)[i],
            ),
        forall|k: int|
            0 <= k < quotes.len() && (#[trigger] gaps[k]).below(strike_tolerance()) ==> ivs_within(
                quotes,
                gaps,
            ).contains(quotes[k].iv),
    decreases quotes.len(),
{
    if quotes.len() > 0 {
        let (q, g) = (quotes.drop_last(), gaps.drop_last());
        let before = ivs_within(q, g);
        let all = ivs_within(quotes, gaps);
        let last = quotes.len() - 1;
        law_averaged_ivs_are_at_the_strike(q, g);
        assert forall|i: int| 0 <= i < all.len() implies is_quoted_at_strike(
            quotes,
            gaps,
            #[trigger] all[i],
        ) by {
            if i < before.len() {
                assert(is_quoted_at_strike(q, g, before[i]));
                let k = choose|k: int|
                    0 <= k < q.len() && g[k].below(strike_tolerance()) && (#[trigger] q[k]).iv
                        == before[i];
                assert(quotes[k] == q[k] && gaps[k] == g[k]);
            } else {
                assert(quotes[last].iv == all[i]);
            }
        }
        assert forall|k: int|
            0 <= k < quotes.len() && (#[trigger] gaps[k]).below(strike_tolerance()) implies
            all.contains(quotes[k].iv) by {
            if k < last {
                assert(g[k] == gaps[k] && q[k] == quotes[k]);
                assert(before.contains(quotes[k].iv));
                let i = choose|i: int| 0 <= i < before.len() && before[i] == quotes[k].iv;
                assert(all[i] == quotes[k].iv);
            } else {
                assert(all[before.len() as int] == quotes[k].iv);
            }
        }
    }
}

/// Whether some contract carries an underlying price.
pub open spec fn has_price(contracts: Seq<OptionContract>) -> bool {
    exists|i: int| 0 <= i < contracts.len() && price_of(#[trigger] contracts[i]) is Some
}

/// Whether some contract has an expiration that can be read.
pub open spec fn has_expiration(contracts: Seq<OptionContract>) -> bool {
    exists|i: int|
        0 <= i < contracts.len() && ymd_day((#[trigger] contracts[i]).details.expiration_date@)
            is Some
}

/// Whether a contract carries a usable volatility.
pub open spec fn carries_iv(c: OptionContract) -> bool {
    c.implied_volatility matches Some(iv) && is_usable_iv(iv)
}

/// Whether some contract that expires on `expiration` carries a usable volatility.
pub open spec fn has_iv_at(contracts: Seq<OptionContract>, expiration: Seq<char>) -> bool {
    exists|i: int|
        0 <= i < contracts.len() && (#[trigger] contracts[i]).details.expiration_date@ == expiration
            && carries_iv(contracts[i])
}

/// The expiration that the read is made at, in a chain that has one to read.
pub open spec fn target_expiration(contracts: Seq<OptionContract>, today: int) -> Seq<char> {
    contracts[target_contract(contracts, today)->0].details.expiration_date@
}

proof fn lemma_price_is_found(contracts: Seq<OptionContract>)
    ensures
        underlying_price(contracts) is Some <==> has_price(contracts),
    decreases contracts.len(),
{
    if contracts.len() > 0 && price_of(contracts[0]) is None {
        let rest = contracts.skip(1);
        lemma_price_is_found(rest);
        if has_price(rest) {
            let i = choose|i: int| 0 <= i < rest.len() && price_of(#[trigger] rest[i]) is Some;
            assert(contracts[i + 1] == rest[i]);
        }
        if has_price(contracts) {
            let i = choose|i: int|
                0 <= i < contracts.len() && price_of(#[trigger] contracts[i]) is Some;
            assert(rest[i - 1] == contracts[i]);
        }
    }
}

proof fn lemma_target_is_found(contracts: Seq<OptionContract>, today: int)
    ensures
        target_contract(contracts, today) is Some <==> has_expiration(contracts),
{
    law_target_is_first_nearest(contracts, today);
    if has_expiration(contracts) {
        let i = choose|i: int|
            0 <= i < contracts.len() && ymd_day(
                (#[trigger] contracts[i]).details.expiration_date@,
            ) is Some;
        assert(target_gap(contracts[i], today) is Some);
    }
    if let Some(best) = target_contract(contracts, today) {
        assert(ymd_day(contracts[best].details.expiration_date@) is Some);
    }
}

proof fn lemma_quotes_are_found(contracts: Seq<OptionContract>, expiration: Seq<char>)
    ensures
        quotes_at(contracts, expiration).len() > 0 <==> has_iv_at(contracts, expiration),
{
    law_quotes_match_the_expiration(contracts, expiration);
    let quotes = quotes_at(contracts, expiration);
    if quotes.len() > 0 {
        let k = choose|k: int|
            0 <= k < contracts.len() && (#[trigger] contracts[k]).details.expiration_date@
                == expiration && contracts[k].details.strike_price == quotes[0].strike
                && contracts[k].implied_volatility == Some(quotes[0].iv);
        assert(carries_iv(contracts[k]));
    }
    if has_iv_at(contracts, expiration) {
        let k = choose|k: int|
            0 <= k < contracts.len() && (#[trigger] contracts[k]).details.expiration_date@
                == expiration && carries_iv(contracts[k]);
        assert(quotes.contains(
            Quote {
                strike: contracts[k].details.strike_price,
                iv: contracts[k].implied_volatility->0,
            },
        ));
    }
}

/// No distance is below that at `nearest`, whether or not all of them are numbers.
pub proof fn law_nothing_is_nearer(distances: Seq<Double>)
    requires
        distances.len() > 0,
    ensures
        0 <= nearest(distances) < distances.len(),
        forall|i: int|
            0 <= i < distances.len() ==> !(#[trigger] distances[i]).below(
                distances[nearest(distances)],
            ),
    decreases distances.len(),
{
    if distances.len() > 1 {
        let before = distances.drop_last();
        law_nothing_is_nearer(before);
        assert(before[nearest(before)] == distances[nearest(before)]);
        assert forall|i: int| 0 <= i < distances.len() implies !(#[trigger] distances[i]).below(
            distances[nearest(distances)],
        ) by {
            if i < before.len() {
                assert(before[i] == distances[i]);
            }
        }
    }
}

/// Whether all strikes of a chain are finite.
pub open spec fn has_finite_strikes(contracts: Seq<OptionContract>) -> bool {
    forall|i: int|
        0 <= i < contracts.len() ==> (#[trigger] contracts[i]).details.strike_price.finite()
}

/// Whether `distance` finds every finite double within the tolerance of itself.
pub open spec fn is_near_itself<D: Fn(Double, Double) -> Double>(distance: D) -> bool {
    forall|a: Double, d: Double|
        a.finite() && #[trigger] call_ensures(distance, (a, a), d) ==> d.below(strike_tolerance())
}

/// With finite strikes, a read fails only for want of data. It is `NotFound` exactly when the
/// chain is empty, or has a price and an expiration to read but no usable volatility there. It is
/// `Transport` exactly when the chain is not empty and lacks a price or a readable expiration. In
/// every other case there is a volatility.
pub proof fn law_read_fails_only_for_want_of_data<
    D: Fn(Double, Double) -> Double,
    M: Fn(&Vec<Double>) -> Double,
>(
    contracts: Seq<OptionContract>,
    now_secs: i64,
    symbol: Seq<char>,
    distance: D,
    mean: M,
    iv: ProviderResult<Double>,
)
    requires
        is_atm_read(contracts, now_secs, symbol, distance, mean, iv),
        has_finite_strikes(contracts),
        is_near_itself(distance),
    ensures
        ({
            let lacks_data = !has_price(contracts) || !has_expiration(contracts);
            let expiration = target_expiration(contracts, day_of(now_secs));
            let not_found = contracts.len() == 0 || (!lacks_data && !has_iv_at(
                contracts,
                expiration,
            ));
            let transport = contracts.len() > 0 && lacks_data;
            &&& (iv matches Err(e) && e@ is NotFound) <==> not_found
            &&& (iv matches Err(e) && e@ is Transport) <==> transport
            &&& iv is Ok <==> !not_found && !transport
        }),
{
    let today = day_of(now_secs);
    lemma_price_is_found(contracts);
    lemma_target_is_found(contracts, today);
    lemma_quotes_are_found(contracts, target_expiration(contracts, today));
    if let Offer::Quotes { underlying, quotes } = offer(contracts, today, symbol) {
        let near = choose|near: Seq<Double>|
            {
                &&& #[trigger] are_distances(distance, quotes, underlying, near)
                &&& exists|gaps: Seq<Double>|
                    {
                        &&& #[trigger] are_distances(
                            distance,
                            quotes,
                            quotes[nearest(near)].strike,
                            gaps,
                        )
                        &&& is_read_at(mean, quotes, gaps, symbol, iv)
                    }
            };
        let best = nearest(near);
        let gaps = choose|gaps: Seq<Double>|
            {
                &&& #[trigger] are_distances(distance, quotes, quotes[best].strike, gaps)
                &&& is_read_at(mean, quotes, gaps, symbol, iv)
            };
        law_nothing_is_nearer(near);
        law_quotes_match_the_expiration(contracts, target_expiration(contracts, today));
        assert(is_usable_iv(quotes[best].iv));
        assert(quotes[best].strike.finite());
        assert(call_ensures(distance, (quotes[best].strike, quotes[best].strike), gaps[best]));
        law_averaged_ivs_are_at_the_strike(quotes, gaps);
        assert(ivs_within(quotes, gaps).contains(quotes[best].iv));
    }
}

/// What a read came to, an error by its failure.
pub open spec fn outcome(iv: ProviderResult<Double>) -> Result<Double, Failure> {
    match iv {
        Ok(value) => Ok(value),
        Err(e) => Err(e@),
    }
}

/// Whether `distance` has one outcome for two doubles.
pub open spec fn is_single_distance<D: Fn(Double, Double) -> Double>(distance: D) -> bool {
    forall|a: Double, b: Double, d1: Double, d2: Double|
        #[trigger] call_ensures(distance, (a, b), d1) && #[trigger] call_ensures(
            distance,
            (a, b),
            d2,
        ) ==> d1 == d2
}

/// Whether `mean` has one outcome for given doubles.
pub open spec fn is_single_mean<M: Fn(&Vec<Double>) -> Double>(mean: M) -> bool {
    forall|v1: Vec<Double>, v2: Vec<Double>, m1: Double, m2: Double|
        v1@ == v2@ && #[trigger] call_ensures(mean, (&v1,), m1) && #[trigger] call_ensures(
            mean,
            (&v2,),
            m2,
        ) ==> m1 == m2
}

proof fn lemma_distances_are_single<D: Fn(Double, Double) -> Double>(
    distance: D,
    quotes: Seq<Quote>,
    point: Double,
    first: Seq<Double>,
    second: Seq<Double>,
)
    requires
        is_single_distance(distance),
        are_distances(distance, quotes, point, first),
        are_distances(distance, quotes, point, second),
    ensures
        first == second,
{
    assert forall|i: int| 0 <= i < first.len() implies first[i] == second[i] by {
        let strike = quotes[i].strike;
        assert(call_ensures(distance, (strike, point), first[i]));
        assert(call_ensures(distance, (strike, point), second[i]));
    }
    assert(first =~= second);
}

/// Two reads of the same quotes around the same price come to the same, the symbol in the error
/// aside.
proof fn lemma_one_offer_gives_one_read<
    D: Fn(Double, Double) -> Double,
    M: Fn(&Vec<Double>) -> Double,
>(
    contracts1: Seq<OptionContract>,
    contracts2: Seq<OptionContract>,
    now1: i64,
    now2: i64,
    symbol1: Seq<char>,
    symbol2: Seq<char>,
    distance: D,
    mean: M,
    iv1: ProviderResult<Double>,
    iv2: ProviderResult<Double>,
)
    requires
        is_single_distance(distance),
        is_single_mean(mean),
        is_atm_read(contracts1, now1, symbol1, distance, mean, iv1),
        is_atm_read(contracts2, now2, symbol2, distance, mean, iv2),
        offer(contracts1, day_of(now1), symbol1) is Quotes,
        offer(contracts1, day_of(now1), symbol1) == offer(contracts2, day_of(now2), symbol2),
    ensures
        iv1 is Ok <==> iv2 is Ok,
        iv1 is Ok ==> outcome(iv1) == outcome(iv2),
        symbol1 == symbol2 ==> outcome(iv1) == outcome(iv2),
{
    let offered = offer(contracts1, day_of(now1), symbol1);
    let (underlying, quotes) = (offered->underlying, offered->quotes);
    let near1 = choose|near: Seq<Double>|
        {
            &&& #[trigger] are_distances(distance, quotes, underlying, near)
            &&& exists|gaps: Seq<Double>|
                {
                    &&& #[trigger] are_distances(
                        distance,
                        quotes,
                        quotes[nearest(near)].strike,
                        gaps,
                    )
                    &&& is_read_at(mean, quotes, gaps, symbol1, iv1)
                }
        };
    let near2 = choose|near: Seq<Double>|
        {
            &&& #[trigger] are_distances(distance, quotes, underlying, near)
            &&& exists|gaps: Seq<Double>|
                {
                    &&& #[trigger] are_distances(
                        distance,
                        quotes,
                        quotes[nearest(near)].strike,
                        gaps,
                    )
                    &&& is_read_at(mean, quotes, gaps, symbol2, iv2)
                }
        };
    lemma_distances_are_single(distance, quotes, underlying, near1, near2);
    let strike = quotes[nearest(near1)].strike;
    let gaps1 = choose|gaps: Seq<Double>|
        {
            &&& #[trigger] are_distances(distance, quotes, strike, gaps)
            &&& is_read_at(mean, quotes, gaps, symbol1, iv1)
        };
    let gaps2 = choose|gaps: Seq<Double>|
        {
            &&& #[trigger] are_distances(distance, quotes, strike, gaps)
            &&& is_read_at(mean, quotes, gaps, symbol2, iv2)
        };
    lemma_distances_are_single(distance, quotes, strike, gaps1, gaps2);
    let ivs = ivs_within(quotes, gaps1);
    if ivs.len() > 0 {
        let (m1, m2) = (iv1->Ok_0, iv2->Ok_0);
        let v1 = choose|v: Vec<Double>| v@ == ivs && #[trigger] call_ensures(mean, (&v,), m1);
        let v2 = choose|v: Vec<Double>| v@ == ivs && #[trigger] call_ensures(mean, (&v,), m2);
        assert(m1 == m2);
    }
}

/// Of the time only the day matters: two reads of one chain on one day come to the same, and a
/// volatility is the same for every symbol.
pub proof fn law_one_day_gives_one_read<
    D: Fn(Double, Double) -> Double,
    M: Fn(&Vec<Double>) -> Double,
>(
    contracts: Seq<OptionContract>,
    now1: i64,
    now2: i64,
    symbol1: Seq<char>,
    symbol2: Seq<char>,
    distance: D,
    mean: M,
    iv1: ProviderResult<Double>,
    iv2: ProviderResult<Double>,
)
    requires
        day_of(now1) == day_of(now2),
        is_single_distance(distance),
        is_single_mean(mean),
        is_atm_read(contracts, now1, symbol1, distance, mean, iv1),
        is_atm_read(contracts, now2, symbol2, distance, mean, iv2),
    ensures
        iv1 is Ok <==> iv2 is Ok,
        iv1 is Ok ==> outcome(iv1) == outcome(iv2),
        symbol1 == symbol2 ==> outcome(iv1) == outcome(iv2),
{
    if offer(contracts, day_of(now1), symbol1) is Quotes {
        lemma_one_offer_gives_one_read(
            contracts,
            contracts,
            now1,
            now2,
            symbol1,
            symbol2,
            distance,
            mean,
            iv1,
            iv2,
        );
    }
}

/// Whether `c` can not win against the contracts of a chain: its expiration can not be read, or is
/// another than the chosen one and no nearer the target, or is the chosen one while its volatility
/// is not usable.
pub open spec fn can_not_win(
    contracts: Seq<OptionContract>,
    c: OptionContract,
    today: int,
) -> bool {
    let target = contracts[target_contract(contracts, today)->0];
    let chosen = target.details.expiration_date@;
    ||| target_gap(c, today) is None
    ||| c.details.expiration_date@ != chosen && target_gap(c, today)->0 >= target_gap(
        target,
        today,
    )->0
    ||| c.details.expiration_date@ == chosen && !carries_iv(c)
}

proof fn lemma_first_price_stays(contracts: Seq<OptionContract>, c: OptionContract)
    requires
        underlying_price(contracts) is Some,
    ensures
        underlying_price(contracts.push(c)) == underlying_price(contracts),
    decreases contracts.len(),
{
    if price_of(contracts[0]) is None {
        lemma_first_price_stays(contracts.skip(1), c);
        assert(contracts.push(c).skip(1) =~= contracts.skip(1).push(c));
    }
}

/// A contract at the end of a chain that can not win changes nothing of what the chain offers.
pub proof fn law_contract_that_can_not_win_is_ignored(
    contracts: Seq<OptionContract>,
    c: OptionContract,
    today: int,
    symbol: Seq<char>,
)
    requires
        offer(contracts, today, symbol) is Quotes,
        can_not_win(contracts, c, today),
    ensures
        offer(contracts.push(c), today, symbol) == offer(contracts, today, symbol),
        target_contract(contracts.push(c), today) == target_contract(contracts, today),
{
    let all = contracts.push(c);
    lemma_first_price_stays(contracts, c);
    law_target_is_first_nearest(contracts, today);
    assert(all.drop_last() =~= contracts);
    assert(all.last() == c);
    let best = target_contract(contracts, today)->0;
    assert(target_gap(contracts[best], today) is Some);
    assert(target_contract(all, today) == Some(best));
    assert(all[best] == contracts[best]);
}

/// A contract at the end of a chain that can not win changes nothing of the volatility read.
pub proof fn law_contract_that_can_not_win_leaves_the_read<
    D: Fn(Double, Double) -> Double,
    M: Fn(&Vec<Double>) -> Double,
>(
    contracts: Seq<OptionContract>,
    c: OptionContract,
    now_secs: i64,
    symbol: Seq<char>,
    distance: D,
    mean: M,
    before: ProviderResult<Double>,
    after: ProviderResult<Double>,
)
    requires
        is_single_distance(distance),
        is_single_mean(mean),
        is_atm_read(contracts, now_secs, symbol, distance, mean, before),
        is_atm_read(contracts.push(c), now_secs, symbol, distance, mean, after),
        before is Ok,
        can_not_win(contracts, c, day_of(now_secs)),
    ensures
        outcome(after) == outcome(before),
{
    law_contract_that_can_not_win_is_ignored(contracts, c, day_of(now_secs), symbol);
    lemma_one_offer_gives_one_read(
        contracts,
        contracts.push(c),
        now_secs,
        now_secs,
        symbol,
        symbol,
        distance,
        mean,
        before,
        after,
    );
}

/// The underlying price is that of the first contract that carries one.
pub proof fn law_underlying_is_the_first_price(contracts: Seq<OptionContract>)
    ensures
        match underlying_price(contracts) {
            Some(price) => exists|i: int|
                {
                    &&& 0 <= i < contracts.len()
                    &&& price_of(#[trigger] contracts[i]) == Some(price)
                    &&& forall|k: int| 0 <= k < i ==> price_of(#[trigger] contracts[k]) is None
                },
            None => forall|k: int|
                0 <= k < contracts.len() ==> price_of(#[trigger] contracts[k]) is None,
        },
    decreases contracts.len(),
{
    lemma_price_is_found(contracts);
    if contracts.len() > 0 && price_of(contracts[0]) is None {
        let rest = contracts.skip(1);
        law_underlying_is_the_first_price(rest);
        if let Some(price) = underlying_price(contracts) {
            let i = choose|i: int|
                {
                    &&& 0 <= i < rest.len()
                    &&& price_of(#[trigger] rest[i]) == Some(price)
                    &&& forall|k: int| 0 <= k < i ==> price_of(#[trigger] rest[k]) is None
                };
            assert(contracts[i + 1] == rest[i]);
            assert forall|k: int| 0 <= k < i + 1 implies price_of(#[trigger] contracts[k])
                is None by {
                if k > 0 {
                    assert(rest[k - 1] == contracts[k]);
                }
            }
        }
    }
}

/// Whether `value` is averaged over the volatilities at the strike of `quotes[best]`, and that
/// strike is nearest `underlying`: by the distances `near` from it no strike is nearer and, where
/// all of them are numbers, no earlier one is as near. `gaps` are the distances from the strike.
pub open spec fn is_averaged_at<D: Fn(Double, Double) -> Double, M: Fn(&Vec<Double>) -> Double>(
    distance: D,
    mean: M,
    underlying: Double,
    quotes: Seq<Quote>,
    value: Double,
    near: Seq<Double>,
    best: int,
    gaps: Seq<Double>,
) -> bool {
    &&& are_distances(distance, quotes, underlying, near)
    &&& 0 <= best < quotes.len()
    &&& best == nearest(near)
    &&& forall|i: int| 0 <= i < near.len() ==> !(#[trigger] near[i]).below(near[best])
    &&& (forall|i: int| 0 <= i < near.len() ==> (#[trigger] near[i]).is_number()) ==> (forall|i: int|
        0 <= i < best ==> near[best].below(#[trigger] near[i]))
    &&& are_distances(distance, quotes, quotes[best].strike, gaps)
    &&& ivs_within(quotes, gaps).len() > 0
    &&& is_mean(mean, ivs_within(quotes, gaps), value)
}

/// A volatility that is read is the mean at the money: of the quotes at the first expiration
/// nearest the target, over those at the first strike nearest the first underlying price.
pub proof fn law_read_is_the_mean_at_the_money<
    D: Fn(Double, Double) -> Double,
    M: Fn(&Vec<Double>) -> Double,
>(
    contracts: Seq<OptionContract>,
    now_secs: i64,
    symbol: Seq<char>,
    distance: D,
    mean: M,
    iv: ProviderResult<Double>,
)
    requires
        is_atm_read(contracts, now_secs, symbol, distance, mean, iv),
        iv is Ok,
    ensures
        ({
            let today = day_of(now_secs);
            let target = target_contract(contracts, today)->0;
            let gap = target_gap(contracts[target], today);
            let quotes = quotes_at(contracts, target_expiration(contracts, today));
            &&& 0 <= target < contracts.len()
            &&& gap is Some
            &&& forall|i: int|
                0 <= i < contracts.len() && target_gap(#[trigger] contracts[i], today) is Some
                    ==> gap->0 <= target_gap(contracts[i], today)->0 && (i < target ==> gap->0
                    < target_gap(contracts[i], today)->0)
            &&& underlying_price(contracts) is Some
            &&& exists|near: Seq<Double>, best: int, gaps: Seq<Double>| #[trigger]
                is_averaged_at(
                    distance,
                    mean,
                    underlying_price(contracts)->0,
                    quotes,
                    iv->Ok_0,
                    near,
                    best,
                    gaps,
                )
        }),
{
    let today = day_of(now_secs);
    law_target_is_first_nearest(contracts, today);
    let offered = offer(contracts, today, symbol);
    let (underlying, quotes) = (offered->underlying, offered->quotes);
    let near = choose|near: Seq<Double>|
        {
            &&& #[trigger] are_distances(distance, quotes, underlying, near)
            &&& exists|gaps: Seq<Double>|
                {
                    &&& #[trigger] are_distances(
                        distance,
                        quotes,
                        quotes[nearest(near)].strike,
                        gaps,
                    )
                    &&& is_read_at(mean, quotes, gaps, symbol, iv)
                }
        };
    let best = nearest(near);
    let gaps = choose|gaps: Seq<Double>|
        {
            &&& #[trigger] are_distances(distance, quotes, quotes[best].strike, gaps)
            &&& is_read_at(mean, quotes, gaps, symbol, iv)
        };
    law_nothing_is_nearer(near);
    if forall|i: int| 0 <= i < near.len() ==> (#[trigger] near[i]).is_number() {
        law_nearest_is_first_smallest(near);
    }
    assert(underlying == underlying_price(contracts)->0);
    assert(quotes == quotes_at(contracts, target_expiration(contracts, today)));
    assert(is_averaged_at(distance, mean, underlying, quotes, iv->Ok_0, near, best, gaps));
}

/// Whether the mean of usable volatilities is a number above zero.
pub open spec fn is_mean_positive<M: Fn(&Vec<Double>) -> Double>(mean: M) -> bool {
    forall|v: Vec<Double>, m: Double|
        v@.len() > 0 && (forall|i: int| 0 <= i < v@.len() ==> is_usable_iv(#[trigger] v@[i]))
            && #[trigger] call_ensures(mean, (&v,), m) ==> m.is_number() && m.value() > 0
}

/// A volatility that is read is above zero.
pub proof fn law_read_is_above_zero<
    D: Fn(Double, Double) -> Double,
    M: Fn(&Vec<Double>) -> Double,
>(
    contracts: Seq<OptionContract>,
    now_secs: i64,
    symbol: Seq<char>,
    distance: D,
    mean: M,
    iv: ProviderResult<Double>,
)
    requires
        is_atm_read(contracts, now_secs, symbol, distance, mean, iv),
        iv is Ok,
        is_mean_positive(mean),
    ensures
        iv->Ok_0.is_number(),
        iv->Ok_0.value() > 0,
{
    let today = day_of(now_secs);
    let value = iv->Ok_0;
    let expiration = target_expiration(contracts, today);
    let quotes = quotes_at(contracts, expiration);
    law_read_is_the_mean_at_the_money(contracts, now_secs, symbol, distance, mean, iv);
    let (near, best, gaps) = choose|near: Seq<Double>, best: int, gaps: Seq<Double>| #[trigger]
        is_averaged_at(
            distance,
            mean,
            underlying_price(contracts)->0,
            quotes,
            value,
            near,
            best,
            gaps,
        );
    let ivs = ivs_within(quotes, gaps);
    law_quotes_match_the_expiration(contracts, expiration);
    law_averaged_ivs_are_at_the_strike(quotes, gaps);
    assert forall|i: int| 0 <= i < ivs.len() implies is_usable_iv(#[trigger] ivs[i]) by {
        assert(is_quoted_at_strike(quotes, gaps, ivs[i]));
    }
    let v = choose|v: Vec<Double>| v@ == ivs && #[trigger] call_ensures(mean, (&v,), value);
    assert forall|i: int| 0 <= i < v@.len() implies is_usable_iv(#[trigger] v@[i]) by {
        assert(v@[i] == ivs[i]);
    }
}

// --- Laws of the read in numbers ---

/// The day of a time is the number of whole days of 86400 seconds, toward zero.
pub proof fn law_day_is_whole_days(now_secs: i64)
    ensures
        now_secs >= 0 ==> day_of(now_secs) * 86_400 <= now_secs < day_of(now_secs) * 86_400 + 86_400,
        now_secs < 0 ==> day_of(now_secs) * 86_400 - 86_400 < now_secs <= day_of(now_secs) * 86_400,
{
    law_quotient_is_toward_zero(now_secs as int, 86_400);
}

/// A contract carries the price of its underlying asset, if it names one with a price.
pub proof fn law_price_is_that_of_the_asset(c: OptionContract)
    ensures
        match price_of(c) {
            Some(price) => c.underlying_asset matches Some(asset) && asset.price == Some(price),
            None => c.underlying_asset matches Some(asset) ==> asset.price is None,
        },
{
}

/// A contract is as far from the target as its expiration is from thirty days after today, before
/// or after alike; one whose expiration can not be read has no such distance.
pub proof fn law_gap_is_days_from_thirty(c: OptionContract, today: int)
    ensures
        match ymd_day(c.details.expiration_date@) {
            Some(day) => {
                &&& target_gap(c, today) matches Some(gap)
                &&& day >= today + 30 ==> gap == day - (today + 30)
                &&& day <= today + 30 ==> gap == (today + 30) - day
            },
            None => target_gap(c, today) is None,
        },
{
}

/// The expiration that a volatility is read at is the nearest to thirty days out. With days
/// counted by the calendar and `today` the day of the reading, no expiration that can be read is
/// fewer days away from `today + 30`, and none before it in the chain is as few; the quotes at
/// that very expiration, around the first price, are what the volatility is averaged from.
pub proof fn law_read_is_nearest_thirty_days<
    D: Fn(Double, Double) -> Double,
    M: Fn(&Vec<Double>) -> Double,
>(
    contracts: Seq<OptionContract>,
    now_secs: i64,
    today: int,
    symbol: Seq<char>,
    distance: D,
    mean: M,
    iv: ProviderResult<Double>,
)
    requires
        is_atm_read(contracts, now_secs, symbol, distance, mean, iv),
        iv is Ok,
        now_secs >= 0 ==> today * 86_400 <= now_secs < today * 86_400 + 86_400,
        now_secs < 0 ==> today * 86_400 - 86_400 < now_secs <= today * 86_400,
    ensures
        exists|e: int|
            {
                let expiration = (#[trigger] contracts[e]).details.expiration_date@;
                &&& 0 <= e < contracts.len()
                &&& ymd_day(expiration) matches Some(day)
                &&& forall|i: int|
                    0 <= i < contracts.len() ==> match ymd_day(
                        (#[trigger] contracts[i]).details.expiration_date@,
                    ) {
                        Some(other) => {
                            let chosen_off = if day >= today + 30 {
                                day - today - 30
                            } else {
                                30 + today - day
                            };
                            let other_off = if other >= today + 30 {
                                other - today - 30
                            } else {
                                30 + today - other
                            };
                            chosen_off <= other_off && (i < e ==> chosen_off < other_off)
                        },
                        None => true,
                    }
                &&& underlying_price(contracts) is Some
                &&& exists|near: Seq<Double>, best: int, gaps: Seq<Double>|
                    {
                        let quotes = quotes_at(contracts, expiration);
                        &&& #[trigger] are_distances(
                            distance,
                            quotes_at(contracts, expiration),
                            underlying_price(contracts)->0,
                            near,
                        )
                        &&& 0 <= best < quotes.len()
                        &&& best == nearest(near)
                        &&& forall|i: int|
                            0 <= i < near.len() ==> !(#[trigger] near[i]).below(near[best])
                        &&& #[trigger] are_distances(
                            distance,
                            quotes_at(contracts, expiration),
                            quotes_at(contracts, expiration)[best].strike,
                            gaps,
                        )
                        &&& ivs_within(quotes, gaps).len() > 0
                        &&& is_mean(mean, ivs_within(quotes, gaps), iv->Ok_0)
                    }
            },
{
    law_day_is_whole_days(now_secs);
    assert(today == day_of(now_secs));
    law_read_is_the_mean_at_the_money(contracts, now_secs, symbol, distance, mean, iv);
    let e = target_contract(contracts, today)->0;
    law_gap_is_days_from_thirty(contracts[e], today);
    let day = ymd_day(contracts[e].details.expiration_date@)->0;
    assert forall|i: int| 0 <= i < contracts.len() implies match ymd_day(
        (#[trigger] contracts[i]).details.expiration_date@,
    ) {
        Some(other) => {
            let chosen_off = if day >= today + 30 {
                day - today - 30
            } else {
                30 + today - day
            };
            let other_off = if other >= today + 30 {
                other - today - 30
            } else {
                30 + today - other
            };
            chosen_off <= other_off && (i < e ==> chosen_off < other_off)
        },
        None => true,
    } by {
        law_gap_is_days_from_thirty(contracts[i], today);
    }
}

/// A volatility is usable by its bits: above zero and below infinity.
pub proof fn law_usable_volatility_by_the_bits(iv: Double)
    ensures
        is_usable_iv(iv) <==> 0 < iv.bits < 0x7ff0_0000_0000_0000,
{
    law_order_is_that_of_the_bits(iv, Double { bits: 0 });
}

/// Quotes come in the order of their contracts, each contract for itself: those of two chains put
/// together are those of the first and then those of the second, and a single contract gives its
/// strike and its volatility if it expires then and the volatility is usable.
pub proof fn law_quotes_come_contract_by_contract(
    first: Seq<OptionContract>,
    second: Seq<OptionContract>,
    c: OptionContract,
    expiration: Seq<char>,
)
    ensures
        quotes_at(first + second, expiration) == quotes_at(first, expiration) + quotes_at(
            second,
            expiration,
        ),
        match c.implied_volatility {
            Some(iv) => if c.details.expiration_date@ == expiration && 0 < iv.bits
                < 0x7ff0_0000_0000_0000 {
                quotes_at(seq![c], expiration) == seq![Quote { strike: c.details.strike_price, iv }]
            } else {
                quotes_at(seq![c], expiration).len() == 0
            },
            None => quotes_at(seq![c], expiration).len() == 0,
        },
    decreases second.len(),
{
    if let Some(iv) = c.implied_volatility {
        law_usable_volatility_by_the_bits(iv);
    }
    assert(seq![c].drop_last() =~= Seq::<OptionContract>::empty());
    assert(seq![c].last() == c);
    assert(quotes_at(Seq::<OptionContract>::empty(), expiration) =~= Seq::<Quote>::empty());
    if second.len() == 0 {
        assert(first + second =~= first);
        assert(quotes_at(first, expiration) + quotes_at(second, expiration) =~= quotes_at(
            first,
            expiration,
        ));
    } else {
        law_quotes_come_contract_by_contract(first, second.drop_last(), c, expiration);
        assert((first + second).drop_last() =~= first + second.drop_last());
        assert((first + second).last() == second.last());
        assert(quotes_at(first + second, expiration) =~= quotes_at(first, expiration) + quotes_at(
            second,
            expiration,
        ));
    }
}

/// The nearest of some distances and one more is the new one when it is less than the nearest so
/// far, and else the nearest so far; of one distance it is that one.
pub proof fn law_nearest_goes_one_by_one(distances: Seq<Double>, next: Double)
    ensures
        nearest(seq![next]) == 0,
        distances.len() > 0 ==> nearest(distances.push(next)) == (if next.below(
            distances[nearest(distances)],
        ) {
            distances.len() as int
        } else {
            nearest(distances)
        }),
{
    assert(distances.push(next).drop_last() =~= distances);
    if distances.len() > 0 {
        law_nothing_is_nearer(distances);
        assert(distances.push(next)[nearest(distances)] == distances[nearest(distances)]);
    }
}

/// Volatilities at the strike come in the order of their quotes, each quote for itself: it counts
/// when its distance from the strike is a number less than a billionth.
pub proof fn law_ivs_come_quote_by_quote(
    quotes1: Seq<Quote>,
    gaps1: Seq<Double>,
    quotes2: Seq<Quote>,
    gaps2: Seq<Double>,
    quote: Quote,
    gap: Double,
)
    requires
        quotes1.len() == gaps1.len(),
        quotes2.len() == gaps2.len(),
    ensures
        ivs_within(quotes1 + quotes2, gaps1 + gaps2) == ivs_within(quotes1, gaps1) + ivs_within(
            quotes2,
            gaps2,
        ),
        ivs_within(seq![quote], seq![gap]) == (if gap.bits < 0x3e11_2e0b_e826_d695 || (
        0x8000_0000_0000_0000 <= gap.bits <= 0xfff0_0000_0000_0000) {
            seq![quote.iv]
        } else {
            Seq::empty()
        }),
    decreases quotes2.len(),
{
    law_order_is_that_of_the_bits(gap, strike_tolerance());
    assert(seq![quote].drop_last() =~= Seq::<Quote>::empty());
    assert(seq![gap].drop_last() =~= Seq::<Double>::empty());
    assert(ivs_within(Seq::<Quote>::empty(), Seq::<Double>::empty()) =~= Seq::<Double>::empty());
    assert(Seq::<Double>::empty().push(quote.iv) =~= seq![quote.iv]);
    if quotes2.len() == 0 {
        assert(quotes1 + quotes2 =~= quotes1);
        assert(gaps1 + gaps2 =~= gaps1);
        assert(ivs_within(quotes1, gaps1) + ivs_within(quotes2, gaps2) =~= ivs_within(
            quotes1,
            gaps1,
        ));
    } else {
        law_ivs_come_quote_by_quote(
            quotes1,
            gaps1,
            quotes2.drop_last(),
            gaps2.drop_last(),
            quote,
            gap,
        );
        assert((quotes1 + quotes2).drop_last() =~= quotes1 + quotes2.drop_last());
        assert((gaps1 + gaps2).drop_last() =~= gaps1 + gaps2.drop_last());
        assert((quotes1 + quotes2).last() == quotes2.last());
        assert((gaps1 + gaps2).last() == gaps2.last());
        assert(ivs_within(quotes1 + quotes2, gaps1 + gaps2) =~= ivs_within(quotes1, gaps1)
            + ivs_within(quotes2, gaps2));
    }
}

/// Distances are asked for once a quote, between its own strike and the point, and taken as they
/// come back.
pub proof fn law_distances_are_between_strike_and_point<D: Fn(Double, Double) -> Double>(
    distance: D,
    quotes: Seq<Quote>,
    point: Double,
    found: Seq<Double>,
)
    ensures
        are_distances(distance, quotes, point, found) <==> {
            &&& found.len() == quotes.len()
            &&& forall|i: int|
                0 <= i < quotes.len() ==> call_ensures(
                    distance,
                    ((#[trigger] quotes[i]).strike, point),
                    found[i],
                )
        },
{
}

/// The mean is asked for over the volatilities as they stand, and taken as it comes back.
pub proof fn law_mean_is_over_all_volatilities<M: Fn(&Vec<Double>) -> Double>(
    mean: M,
    ivs: Seq<Double>,
    value: Double,
)
    requires
        is_mean(mean, ivs, value),
    ensures
        exists|v: Vec<Double>|
            {
                &&& v@.len() == ivs.len()
                &&& forall|i: int| 0 <= i < ivs.len() ==> v@[i] == #[trigger] ivs[i]
                &&& #[trigger] call_ensures(mean, (&v,), value)
            },
{
    let v = choose|v: Vec<Double>| v@ == ivs && #[trigger] call_ensures(mean, (&v,), value);
    assert(v@.len() == ivs.len());
}

/// What it means that a chain has a price, an expiration to read, and a usable volatility at an
/// expiration: one of its contracts has it.
pub proof fn law_chain_has_what_a_contract_has(
    contracts: Seq<OptionContract>,
    expiration: Seq<char>,
)
    ensures
        has_price(contracts) <==> exists|i: int|
            0 <= i < contracts.len() && price_of(#[trigger] contracts[i]) is Some,
        has_expiration(contracts) <==> exists|i: int|
            0 <= i < contracts.len() && ymd_day((#[trigger] contracts[i]).details.expiration_date@)
                is Some,
        has_iv_at(contracts, expiration) <==> exists|i: int|
            {
                &&& 0 <= i < contracts.len()
                &&& (#[trigger] contracts[i]).details.expiration_date@ == expiration
                &&& contracts[i].implied_volatility matches Some(iv)
                &&& 0 < iv.bits < 0x7ff0_0000_0000_0000
            },
{
    if has_iv_at(contracts, expiration) {
        let i = choose|i: int|
            0 <= i < contracts.len() && (#[trigger] contracts[i]).details.expiration_date@
                == expiration && carries_iv(contracts[i]);
        law_usable_volatility_by_the_bits(contracts[i].implied_volatility->0);
    }
    if exists|i: int|
        {
            &&& 0 <= i < contracts.len()
            &&& (#[trigger] contracts[i]).details.expiration_date@ == expiration
            &&& contracts[i].implied_volatility matches Some(iv)
            &&& 0 < iv.bits < 0x7ff0_0000_0000_0000
        } {
        let i = choose|i: int|
            {
                &&& 0 <= i < contracts.len()
                &&& (#[trigger] contracts[i]).details.expiration_date@ == expiration
                &&& contracts[i].implied_volatility matches Some(iv)
                &&& 0 < iv.bits < 0x7ff0_0000_0000_0000
            };
        law_usable_volatility_by_the_bits(contracts[i].implied_volatility->0);
        assert(carries_iv(contracts[i]));
    }
}

/// What a chain offers. An empty chain, one without a price, one without an expiration to read and
/// one without a usable volatility at the chosen expiration each fail with a message that names
/// the whole symbol; any other offers the quotes at that expiration around the first price.
pub proof fn law_offer_or_what_is_missing(
    contracts: Seq<OptionContract>,
    today: int,
    symbol: Seq<char>,
)
    ensures
        ({
            let offered = offer(contracts, today, symbol);
            let expiration = target_expiration(contracts, today);
            &&& contracts.len() == 0 ==> offered == Offer::Nothing(
                Failure::NotFound("empty options chain for "@ + symbol),
            )
            &&& contracts.len() > 0 && !has_price(contracts) ==> offered == Offer::Nothing(
                Failure::Transport("no underlying price in chain for "@ + symbol),
            )
            &&& has_price(contracts) && !has_expiration(contracts) ==> offered == Offer::Nothing(
                Failure::Transport("no parseable expirations for "@ + symbol),
            )
            &&& has_price(contracts) && has_expiration(contracts) && !has_iv_at(
                contracts,
                expiration,
            ) ==> offered == Offer::Nothing(
                Failure::NotFound("no usable IV near 30 DTE for "@ + symbol),
            )
            &&& has_price(contracts) && has_expiration(contracts) && has_iv_at(
                contracts,
                expiration,
            ) ==> offered == (Offer::Quotes {
                underlying: underlying_price(contracts)->0,
                quotes: quotes_at(contracts, expiration),
            })
        }),
{
    lemma_price_is_found(contracts);
    lemma_target_is_found(contracts, today);
    lemma_quotes_are_found(contracts, target_expiration(contracts, today));
}

/// What the error of a read says: the kind and the message by what is missing, with the whole
/// symbol in it. Where nothing is missing the error is that no volatility is at the strike, and
/// then no quote is within the tolerance of the nearest strike.
pub proof fn law_error_tells_what_is_missing<
    D: Fn(Double, Double) -> Double,
    M: Fn(&Vec<Double>) -> Double,
>(
    contracts: Seq<OptionContract>,
    now_secs: i64,
    symbol: Seq<char>,
    distance: D,
    mean: M,
    iv: ProviderResult<Double>,
)
    requires
        is_atm_read(contracts, now_secs, symbol, distance, mean, iv),
    ensures
        ({
            let expiration = target_expiration(contracts, day_of(now_secs));
            let quotes = quotes_at(contracts, expiration);
            &&& contracts.len() == 0 ==> (iv matches Err(ProviderError::NotFound(text)) && text@
                == "empty options chain for "@ + symbol)
            &&& contracts.len() > 0 && !has_price(contracts) ==> (iv matches Err(
                ProviderError::Transport(text),
            ) && text@ == "no underlying price in chain for "@ + symbol)
            &&& has_price(contracts) && !has_expiration(contracts) ==> (iv matches Err(
                ProviderError::Transport(text),
            ) && text@ == "no parseable expirations for "@ + symbol)
            &&& has_price(contracts) && has_expiration(contracts) && !has_iv_at(
                contracts,
                expiration,
            ) ==> (iv matches Err(ProviderError::NotFound(text)) && text@
                == "no usable IV near 30 DTE for "@ + symbol)
            &&& has_price(contracts) && has_expiration(contracts) && has_iv_at(
                contracts,
                expiration,
            ) && iv is Err ==> (iv matches Err(ProviderError::NotFound(text)) && text@
                == "no IV at ATM strike for "@ + symbol) && exists|
                near: Seq<Double>,
                gaps: Seq<Double>,
            |
                {
                    &&& #[trigger] are_distances(
                        distance,
                        quotes,
                        underlying_price(contracts)->0,
                        near,
                    )
                    &&& #[trigger] are_distances(
                        distance,
                        quotes,
                        quotes[nearest(near)].strike,
                        gaps,
                    )
                    &&& ivs_within(quotes, gaps).len() == 0
                }
        }),
{
    let today = day_of(now_secs);
    law_offer_or_what_is_missing(contracts, today, symbol);
}

/// Asking for days to expiry is out of reach only in a chain with a price, where it is so for some
/// contract.
pub proof fn law_reach_of_a_chain(contracts: Seq<OptionContract>, today: int)
    ensures
        !expirations_fit(contracts, today) <==> underlying_price(contracts) is Some && exists|i: int|
            0 <= i < contracts.len() && !dte_fits(
                (#[trigger] contracts[i]).details.expiration_date@,
                today,
            ),
{
}

} // verus!
