//! Daily aggregates: raw ticks of the wire mapped onto canonical bars.
use crate::double::{law_order_is_that_of_the_bits, Double};
use crate::integer::{law_quotient_is_toward_zero, trunc_div};
use crate::model::{message, Bar, Failure, ProviderError, ProviderResult};
use vstd::prelude::*;

verus! {

/// One aggregate as the provider sends it. `t` is the start of its window in milliseconds since
/// 1970-01-01; then open, high, low, close and volume.
#[derive(Clone, Copy, Debug, PartialEq, Eq, Structural)]
pub struct AggBar {
    pub t: i64,
    pub o: Double,
    pub h: Double,
    pub l: Double,
    pub c: Double,
    pub v: Double,
}

/// The provider's answer to a request for aggregates.
#[derive(Debug)]
pub struct AggsResponse {
    pub results: Vec<AggBar>,
}

/// Whether `p` can be a price: a finite number above zero.
pub open spec fn is_price(p: Double) -> bool {
    p.finite() && p.value() > 0
}

/// Whether a tick is usable: every price finite and positive, the high not below the low, the
/// volume finite and not negative.
pub open spec fn is_usable(b: AggBar) -> bool {
    &&& is_price(b.o)
    &&& is_price(b.h)
    &&& is_price(b.l)
    &&& is_price(b.c)
    &&& b.h.value() >= b.l.value()
    &&& b.v.finite()
    &&& b.v.value() >= 0
}

fn price(p: &Double) -> (r: bool)
    ensures
        r == is_price(*p),
{
    p.is_finite() && p.is_positive()
}

/// A bar is usable only if every price is finite and positive, the high is not below the low, and
/// the volume is finite and not negative.
pub fn is_valid_tick(b: &AggBar) -> (r: bool)
    ensures
        r == is_usable(*b),
{
    let zero: Double = Double { bits: 0 };
    assert(zero.value() == 0);
    price(&b.o) && price(&b.h) && price(&b.l) && price(&b.c) && b.h.at_least(&b.l)
        && b.v.is_finite() && b.v.at_least(&zero)
}

/// The canonical bar of a tick: milliseconds become seconds, the fraction dropped.
pub open spec fn to_bar(b: AggBar) -> Bar {
    Bar {
        t: trunc_div(b.t as int, 1000) as i64,
        open: b.o,
        high: b.h,
        low: b.l,
        close: b.c,
        volume: b.v,
    }
}

/// The canonical bars of the usable ticks, in the order they came.
pub open spec fn usable_bars(ticks: Seq<AggBar>) -> Seq<Bar>
    decreases ticks.len(),
{
    if ticks.len() == 0 {
        Seq::empty()
    } else {
        let before = usable_bars(ticks.drop_last());
        if is_usable(ticks.last()) {
            before.push(to_bar(ticks.last()))
        } else {
            before
        }
    }
}

/// Whether times strictly ascend.
pub open spec fn is_ascending(bars: Seq<Bar>) -> bool {
    forall|i: int, j: int|
        #![trigger bars[i], bars[j]]
        0 <= i < j < bars.len() ==> bars[i].t < bars[j].t
}

/// Whether some bar has time `t`.
pub open spec fn holds_time(bars: Seq<Bar>, t: i64) -> bool {
    exists|i: int| 0 <= i < bars.len() && (#[trigger] bars[i]).t == t
}

/// Whether `bar` is the first of `bars` with its time.
pub open spec fn is_first(bars: Seq<Bar>, bar: Bar) -> bool {
    exists|k: int|
        0 <= k < bars.len() && #[trigger] bars[k] == bar && !holds_time(bars.take(k), bar.t)
}

/// Whether `series` is `bars` put in order of time, of bars with one time only the first kept.
pub open spec fn is_series(bars: Seq<Bar>, series: Seq<Bar>) -> bool {
    &&& is_ascending(series)
    &&& forall|i: int| 0 <= i < series.len() ==> is_first(bars, #[trigger] series[i])
    &&& forall|k: int| 0 <= k < bars.len() ==> holds_time(series, (#[trigger] bars[k]).t)
}

/// The last `count` bars, or all of them when there are fewer.
pub open spec fn most_recent(bars: Seq<Bar>, count: nat) -> Seq<Bar> {
    if bars.len() <= count {
        bars
    } else {
        bars.skip(bars.len() - count)
    }
}

/// Whether `merged` has the bars of `left`, and those of `right` at other times, in order.
spec fn is_merged(left: Seq<Bar>, right: Seq<Bar>, merged: Seq<Bar>) -> bool {
    &&& is_ascending(merged)
    &&& forall|i: int|
        0 <= i < merged.len() ==> left.contains(#[trigger] merged[i]) || (right.contains(merged[i])
            && !holds_time(left, merged[i].t))
    &&& forall|k: int| 0 <= k < left.len() ==> holds_time(merged, (#[trigger] left[k]).t)
    &&& forall|k: int| 0 <= k < right.len() ==> holds_time(merged, (#[trigger] right[k]).t)
}

proof fn lemma_push_holds(bars: Seq<Bar>, bar: Bar)
    ensures
        holds_time(bars.push(bar), bar.t),
        forall|t: i64| holds_time(bars, t) ==> #[trigger] holds_time(bars.push(bar), t),
{
    assert(bars.push(bar)[bars.len() as int] == bar);
    assert forall|t: i64| holds_time(bars, t) implies #[trigger] holds_time(bars.push(bar), t) by {
        let i = choose|i: int| 0 <= i < bars.len() && (#[trigger] bars[i]).t == t;
        assert(bars.push(bar)[i] == bars[i]);
    }
}

fn merge(left: &Vec<Bar>, right: &Vec<Bar>) -> (merged: Vec<Bar>)
    requires
        is_ascending(left@),
        is_ascending(right@),
    ensures
        is_merged(left@, right@, merged@),
{
    let mut merged: Vec<Bar> = Vec::new();
    let mut i: usize = 0;
    let mut j: usize = 0;
    while i < left.len() || j < right.len()
        invariant
            i <= left@.len(),
            j <= right@.len(),
            is_ascending(left@),
            is_ascending(right@),
            is_ascending(merged@),
            forall|k: int| 0 <= k < merged@.len() && i < left@.len() ==> (#[trigger] merged@[k]).t
                < left@[i as int].t,
            forall|k: int| 0 <= k < merged@.len() && j < right@.len() ==> (#[trigger] merged@[k]).t
                < right@[j as int].t,
            forall|k: int|
                0 <= k < merged@.len() ==> left@.contains(#[trigger] merged@[k]) || (
                right@.contains(merged@[k]) && !holds_time(left@, merged@[k].t)),
            forall|k: int| 0 <= k < i ==> holds_time(merged@, (#[trigger] left@[k]).t),
            forall|k: int| 0 <= k < j ==> holds_time(merged@, (#[trigger] right@[k]).t),
        decreases left@.len() + right@.len() - i - j,
    {
        let ghost before = merged@;
        if j == right.len() || (i < left.len() && left[i].t <= right[j].t) {
            let bar: Bar = left[i];
            proof {
                lemma_push_holds(before, bar);
            }
            merged.push(bar);
            if j < right.len() && right[j].t == bar.t {
                j = j + 1;
            }
            i = i + 1;
        } else {
            let bar: Bar = right[j];
            proof {
                lemma_push_holds(before, bar);
                assert(!holds_time(left@, bar.t)) by {
                    if holds_time(left@, bar.t) {
                        let k = choose|k: int|
                            0 <= k < left@.len() && (#[trigger] left@[k]).t == bar.t;
                        if k < i {
                            assert(holds_time(before, left@[k].t));
                        }
                    }
                }
            }
            merged.push(bar);
            j = j + 1;
        }
    }
    merged
}

proof fn lemma_merged_series(
    bars1: Seq<Bar>,
    bars2: Seq<Bar>,
    left: Seq<Bar>,
    right: Seq<Bar>,
    merged: Seq<Bar>,
)
    requires
        is_series(bars1, left),
        is_series(bars2, right),
        is_merged(left, right, merged),
    ensures
        is_series(bars1 + bars2, merged),
{
    let bars = bars1 + bars2;
    assert forall|i: int| 0 <= i < merged.len() implies is_first(bars, #[trigger] merged[i]) by {
        let bar = merged[i];
        if left.contains(bar) {
            let n = choose|n: int| 0 <= n < left.len() && left[n] == bar;
            assert(is_first(bars1, left[n]));
            let k = choose|k: int|
                0 <= k < bars1.len() && #[trigger] bars1[k] == bar && !holds_time(
                    bars1.take(k),
                    bar.t,
                );
            assert(bars[k] == bar);
            assert(bars.take(k) =~= bars1.take(k));
        } else {
            let n = choose|n: int| 0 <= n < right.len() && right[n] == bar;
            assert(is_first(bars2, right[n]));
            let k = choose|k: int|
                0 <= k < bars2.len() && #[trigger] bars2[k] == bar && !holds_time(
                    bars2.take(k),
                    bar.t,
                );
            let at = bars1.len() + k;
            assert(bars[at] == bar);
            assert(!holds_time(bars.take(at), bar.t)) by {
                if holds_time(bars.take(at), bar.t) {
                    let q = choose|q: int| 0 <= q < at && (#[trigger] bars.take(at)[q]).t == bar.t;
                    if q < bars1.len() {
                        assert(bars1[q].t == bar.t);
                        assert(holds_time(left, bars1[q].t));
                    } else {
                        assert(bars2.take(k)[q - bars1.len()].t == bar.t);
                    }
                }
            }
        }
    }
    assert forall|k: int| 0 <= k < bars.len() implies holds_time(
        merged,
        (#[trigger] bars[k]).t,
    ) by {
        if k < bars1.len() {
            assert(holds_time(left, bars1[k].t));
            let n = choose|n: int| 0 <= n < left.len() && (#[trigger] left[n]).t == bars1[k].t;
            assert(holds_time(merged, left[n].t));
        } else {
            let k2 = k - bars1.len();
            assert(holds_time(right, bars2[k2].t));
            let n = choose|n: int| 0 <= n < right.len() && (#[trigger] right[n]).t == bars2[k2].t;
            assert(holds_time(merged, right[n].t));
        }
    }
}

/// Put `bars[from..to]` in order of time, keeping the first bar of each time.
fn series_of(bars: &Vec<Bar>, from: usize, to: usize) -> (series: Vec<Bar>)
    requires
        from <= to <= bars@.len(),
    ensures
        is_series(bars@.subrange(from as int, to as int), series@),
    decreases to - from,
{
    if to - from <= 1 {
        let mut series: Vec<Bar> = Vec::new();
        if from < to {
            series.push(bars[from]);
        }
        proof {
            let part = bars@.subrange(from as int, to as int);
            if from < to {
                assert(part[0] == series@[0]);
                assert(!holds_time(part.take(0), part[0].t));
                assert(is_first(part, part[0]));
                assert(holds_time(series@, series@[0].t));
            }
        }
        return series;
    }
    let mid: usize = from + (to - from) / 2;
    let left: Vec<Bar> = series_of(bars, from, mid);
    let right: Vec<Bar> = series_of(bars, mid, to);
    let merged: Vec<Bar> = merge(&left, &right);
    proof {
        let part1 = bars@.subrange(from as int, mid as int);
        let part2 = bars@.subrange(mid as int, to as int);
        lemma_merged_series(part1, part2, left@, right@, merged@);
        assert(part1 + part2 =~= bars@.subrange(from as int, to as int));
    }
    merged
}

/// Whether `bars` are what `ticks` map to: the most recent of the series of their usable bars, or
/// the failure of having none.
pub open spec fn is_mapped(
    ticks: Seq<AggBar>,
    lookback: nat,
    symbol: Seq<char>,
    bars: ProviderResult<Vec<Bar>>,
) -> bool {
    match bars {
        Ok(v) => {
            &&& usable_bars(ticks).len() > 0
            &&& exists|series: Seq<Bar>| #[trigger]
                is_series(usable_bars(ticks), series) && v@ == most_recent(series, lookback)
        },
        Err(e) => {
            &&& usable_bars(ticks).len() == 0
            &&& e@ == Failure::NotFound("no valid daily bars for "@ + symbol)
        },
    }
}

/// Map an aggregates response to canonical bars: milliseconds to seconds, bad ticks dropped,
/// ascending, one bar per time, trimmed to the most recent `lookback_days`. `NotFound` if no
/// valid bar is left.
pub fn map_aggs(resp: AggsResponse, lookback_days: usize, symbol: &str) -> (bars: ProviderResult<
    Vec<Bar>,
>)
    ensures
        is_mapped(resp.results@, lookback_days as nat, symbol@, bars),
{
    let mut usable: Vec<Bar> = Vec::new();
    let mut i: usize = 0;
    while i < resp.results.len()
        invariant
            i <= resp.results@.len(),
            usable@ == usable_bars(resp.results@.take(i as int)),
        decreases resp.results@.len() - i,
    {
        let b: AggBar = resp.results[i];
        assert(resp.results@.take(i + 1).drop_last() =~= resp.results@.take(i as int));
        if is_valid_tick(&b) {
            usable.push(Bar::new(b.t / 1000, b.o, b.h, b.l, b.c, b.v));
        }
        i = i + 1;
    }
    assert(resp.results@.take(i as int) =~= resp.results@);
    if usable.len() == 0 {
        return Err(ProviderError::NotFound(message("no valid daily bars for ", symbol)));
    }
    let mut series: Vec<Bar> = series_of(&usable, 0, usable.len());
    assert(usable@.subrange(0, usable@.len() as int) =~= usable@);
    let ghost whole = series@;
    if series.len() > lookback_days {
        let at: usize = series.len() - lookback_days;
        let recent: Vec<Bar> = series.split_off(at);
        assert(recent@ =~= most_recent(whole, lookback_days as nat));
        Ok(recent)
    } else {
        Ok(series)
    }
}

// --- Laws of the mapping ---

proof fn lemma_first_is_unique(bars: Seq<Bar>, a: Bar, b: Bar)
    requires
        is_first(bars, a),
        is_first(bars, b),
        a.t == b.t,
    ensures
        a == b,
{
    let i = choose|k: int|
        0 <= k < bars.len() && #[trigger] bars[k] == a && !holds_time(bars.take(k), a.t);
    let j = choose|k: int|
        0 <= k < bars.len() && #[trigger] bars[k] == b && !holds_time(bars.take(k), b.t);
    if i < j {
        assert(bars.take(j)[i].t == b.t);
    } else if j < i {
        assert(bars.take(i)[j].t == a.t);
    }
}

proof fn lemma_same_times(s1: Seq<Bar>, s2: Seq<Bar>)
    requires
        is_ascending(s1),
        is_ascending(s2),
        forall|i: int| 0 <= i < s1.len() ==> holds_time(s2, (#[trigger] s1[i]).t),
        forall|i: int| 0 <= i < s2.len() ==> holds_time(s1, (#[trigger] s2[i]).t),
        forall|i: int, j: int|
            #![trigger s1[i], s2[j]]
            0 <= i < s1.len() && 0 <= j < s2.len() && s1[i].t == s2[j].t ==> s1[i] == s2[j],
    ensures
        s1 == s2,
    decreases s1.len(),
{
    if s1.len() == 0 {
        if s2.len() > 0 {
            assert(holds_time(s1, s2[0].t));
        }
        assert(s1 =~= s2);
    } else {
        assert(holds_time(s2, s1[s1.len() - 1].t));
        assert(holds_time(s1, s2[s2.len() - 1].t));
        assert(s1.last().t == s2.last().t);
        let (d1, d2) = (s1.drop_last(), s2.drop_last());
        assert forall|i: int| 0 <= i < d1.len() implies holds_time(d2, (#[trigger] d1[i]).t) by {
            assert(d1[i] == s1[i]);
            assert(holds_time(s2, s1[i].t));
            let j = choose|j: int| 0 <= j < s2.len() && (#[trigger] s2[j]).t == s1[i].t;
            assert(s1[i].t < s1[s1.len() - 1].t);
            assert(d2[j] == s2[j]);
        }
        assert forall|i: int| 0 <= i < d2.len() implies holds_time(d1, (#[trigger] d2[i]).t) by {
            assert(d2[i] == s2[i]);
            assert(holds_time(s1, s2[i].t));
            let j = choose|j: int| 0 <= j < s1.len() && (#[trigger] s1[j]).t == s2[i].t;
            assert(s2[i].t < s2[s2.len() - 1].t);
            assert(d1[j] == s1[j]);
        }
        assert forall|i: int, j: int|
            #![trigger d1[i], d2[j]]
            0 <= i < d1.len() && 0 <= j < d2.len() && d1[i].t == d2[j].t implies d1[i]
            == d2[j] by {
            assert(d1[i] == s1[i] && d2[j] == s2[j]);
        }
        lemma_same_times(d1, d2);
        assert(s1 =~= d1.push(s1.last()));
        assert(s2 =~= d2.push(s2.last()));
    }
}

proof fn lemma_series_times(bars: Seq<Bar>, s1: Seq<Bar>, s2: Seq<Bar>)
    requires
        is_series(bars, s1),
        is_series(bars, s2),
    ensures
        forall|i: int| 0 <= i < s1.len() ==> holds_time(s2, (#[trigger] s1[i]).t),
{
    assert forall|i: int| 0 <= i < s1.len() implies holds_time(s2, (#[trigger] s1[i]).t) by {
        assert(is_first(bars, s1[i]));
        let k = choose|k: int|
            0 <= k < bars.len() && #[trigger] bars[k] == s1[i] && !holds_time(
                bars.take(k),
                s1[i].t,
            );
        assert(holds_time(s2, bars[k].t));
    }
}

/// Given bars have only one series: the contract of `map_aggs` fixes its result.
pub proof fn law_series_is_unique(bars: Seq<Bar>, s1: Seq<Bar>, s2: Seq<Bar>)
    requires
        is_series(bars, s1),
        is_series(bars, s2),
    ensures
        s1 == s2,
{
    lemma_series_times(bars, s1, s2);
    lemma_series_times(bars, s2, s1);
    assert forall|i: int, j: int|
        #![trigger s1[i], s2[j]]
        0 <= i < s1.len() && 0 <= j < s2.len() && s1[i].t == s2[j].t implies s1[i] == s2[j] by {
        lemma_first_is_unique(bars, s1[i], s2[j]);
    }
    lemma_same_times(s1, s2);
}

/// The order in which bars come does not matter as long as no two of them have one time.
pub proof fn law_order_of_ticks_is_irrelevant(
    bars1: Seq<Bar>,
    bars2: Seq<Bar>,
    s1: Seq<Bar>,
    s2: Seq<Bar>,
)
    requires
        is_series(bars1, s1),
        is_series(bars2, s2),
        forall|bar: Bar| bars1.contains(bar) <==> bars2.contains(bar),
        forall|i: int, j: int|
            #![trigger bars1[i], bars1[j]]
            0 <= i < bars1.len() && 0 <= j < bars1.len() && bars1[i].t == bars1[j].t ==> bars1[i]
                == bars1[j],
    ensures
        s1 == s2,
{
    assert forall|i: int| 0 <= i < s1.len() implies holds_time(s2, (#[trigger] s1[i]).t)
        && bars1.contains(s1[i]) by {
        assert(is_first(bars1, s1[i]));
        assert(bars2.contains(s1[i]));
        let k = choose|k: int| 0 <= k < bars2.len() && bars2[k] == s1[i];
        assert(holds_time(s2, bars2[k].t));
    }
    assert forall|i: int| 0 <= i < s2.len() implies holds_time(s1, (#[trigger] s2[i]).t)
        && bars1.contains(s2[i]) by {
        assert(is_first(bars2, s2[i]));
        assert(bars2.contains(s2[i]));
        let k = choose|k: int| 0 <= k < bars1.len() && bars1[k] == s2[i];
        assert(holds_time(s1, bars1[k].t));
    }
    assert forall|i: int, j: int|
        #![trigger s1[i], s2[j]]
        0 <= i < s1.len() && 0 <= j < s2.len() && s1[i].t == s2[j].t implies s1[i] == s2[j] by {
        assert(bars1.contains(s1[i]) && bars1.contains(s2[j]));
        let a = choose|k: int| 0 <= k < bars1.len() && bars1[k] == s1[i];
        let b = choose|k: int| 0 <= k < bars1.len() && bars1[k] == s2[j];
        assert(bars1[a].t == bars1[b].t);
    }
    lemma_same_times(s1, s2);
}

/// Whether a bar is fit to be screened: what `is_usable` asks of a tick.
pub open spec fn is_sound(bar: Bar) -> bool {
    &&& is_price(bar.open)
    &&& is_price(bar.high)
    &&& is_price(bar.low)
    &&& is_price(bar.close)
    &&& bar.high.value() >= bar.low.value()
    &&& bar.volume.finite()
    &&& bar.volume.value() >= 0
}

/// No bad tick gets through, and no usable one is lost: the usable bars are sound, and each tick
/// that is usable has its bar among them.
pub proof fn law_usable_bars_are_sound(ticks: Seq<AggBar>)
    ensures
        forall|i: int|
            0 <= i < usable_bars(ticks).len() ==> is_sound(#[trigger] usable_bars(ticks)[i]),
        forall|k: int|
            0 <= k < ticks.len() && is_usable(#[trigger] ticks[k]) ==> usable_bars(ticks).contains(
                to_bar(ticks[k]),
            ),
    decreases ticks.len(),
{
    if ticks.len() > 0 {
        let before = usable_bars(ticks.drop_last());
        let all = usable_bars(ticks);
        law_usable_bars_are_sound(ticks.drop_last());
        assert forall|k: int| 0 <= k < ticks.len() && is_usable(#[trigger] ticks[k]) implies
            all.contains(to_bar(ticks[k])) by {
            if k < ticks.len() - 1 {
                assert(ticks.drop_last()[k] == ticks[k]);
                let i = choose|i: int| 0 <= i < before.len() && before[i] == to_bar(ticks[k]);
                assert(all[i] == before[i]);
            } else {
                assert(all[before.len() as int] == to_bar(ticks[k]));
            }
        }
    }
}

/// What `map_aggs` hands out is ascending, sound, never more than asked for, and recent: a usable
/// bar whose time is not among those handed out is older than all of them, and only left out when
/// as many as asked for are there.
pub proof fn law_most_recent_bars_are_kept(ticks: Seq<AggBar>, series: Seq<Bar>, lookback: nat)
    requires
        is_series(usable_bars(ticks), series),
    ensures
        ({
            let kept = most_recent(series, lookback);
            let usable = usable_bars(ticks);
            &&& is_ascending(kept)
            &&& kept.len() <= lookback
            &&& forall|i: int| 0 <= i < kept.len() ==> is_sound(#[trigger] kept[i])
            &&& forall|k: int, i: int|
                #![trigger usable[k], kept[i]]
                0 <= k < usable.len() && 0 <= i < kept.len() && !holds_time(kept, usable[k].t)
                    ==> usable[k].t < kept[i].t
            &&& forall|k: int|
                0 <= k < usable.len() && !holds_time(kept, (#[trigger] usable[k]).t) ==> kept.len()
                    == lookback
        }),
{
    let kept = most_recent(series, lookback);
    let usable = usable_bars(ticks);
    let skipped = series.len() - kept.len();
    law_usable_bars_are_sound(ticks);
    assert forall|i: int| 0 <= i < kept.len() implies is_sound(#[trigger] kept[i]) && kept[i]
        == series[i + skipped] by {
        assert(is_first(usable, series[i + skipped]));
    }
    assert forall|k: int| 0 <= k < usable.len() && !holds_time(kept, (#[trigger] usable[k]).t)
        implies kept.len() == lookback && (forall|i: int|
        0 <= i < kept.len() ==> usable[k].t < (#[trigger] kept[i]).t) by {
        assert(holds_time(series, usable[k].t));
        let n = choose|n: int| 0 <= n < series.len() && (#[trigger] series[n]).t == usable[k].t;
        if n >= skipped {
            assert(kept[n - skipped] == series[n]);
        }
        assert forall|i: int| 0 <= i < kept.len() implies usable[k].t < (#[trigger] kept[i]).t by {
            assert(kept[i] == series[i + skipped]);
        }
    }
}

// --- Laws from ticks to bars ---

/// A tick is usable by the bits of its doubles: each price above zero and below infinity, the high
/// not below the low, and the volume zero of either sign or above, below infinity.
pub proof fn law_usable_by_the_bits(b: AggBar)
    ensures
        is_usable(b) <==> {
            &&& 0 < b.o.bits < 0x7ff0_0000_0000_0000
            &&& 0 < b.h.bits < 0x7ff0_0000_0000_0000
            &&& 0 < b.l.bits < 0x7ff0_0000_0000_0000
            &&& 0 < b.c.bits < 0x7ff0_0000_0000_0000
            &&& b.h.bits >= b.l.bits
            &&& b.v.bits < 0x7ff0_0000_0000_0000 || b.v.bits == 0x8000_0000_0000_0000
        },
{
    let zero = Double { bits: 0 };
    law_order_is_that_of_the_bits(b.o, zero);
    law_order_is_that_of_the_bits(b.h, zero);
    law_order_is_that_of_the_bits(b.l, zero);
    law_order_is_that_of_the_bits(b.c, zero);
    law_order_is_that_of_the_bits(b.h, b.l);
    law_order_is_that_of_the_bits(b.v, zero);
    assert(zero.value() == 0);
}

/// The bar of a tick has its prices and its volume, and the whole second that its time falls in,
/// counted toward zero.
pub proof fn law_bar_has_the_second_of_its_tick(b: AggBar)
    ensures
        to_bar(b).open == b.o,
        to_bar(b).high == b.h,
        to_bar(b).low == b.l,
        to_bar(b).close == b.c,
        to_bar(b).volume == b.v,
        b.t >= 0 ==> to_bar(b).t * 1000 <= b.t < to_bar(b).t * 1000 + 1000,
        b.t < 0 ==> to_bar(b).t * 1000 - 1000 < b.t <= to_bar(b).t * 1000,
{
    law_quotient_is_toward_zero(b.t as int, 1000);
}

/// The bar that is first of its time comes from a usable tick, and no usable tick before that one
/// has a bar of the same time.
proof fn lemma_first_tick(ticks: Seq<AggBar>, bar: Bar) -> (k: int)
    requires
        is_first(usable_bars(ticks), bar),
    ensures
        0 <= k < ticks.len(),
        is_usable(ticks[k]),
        to_bar(ticks[k]) == bar,
        forall|j: int| 0 <= j < k && is_usable(#[trigger] ticks[j]) ==> to_bar(ticks[j]).t != bar.t,
    decreases ticks.len(),
{
    let all = usable_bars(ticks);
    let rest = ticks.drop_last();
    let before = usable_bars(rest);
    let at = choose|k: int|
        0 <= k < all.len() && #[trigger] all[k] == bar && !holds_time(all.take(k), bar.t);
    if at < before.len() {
        assert(before[at] == bar);
        assert(before.take(at) =~= all.take(at));
        let k = lemma_first_tick(rest, bar);
        assert(rest[k] == ticks[k]);
        assert forall|j: int| 0 <= j < k && is_usable(#[trigger] ticks[j]) implies to_bar(
            ticks[j],
        ).t != bar.t by {
            assert(rest[j] == ticks[j]);
        }
        k
    } else {
        let k = ticks.len() - 1;
        assert(all.take(at) =~= before);
        law_usable_bars_are_sound(rest);
        assert forall|j: int| 0 <= j < k && is_usable(#[trigger] ticks[j]) implies to_bar(
            ticks[j],
        ).t != bar.t by {
            assert(rest[j] == ticks[j]);
            let i = choose|i: int| 0 <= i < before.len() && before[i] == to_bar(rest[j]);
            assert(before[i].t == to_bar(ticks[j]).t);
        }
        k
    }
}

/// Every bar handed out is a tick that was sent: one with sound prices, a high not below its low
/// and a sound volume, all of them unchanged, and the second that its milliseconds fall in.
pub proof fn law_every_bar_is_a_tick(
    ticks: Seq<AggBar>,
    lookback: nat,
    symbol: Seq<char>,
    bars: ProviderResult<Vec<Bar>>,
    i: int,
)
    requires
        is_mapped(ticks, lookback, symbol, bars),
        bars is Ok,
        0 <= i < bars->Ok_0@.len(),
    ensures
        exists|k: int|
            {
                let bar = bars->Ok_0@[i];
                let tick = #[trigger] ticks[k];
                &&& 0 <= k < ticks.len()
                &&& bar.open == tick.o
                &&& bar.high == tick.h
                &&& bar.low == tick.l
                &&& bar.close == tick.c
                &&& bar.volume == tick.v
                &&& tick.t >= 0 ==> bar.t * 1000 <= tick.t < bar.t * 1000 + 1000
                &&& tick.t < 0 ==> bar.t * 1000 - 1000 < tick.t <= bar.t * 1000
                &&& 0 < tick.o.bits < 0x7ff0_0000_0000_0000
                &&& 0 < tick.h.bits < 0x7ff0_0000_0000_0000
                &&& 0 < tick.l.bits < 0x7ff0_0000_0000_0000
                &&& 0 < tick.c.bits < 0x7ff0_0000_0000_0000
                &&& tick.h.bits >= tick.l.bits
                &&& tick.v.bits < 0x7ff0_0000_0000_0000 || tick.v.bits == 0x8000_0000_0000_0000
            },
{
    let k = lemma_tick_of_a_bar(ticks, lookback, symbol, bars, i);
    law_usable_by_the_bits(ticks[k]);
    law_bar_has_the_second_of_its_tick(ticks[k]);
}

proof fn lemma_tick_of_a_bar(
    ticks: Seq<AggBar>,
    lookback: nat,
    symbol: Seq<char>,
    bars: ProviderResult<Vec<Bar>>,
    i: int,
) -> (k: int)
    requires
        is_mapped(ticks, lookback, symbol, bars),
        bars is Ok,
        0 <= i < bars->Ok_0@.len(),
    ensures
        0 <= k < ticks.len(),
        is_usable(ticks[k]),
        to_bar(ticks[k]) == bars->Ok_0@[i],
        forall|j: int|
            0 <= j < k && is_usable(#[trigger] ticks[j]) ==> to_bar(ticks[j]).t
                != bars->Ok_0@[i].t,
{
    let v = bars->Ok_0@;
    let series = choose|series: Seq<Bar>| #[trigger]
        is_series(usable_bars(ticks), series) && v == most_recent(series, lookback);
    let at = i + series.len() - v.len();
    assert(v[i] == series[at]);
    assert(is_first(usable_bars(ticks), series[at]));
    lemma_first_tick(ticks, v[i])
}

/// Of ticks that fall in one second the first usable one gives the bar: no usable tick before it,
/// by the bits of its doubles, falls in that second.
pub proof fn law_first_tick_of_a_second_is_kept(
    ticks: Seq<AggBar>,
    lookback: nat,
    symbol: Seq<char>,
    bars: ProviderResult<Vec<Bar>>,
    i: int,
)
    requires
        is_mapped(ticks, lookback, symbol, bars),
        bars is Ok,
        0 <= i < bars->Ok_0@.len(),
    ensures
        exists|k: int|
            {
                let bar = bars->Ok_0@[i];
                &&& 0 <= k < ticks.len()
                &&& is_usable(#[trigger] ticks[k])
                &&& to_bar(ticks[k]) == bar
                &&& forall|j: int|
                    0 <= j < k && is_usable(#[trigger] ticks[j]) ==> !(if ticks[j].t >= 0 {
                        bar.t * 1000 <= ticks[j].t < bar.t * 1000 + 1000
                    } else {
                        bar.t * 1000 - 1000 < ticks[j].t <= bar.t * 1000
                    })
            },
{
    let bar = bars->Ok_0@[i];
    let k = lemma_tick_of_a_bar(ticks, lookback, symbol, bars, i);
    assert forall|j: int| 0 <= j < k && is_usable(#[trigger] ticks[j]) implies !(if ticks[j].t
        >= 0 {
        bar.t * 1000 <= ticks[j].t < bar.t * 1000 + 1000
    } else {
        bar.t * 1000 - 1000 < ticks[j].t <= bar.t * 1000
    }) by {
        law_bar_has_the_second_of_its_tick(ticks[j]);
    }
}

/// The bars are in order of time without a repeat, and at most as many as asked for. A usable tick
/// whose second is not among them is older than all of them, and left out only because as many as
/// asked for are there.
pub proof fn law_bars_are_the_latest_in_order(
    ticks: Seq<AggBar>,
    lookback: nat,
    symbol: Seq<char>,
    bars: ProviderResult<Vec<Bar>>,
)
    requires
        is_mapped(ticks, lookback, symbol, bars),
        bars is Ok,
    ensures
        ({
            let v = bars->Ok_0@;
            &&& v.len() <= lookback
            &&& forall|i: int, j: int|
                #![trigger v[i], v[j]]
                0 <= i < j < v.len() ==> v[i].t < v[j].t
            &&& forall|k: int|
                0 <= k < ticks.len() && is_usable(#[trigger] ticks[k]) ==> {
                    ||| exists|i: int| 0 <= i < v.len() && (#[trigger] v[i]).t == to_bar(ticks[k]).t
                    ||| v.len() == lookback && forall|i: int|
                        0 <= i < v.len() ==> to_bar(ticks[k]).t < (#[trigger] v[i]).t
                }
        }),
{
    let v = bars->Ok_0@;
    let usable = usable_bars(ticks);
    let series = choose|series: Seq<Bar>| #[trigger]
        is_series(usable, series) && v == most_recent(series, lookback);
    law_most_recent_bars_are_kept(ticks, series, lookback);
    law_usable_bars_are_sound(ticks);
    assert forall|k: int| 0 <= k < ticks.len() && is_usable(#[trigger] ticks[k]) implies {
        ||| exists|i: int| 0 <= i < v.len() && (#[trigger] v[i]).t == to_bar(ticks[k]).t
        ||| v.len() == lookback && forall|i: int|
            0 <= i < v.len() ==> to_bar(ticks[k]).t < (#[trigger] v[i]).t
    } by {
        assert(usable.contains(to_bar(ticks[k])));
        let n = choose|n: int| 0 <= n < usable.len() && usable[n] == to_bar(ticks[k]);
        if !holds_time(v, usable[n].t) {
            assert forall|i: int| 0 <= i < v.len() implies usable[n].t < (#[trigger] v[i]).t by {}
        }
    }
}

/// There are bars exactly when some tick is usable, and the failure otherwise names the whole
/// symbol.
pub proof fn law_no_bars_without_a_usable_tick(
    ticks: Seq<AggBar>,
    lookback: nat,
    symbol: Seq<char>,
    bars: ProviderResult<Vec<Bar>>,
)
    requires
        is_mapped(ticks, lookback, symbol, bars),
    ensures
        bars is Ok <==> exists|k: int| 0 <= k < ticks.len() && is_usable(#[trigger] ticks[k]),
        bars is Err ==> (bars->Err_0 matches ProviderError::NotFound(text) && text@
            == "no valid daily bars for "@ + symbol),
{
    law_usable_bars_are_sound(ticks);
    let usable = usable_bars(ticks);
    if usable.len() > 0 {
        assert(!holds_time(usable.take(0), usable[0].t));
        assert(is_first(usable, usable[0]));
        let k = lemma_first_tick(ticks, usable[0]);
        assert(is_usable(ticks[k]));
    }
    if exists|k: int| 0 <= k < ticks.len() && is_usable(#[trigger] ticks[k]) {
        let k = choose|k: int| 0 <= k < ticks.len() && is_usable(#[trigger] ticks[k]);
        assert(usable.contains(to_bar(ticks[k])));
    }
}

} // verus!
