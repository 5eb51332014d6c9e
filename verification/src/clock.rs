//! The system clock, read in seconds and milliseconds since 1970-01-01.
use crate::duration::{Duration, NANOS_PER_MILLI, NANOS_PER_SEC};
use vstd::prelude::*;

verus! {

/// `std::time::SystemTime`, a reading of the system clock.
#[verifier::external_type_specification]
#[verifier::external_body]
pub struct ExSystemTime(std::time::SystemTime);

/// `std::time::SystemTime::now`: the present time, of which nothing is known beforehand.
pub assume_specification[ std::time::SystemTime::now ]() -> std::time::SystemTime
;

/// The seconds and further nanoseconds from the Unix epoch to a reading of the clock; nothing when
/// the reading is earlier.
pub uninterp spec fn epoch_span(reading: std::time::SystemTime) -> Option<(u64, u32)>;

/// `std::time::SystemTime::duration_since` the Unix epoch: the seconds and nanoseconds between
/// them, or nothing when the reading is earlier. The nanoseconds stay below one second. The reading
/// alone fixes the span; how long it is depends on the clock and is not claimed.
#[verifier::external_body]
fn since_epoch(reading: &std::time::SystemTime) -> (span: Option<(u64, u32)>)
    ensures
        span == epoch_span(*reading),
        span matches Some((_, nanos)) ==> nanos < NANOS_PER_SEC,
{
    let span = reading.duration_since(std::time::UNIX_EPOCH).ok()?;
    Some((span.as_secs(), span.subsec_nanos()))
}

/// The span from the Unix epoch to a reading of the clock.
pub open spec fn span_at(reading: std::time::SystemTime) -> Option<Duration> {
    match epoch_span(reading) {
        Some((secs, nanos)) => Some(Duration::of_nanos((secs * NANOS_PER_SEC + nanos) as nat)),
        None => None,
    }
}

/// Read the clock: the span from the epoch to some reading of it.
fn read_clock() -> (span: Option<Duration>)
    ensures
        exists|reading: std::time::SystemTime| span == #[trigger] span_at(reading),
{
    let reading: std::time::SystemTime = std::time::SystemTime::now();
    let span: Option<Duration> = match since_epoch(&reading) {
        Some((secs, nanos)) => Some(Duration::new(secs, nanos)),
        None => None,
    };
    assert(span == span_at(reading));
    span
}

/// The whole seconds of a span since the epoch, 0 when there is none.
pub open spec fn secs_since_epoch(span: Option<Duration>) -> i64 {
    match span {
        Some(d) => ((d.as_nanos() / NANOS_PER_SEC as nat) as u64) as i64,
        None => 0,
    }
}

/// The whole milliseconds of a span since the epoch, 0 when there is none.
pub open spec fn millis_since_epoch(span: Option<Duration>) -> i64 {
    match span {
        Some(d) => ((d.as_nanos() / NANOS_PER_MILLI as nat) as u128) as i64,
        None => 0,
    }
}

/// Unix time in seconds of a span since the epoch.
pub fn to_secs(span: Option<Duration>) -> (secs: i64)
    ensures
        secs == secs_since_epoch(span),
{
    match span {
        Some(d) => {
            let secs: u64 = d.as_secs();
            #[verifier::truncate]
            (secs as i64)
        },
        None => 0,
    }
}

/// Unix time in milliseconds of a span since the epoch.
pub fn to_millis(span: Option<Duration>) -> (millis: i64)
    ensures
        millis == millis_since_epoch(span),
{
    match span {
        Some(d) => {
            let millis: u128 = d.as_millis();
            #[verifier::truncate]
            (millis as i64)
        },
        None => 0,
    }
}

/// Current Unix time in seconds, 0 before the epoch.
pub fn now_secs() -> (secs: i64)
    ensures
        exists|reading: std::time::SystemTime|
            secs == secs_since_epoch(#[trigger] span_at(reading)),
{
    to_secs(read_clock())
}

/// Current Unix time in milliseconds, 0 before the epoch.
pub fn now_millis() -> (millis: i64)
    ensures
        exists|reading: std::time::SystemTime|
            millis == millis_since_epoch(#[trigger] span_at(reading)),
{
    to_millis(read_clock())
}

/// The seconds are the whole seconds of the span and the milliseconds its whole milliseconds, as
/// far as 64 bits hold them; without a span both are 0.
pub proof fn law_unix_time_is_whole_units(span: Option<Duration>)
    ensures
        match span {
            Some(d) => {
                let (secs, millis) = (secs_since_epoch(span), millis_since_epoch(span));
                let nanos = d.as_nanos();
                &&& nanos < 0x8000_0000_0000_0000 * 1_000_000_000 ==> secs * 1_000_000_000 <= nanos
                    < secs * 1_000_000_000 + 1_000_000_000
                &&& nanos < 0x8000_0000_0000_0000 * 1_000_000 ==> millis * 1_000_000 <= nanos
                    < millis * 1_000_000 + 1_000_000
            },
            None => secs_since_epoch(span) == 0 && millis_since_epoch(span) == 0,
        },
{
}

/// The span at a reading has the seconds and nanoseconds between the epoch and the reading.
pub proof fn law_span_is_that_of_the_reading(reading: std::time::SystemTime)
    ensures
        match epoch_span(reading) {
            Some((secs, nanos)) => {
                &&& span_at(reading) matches Some(d)
                &&& nanos < 1_000_000_000 ==> d.as_nanos() == secs * 1_000_000_000 + nanos
            },
            None => span_at(reading) is None,
        },
{
    if let Some((secs, nanos)) = epoch_span(reading) {
        if nanos < NANOS_PER_SEC {
            Duration::law_nanos_identify((secs * NANOS_PER_SEC + nanos) as nat);
        }
    }
}

/// A span whose seconds or milliseconds are more than 64 bits hold wraps around: the result differs
/// from the whole units by a multiple of `2^64`.
pub proof fn law_unix_time_wraps_around(d: Duration)
    requires
        d.as_nanos() < 0x1_0000_0000_0000_0000 * 1_000_000_000,
    ensures
        (d.as_nanos() / 1_000_000_000 - secs_since_epoch(Some(d))) % 0x1_0000_0000_0000_0000 == 0,
        (d.as_nanos() / 1_000_000 - millis_since_epoch(Some(d))) % 0x1_0000_0000_0000_0000 == 0,
{
    let secs = (d.as_nanos() / 1_000_000_000) as u64;
    let millis = (d.as_nanos() / 1_000_000) as u128;
    assert(secs < 0x8000_0000_0000_0000 ==> secs as i64 == secs) by (bit_vector);
    assert(secs >= 0x8000_0000_0000_0000 ==> secs as i64 == secs - 0x1_0000_0000_0000_0000)
        by (bit_vector);
    let low = millis % 0x1_0000_0000_0000_0000;
    assert(low < 0x8000_0000_0000_0000 ==> millis as i64 == low) by (bit_vector)
        requires
            low == millis % 0x1_0000_0000_0000_0000,
    ;
    assert(low >= 0x8000_0000_0000_0000 ==> millis as i64 == low - 0x1_0000_0000_0000_0000)
        by (bit_vector)
        requires
            low == millis % 0x1_0000_0000_0000_0000,
    ;
}

} // verus!
