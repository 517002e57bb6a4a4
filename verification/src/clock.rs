//! Reading the clocks.
use std::time::{Instant, SystemTime, SystemTimeError};
use vstd::prelude::*;

verus! {

/// A reading of the monotonic clock.
#[verifier::external_type_specification]
#[verifier::external_body]
pub struct ExInstant(Instant);

/// A reading of the system clock.
#[verifier::external_type_specification]
#[verifier::external_body]
pub struct ExSystemTime(SystemTime);

/// Error of `SystemTime::duration_since`: the clock stands before the given time.
#[verifier::external_type_specification]
#[verifier::external_body]
pub struct ExSystemTimeError(SystemTimeError);

/// `Instant::now` reads the monotonic clock. Nothing is claimed of the reading.
pub assume_specification[ Instant::now ]() -> (now: Instant)
;

/// `SystemTime::now` reads the system clock. Nothing is claimed of the reading.
pub assume_specification[ SystemTime::now ]() -> (now: SystemTime)
;

/// Calls `SystemTime::duration_since` with the Unix epoch and hands the span out as whole
/// seconds and nanoseconds. Claimed of it: the nanoseconds make up less than a second. How
/// long the span is, and whether the clock stands before the epoch, is left open.
#[verifier::external_body]
fn since_epoch(now: SystemTime) -> (r: Result<(u64, u32), SystemTimeError>)
    ensures
        r matches Ok(span) ==> span.1 < 1_000_000_000,
{
    now.duration_since(SystemTime::UNIX_EPOCH).map(|d| (d.as_secs(), d.subsec_nanos()))
}

/// The low four bytes of a count of seconds, lowest byte first.
pub open spec fn ts_le(secs: u64) -> Seq<u8> {
    seq![
        (secs % 256) as u8,
        (secs / 256 % 256) as u8,
        (secs / 65536 % 256) as u8,
        (secs / 16777216 % 256) as u8,
    ]
}

/// The timestamp field for a count of seconds since the Unix epoch.
pub fn ts_bytes(secs: u64) -> (ts: [u8; 4])
    ensures
        ts@ == ts_le(secs),
{
    let ts: [u8; 4] = [
        (secs % 256) as u8,
        (secs / 256 % 256) as u8,
        (secs / 65536 % 256) as u8,
        (secs / 16777216 % 256) as u8,
    ];
    assert(ts@ =~= ts_le(secs));
    ts
}

/// The seconds of a span since the Unix epoch; a clock that stands before the epoch counts as the
/// epoch.
pub open spec fn span_secs(since: Option<(u64, u32)>) -> u64 {
    match since {
        Some((secs, nanos)) => secs,
        None => 0,
    }
}

/// The timestamp field for a span since the Unix epoch, in whole seconds and nanoseconds; `None`
/// where the clock stands before the epoch.
pub fn span_ts_bytes(since: Option<(u64, u32)>) -> (ts: [u8; 4])
    ensures
        ts@ == ts_le(span_secs(since)),
{
    match since {
        Some((secs, _)) => ts_bytes(secs),
        None => ts_bytes(0),
    }
}

/// The timestamp field for the current time.
pub fn current_ts_bytes() -> (ts: [u8; 4])
    ensures
        exists|since: Option<(u64, u32)>| ts@ == ts_le(#[trigger] span_secs(since)),
{
    match since_epoch(SystemTime::now()) {
        Ok(span) => span_ts_bytes(Some(span)),
        Err(_) => span_ts_bytes(None),
    }
}

// ---------------------------------------------------------------------------
// Laws
// ---------------------------------------------------------------------------

/// A timestamp field stands for the seconds of the span, modulo two to the thirty-second; the
/// nanoseconds do not matter, and a clock before the epoch counts as the epoch.
pub proof fn law_timestamp_value(since: Option<(u64, u32)>)
    ensures
        ({
            let ts = ts_le(span_secs(since));
            let value = ts[0] + 256 * ts[1] + 65536 * ts[2] + 16777216 * ts[3];
            &&& ts.len() == 4
            &&& since matches Some((secs, nanos)) ==> value == secs as int % 0x1_0000_0000
            &&& since is None ==> value == 0
        }),
{
}

} // verus!
