//! The wall clock, read once per call and handed to verified arithmetic.

use vstd::prelude::*;

verus! {

/// A reading of the wall clock as the time elapsed since the Unix epoch,
/// split into whole seconds and the nanoseconds past the last second.
pub struct EpochTime {
    pub secs: u64,
    pub subsec_nanos: u32,
}

/// The wall clock's time, as std's opaque `SystemTime`.
#[verifier::external_type_specification]
#[verifier::external_body]
pub struct ExSystemTime(std::time::SystemTime);

/// `SystemTime::now`: the current time of the wall clock. Nothing is
/// claimed of it: it depends on the clock.
#[verifier::external_body]
fn system_now() -> (r: std::time::SystemTime) {
    std::time::SystemTime::now()
}

/// `SystemTime::duration_since(UNIX_EPOCH)`, its `Duration` taken apart by
/// `as_secs` and `subsec_nanos`: `None` when `t` lies before the epoch. Of
/// the result only what `Duration::subsec_nanos` documents is stated: the
/// nanoseconds are below one billion.
#[verifier::external_body]
fn since_epoch(t: &std::time::SystemTime) -> (r: Option<EpochTime>)
    ensures
        r matches Some(x) ==> x.subsec_nanos < 1_000_000_000,
{
    match t.duration_since(std::time::UNIX_EPOCH) {
        Ok(d) => Some(EpochTime { secs: d.as_secs(), subsec_nanos: d.subsec_nanos() }),
        Err(_) => None,
    }
}

/// A reading of the wall clock as the time since the epoch (`None` before
/// it).
fn read_epoch_clock() -> (r: Option<EpochTime>)
    ensures
        r matches Some(t) ==> t.subsec_nanos < 1_000_000_000,
{
    let now = system_now();
    since_epoch(&now)
}

/// The clock reading in whole milliseconds, truncated to 64 bits as a
/// `u128 as u64` cast does; 0 when the clock reads before the epoch.
pub open spec fn millis_of(t: Option<EpochTime>) -> nat {
    match t {
        Some(t) => ((t.secs * 1000 + t.subsec_nanos / 1_000_000) % 0x1_0000_0000_0000_0000) as nat,
        None => 0,
    }
}

/// The milliseconds since the epoch for a clock reading (see [`millis_of`]).
pub fn millis_from(t: Option<EpochTime>) -> (r: u64)
    ensures
        r == millis_of(t),
{
    match t {
        Some(t) => {
            let ms: u128 = t.secs as u128 * 1000 + (t.subsec_nanos / 1_000_000) as u128;
            let r = (ms % 0x1_0000_0000_0000_0000u128) as u64;
            r
        },
        None => 0,
    }
}

/// The current wall-clock time in milliseconds since the Unix epoch (0 when
/// the clock reads before the epoch). Each call reads the clock afresh; a
/// [`MonotonicClock`] keeps its last reading so that its readings never go
/// back.
pub fn now() -> (r: u64)
    ensures
        exists|t: Option<EpochTime>| r == millis_of(t),
{
    let t = read_epoch_clock();
    let r = millis_from(t);
    r
}

/// The nanoseconds past the last whole second of a clock reading, 0 when
/// the clock reads before the epoch.
pub open spec fn subsec_of(t: Option<EpochTime>) -> nat {
    match t {
        Some(t) => t.subsec_nanos as nat,
        None => 0,
    }
}

/// The nanoseconds past the last whole second of a clock reading (see
/// [`subsec_of`]): a cheap, varying number.
pub fn subsec_nanos_of(t: &Option<EpochTime>) -> (r: u64)
    ensures
        r == subsec_of(*t),
{
    match t {
        Some(t) => t.subsec_nanos as u64,
        None => 0,
    }
}

/// The nanoseconds past the last whole second of the current time (0 when
/// the clock reads before the epoch); below one billion.
pub fn subsec_nanos_now() -> (r: u64)
    ensures
        exists|t: Option<EpochTime>| r == subsec_of(t) && (t matches Some(x) ==> x.subsec_nanos < 1_000_000_000),
        r < 1_000_000_000,
{
    let t = read_epoch_clock();
    let r = subsec_nanos_of(&t);
    assert(r == subsec_of(t) && (t matches Some(x) ==> x.subsec_nanos < 1_000_000_000));
    r
}

/// A millisecond clock that never goes backwards: each reading is the wall
/// clock's, or the previous reading when the wall clock stepped back.
#[derive(Debug)]
pub struct MonotonicClock {
    /// The last reading given (0 before the first).
    pub last: u64,
}

impl MonotonicClock {
    /// A clock that has given no reading yet.
    pub fn new() -> (r: Self)
        ensures
            r.last == 0,
    {
        MonotonicClock { last: 0 }
    }

    /// The current time in milliseconds since the Unix epoch, never less
    /// than the previous reading of this clock.
    pub fn now(&mut self) -> (r: u64)
        ensures
            r >= old(self).last,
            final(self).last == r,
            exists|t: Option<EpochTime>|
                r == if millis_of(t) > old(self).last {
                    millis_of(t)
                } else {
                    old(self).last as nat
                },
    {
        let t = read_epoch_clock();
        let m = millis_from(t);
        let r = if m > self.last {
            m
        } else {
            self.last
        };
        assert(r == if millis_of(t) > old(self).last {
            millis_of(t)
        } else {
            old(self).last as nat
        });
        self.last = r;
        r
    }
}

} // verus!
