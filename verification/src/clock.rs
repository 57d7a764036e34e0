//! The system clock, and how long a timestamp stays fresh.

use vstd::prelude::*;

verus! {

/// Nanoseconds in a second.
pub const NANOS_PER_SEC: u32 = 1_000_000_000;

/// A time on or after the Unix epoch.
#[derive(Clone, Copy, Debug, PartialEq, Eq, Structural)]
pub struct ClockReading {
    /// Whole seconds since the epoch.
    pub secs: u64,
    /// Nanoseconds since the last whole second.
    pub nanos: u32,
}

impl ClockReading {
    /// Nanoseconds since the epoch.
    pub open spec fn total_nanos(self) -> int {
        self.secs * NANOS_PER_SEC + self.nanos
    }

    /// Whether the nanoseconds are less than a second.
    pub open spec fn wf(self) -> bool {
        self.nanos < NANOS_PER_SEC
    }
}

/// Whether a value is one that the clock can show. `None` stands for a time before the epoch.
pub open spec fn is_reading(now: Option<ClockReading>) -> bool {
    now matches Some(t) ==> t.wf()
}

/// The whole seconds of a reading; a clock before the epoch counts as standing at it.
pub open spec fn whole_secs(now: Option<ClockReading>) -> u64 {
    match now {
        Some(t) => t.secs,
        None => 0,
    }
}

/// Whether a timestamp is fresh at a reading of the clock: it does not lie in the future, and it is
/// no more than `max_lifetime` seconds old.
pub open spec fn fresh(now: Option<ClockReading>, epoch_timestamp: u64, max_lifetime: u64) -> bool {
    match now {
        Some(t) => {
            let age = t.total_nanos() - epoch_timestamp * NANOS_PER_SEC;
            0 <= age <= max_lifetime * NANOS_PER_SEC
        },
        None => false,
    }
}

/// `SystemTime::elapsed` at the Unix epoch: the time that has passed since then. The error case is
/// a clock that stands before the epoch. What the clock shows is not stated, only that the part
/// below a second is below a second.
#[verifier::external_body]
fn read_clock() -> (r: Option<ClockReading>)
    ensures
        is_reading(r),
{
    let since = std::time::UNIX_EPOCH.elapsed().ok()?;
    Some(ClockReading { secs: since.as_secs(), nanos: since.subsec_nanos() })
}

/// What the clock shows now.
pub fn now() -> (r: Option<ClockReading>)
    ensures
        is_reading(r),
{
    read_clock()
}

/// The whole seconds of a reading.
pub fn epoch_secs(now: Option<ClockReading>) -> (r: u64)
    ensures
        r == whole_secs(now),
{
    match now {
        Some(t) => t.secs,
        None => 0,
    }
}

/// The current time, in whole seconds since the Unix epoch.
pub fn now_secs() -> (r: u64)
    ensures
        exists|now: Option<ClockReading>| #[trigger] is_reading(now) && r == whole_secs(now),
{
    let now = read_clock();
    epoch_secs(now)
}

/// Whether a timestamp is fresh at the given reading of the clock.
pub fn is_fresh_at(now: Option<ClockReading>, epoch_timestamp: u64, max_lifetime: u64) -> (r: bool)
    ensures
        r == fresh(now, epoch_timestamp, max_lifetime),
{
    match now {
        Some(t) => {
            let age: i128 = (t.secs as i128 - epoch_timestamp as i128) * 1_000_000_000 + t.nanos as i128;
            0 <= age && age <= max_lifetime as i128 * 1_000_000_000
        },
        None => false,
    }
}

/// Whether a timestamp, in seconds since the epoch, is fresh now: neither from the future nor more
/// than `max_lifetime` seconds old.
pub fn is_fresh(epoch_timestamp: u64, max_lifetime: u64) -> (r: bool)
    ensures
        exists|now: Option<ClockReading>| #[trigger]
            is_reading(now) && r == fresh(now, epoch_timestamp, max_lifetime),
{
    let now = read_clock();
    is_fresh_at(now, epoch_timestamp, max_lifetime)
}

/// A timestamp from the future is never fresh, whatever the lifetime.
pub proof fn law_future_is_not_fresh(now: ClockReading, epoch_timestamp: u64, max_lifetime: u64)
    requires
        now.wf(),
        epoch_timestamp > now.secs,
    ensures
        !fresh(Some(now), epoch_timestamp, max_lifetime),
{
}

/// A timestamp of the current second is fresh, as long as the lifetime is not zero.
pub proof fn law_current_second_is_fresh(now: ClockReading, max_lifetime: u64)
    requires
        now.wf(),
        max_lifetime > 0,
    ensures
        fresh(Some(now), whole_secs(Some(now)), max_lifetime),
{
}

/// Once a timestamp has expired, it stays expired while the clock moves on.
pub proof fn law_expired_stays_expired(
    earlier: ClockReading,
    later: ClockReading,
    epoch_timestamp: u64,
    max_lifetime: u64,
)
    requires
        earlier.total_nanos() <= later.total_nanos(),
        epoch_timestamp * NANOS_PER_SEC <= earlier.total_nanos(),
        !fresh(Some(earlier), epoch_timestamp, max_lifetime),
    ensures
        !fresh(Some(later), epoch_timestamp, max_lifetime),
{
}

/// A longer lifetime accepts whatever a shorter one accepts.
pub proof fn law_longer_lifetime_accepts_more(
    now: Option<ClockReading>,
    epoch_timestamp: u64,
    short: u64,
    long: u64,
)
    requires
        short <= long,
        fresh(now, epoch_timestamp, short),
    ensures
        fresh(now, epoch_timestamp, long),
{
}

/// A timestamp is fresh exactly from its own second on, and for as many seconds as it lives:
/// through the first moment of the last of them, and no longer.
pub proof fn law_fresh_for_a_lifetime(now: ClockReading, epoch_timestamp: u64, max_lifetime: u64)
    requires
        now.nanos < 1_000_000_000,
    ensures
        fresh(Some(now), epoch_timestamp, max_lifetime) <==> {
            &&& now.secs >= epoch_timestamp
            &&& {
                ||| now.secs - epoch_timestamp < max_lifetime
                ||| now.secs - epoch_timestamp == max_lifetime && now.nanos == 0
            }
        },
        !fresh(None, epoch_timestamp, max_lifetime),
{
}

/// Asking whether a timestamp is fresh at a reading, and for the seconds of a reading, answers just
/// that; and without a reading at hand the clock is asked.
pub proof fn law_clock_answers(
    now: Option<ClockReading>,
    epoch_timestamp: u64,
    max_lifetime: u64,
    at: bool,
    secs: u64,
    shown: Option<ClockReading>,
    fresh_now: bool,
    secs_now: u64,
)
    requires
        call_ensures(is_fresh_at, (now, epoch_timestamp, max_lifetime), at),
        call_ensures(epoch_secs, (now,), secs),
        call_ensures(self::now, (), shown),
        call_ensures(is_fresh, (epoch_timestamp, max_lifetime), fresh_now),
        call_ensures(now_secs, (), secs_now),
    ensures
        at == fresh(now, epoch_timestamp, max_lifetime),
        now matches Some(t) ==> secs == t.secs,
        now is None ==> secs == 0,
        shown matches Some(t) ==> t.nanos < 1_000_000_000,
        exists|t: Option<ClockReading>| #[trigger]
            is_reading(t) && fresh_now == fresh(t, epoch_timestamp, max_lifetime),
        exists|t: Option<ClockReading>| #[trigger]
            is_reading(t) && secs_now == (match t {
                Some(t) => t.secs,
                None => 0,
            }),
{
    let t = choose|t: Option<ClockReading>| #[trigger]
        is_reading(t) && secs_now == whole_secs(t);
    assert(is_reading(t));
}

/// The clock can show any second, with any part of a second behind it, or a time before the epoch.
pub proof fn law_clock_can_show_any_time(t: ClockReading)
    ensures
        is_reading(Some(t)) <==> t.nanos < 1_000_000_000,
        is_reading(None),
{
}

} // verus!
