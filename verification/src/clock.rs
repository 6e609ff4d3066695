//! Instants as plain values, and the waiting times of the daily jobs.
use vstd::prelude::*;

verus! {

/// An instant: whole seconds since the Unix epoch and the nanoseconds past them.
#[derive(Clone, Copy, Debug, PartialEq, Eq, Structural)]
pub struct Timestamp {
    pub secs: i64,
    pub nanos: u32,
}

/// Seconds in a day.
pub const SECS_PER_DAY: i64 = 86400;

/// Nanoseconds in a second.
pub const NANOS_PER_SEC: i64 = 1_000_000_000;

impl Timestamp {
    /// An instant as the clock and the database give them: nanoseconds below
    /// one second, and seconds within ±10^13, a range that holds every instant
    /// of chrono's `DateTime<Utc>`.
    pub open spec fn wf(self) -> bool {
        &&& self.nanos < 1_000_000_000
        &&& -10_000_000_000_000 <= self.secs <= 10_000_000_000_000
    }

    /// The instant in nanoseconds since the Unix epoch.
    pub open spec fn total_nanos(self) -> int {
        self.secs * 1_000_000_000 + self.nanos
    }

    /// The second of the (UTC) day at which the instant falls, 0 to 86399.
    pub open spec fn second_of_day(self) -> int {
        (self.secs as int) % 86400
    }
}

/// The second of the UTC day at which `now` falls.
pub fn second_of_day(now: Timestamp) -> (r: i64)
    requires
        now.wf(),
    ensures
        r == now.second_of_day(),
        0 <= r < 86400,
{
    let shifted: i64 = now.secs + 200_000_000 * 86400;
    let r = shifted % 86400;
    assert(r == now.secs % 86400) by (nonlinear_arith)
        requires
            shifted == now.secs + 200_000_000 * 86400,
            shifted >= 0,
            r == shifted % 86400,
    ;
    r
}

/// The wait, in whole seconds, from `now` until the next 03:00 UTC at which
/// the cold-storage job runs: the same day where `now` is before 03:00, else
/// the next day. The nanoseconds of `now` carry over to the run time, so the
/// wait has none.
pub fn cold_storage_delay(now: Timestamp) -> (r: u64)
    requires
        now.wf(),
    ensures
        r == if now.second_of_day() < 3 * 3600 {
            3 * 3600 - now.second_of_day()
        } else {
            86400 + 3 * 3600 - now.second_of_day()
        },
{
    let sod = second_of_day(now);
    if sod < 3 * 3600 {
        (3 * 3600 - sod) as u64
    } else {
        (86400 + 3 * 3600 - sod) as u64
    }
}

/// The cold-storage job always waits for a positive time of at most one day,
/// and the run falls at 03:00 UTC.
pub proof fn lemma_cold_storage_runs_at_three(now: Timestamp, delay: int)
    requires
        now.wf(),
        delay == if now.second_of_day() < 3 * 3600 {
            3 * 3600 - now.second_of_day()
        } else {
            86400 + 3 * 3600 - now.second_of_day()
        },
    ensures
        0 < delay <= 86400,
        (now.secs + delay) % 86400 == 3 * 3600,
{
    let s = now.secs;
    let sod = (s as int) % 86400;
    assert((s + delay) % 86400 == 3 * 3600) by (nonlinear_arith)
        requires
            sod == s % 86400,
            0 <= sod < 86400,
            delay == if sod < 10800 {
                10800 - sod
            } else {
                97200 - sod
            },
    ;
}

/// The wait from `now` until the next UTC midnight at which the Brier
/// snapshot job starts, as whole seconds and nanoseconds.
pub fn brier_initial_delay(now: Timestamp) -> (r: (u64, u32))
    requires
        now.wf(),
    ensures
        r.1 < 1_000_000_000,
        r.0 * 1_000_000_000 + r.1 == (86400 - now.second_of_day()) * 1_000_000_000 - now.nanos,
{
    let sod = second_of_day(now);
    if now.nanos == 0 {
        ((86400 - sod) as u64, 0)
    } else {
        ((86400 - sod - 1) as u64, 1_000_000_000 - now.nanos)
    }
}

/// The Brier job's first run falls on the first UTC midnight strictly after
/// `now`, less than a day away.
pub proof fn lemma_brier_starts_at_midnight(now: Timestamp, delay_secs: int, delay_nanos: int)
    requires
        now.wf(),
        0 <= delay_nanos < 1_000_000_000,
        delay_secs * 1_000_000_000 + delay_nanos == (86400 - now.second_of_day())
            * 1_000_000_000 - now.nanos,
    ensures
        ({
            let end = now.total_nanos() + delay_secs * 1_000_000_000 + delay_nanos;
            &&& end % 86_400_000_000_000int == 0
            &&& now.total_nanos() < end <= now.total_nanos() + 86400 * 1_000_000_000
        }),
{
    let s = now.secs;
    let sod = (s as int) % 86400;
    let n = now.nanos as int;
    let end = now.total_nanos() + delay_secs * 1_000_000_000 + delay_nanos;
    assert(end == (s - sod + 86400) * 1_000_000_000);
    assert((s - sod) % 86400 == 0) by (nonlinear_arith)
        requires
            sod == s % 86400,
    ;
    assert(end % 86_400_000_000_000int == 0) by (nonlinear_arith)
        requires
            end == (s - sod + 86400) * 1_000_000_000,
            (s - sod) % 86400 == 0,
    ;
}

} // verus!
