//! Time as plain numbers: nanoseconds since a clock was started, and
//! nanoseconds since 1970.

use vstd::prelude::*;

verus! {

/// Nanoseconds in a second.
pub const NANOS_PER_SEC: u128 = 1_000_000_000;

/// The last moment that a clock can show: the longest `std::time::Duration`.
pub const LAST_TICK: u128 = 18_446_744_073_709_551_615_999_999_999;

#[verifier::external_type_specification]
#[verifier::external_body]
pub struct ExInstant(std::time::Instant);

/// `std::time::Instant::now`: a moment of the monotonic clock. Nothing is said
/// of which one.
pub assume_specification[ std::time::Instant::now ]() -> std::time::Instant
;

/// `std::time::Instant::elapsed`, in whole seconds and nanoseconds. Nothing is
/// said of how much time has passed; the nanoseconds are less than a second.
#[verifier::external_body]
fn elapsed_parts(start: &std::time::Instant) -> (r: (u64, u32))
    ensures
        r.1 < 1_000_000_000,
{
    let passed = start.elapsed();
    (passed.as_secs(), passed.subsec_nanos())
}

/// `std::time::SystemTime::now`, in whole seconds and nanoseconds after
/// 1970-01-01 (`Ok`) or before it (`Err`). Nothing is said of which moment it
/// is; the nanoseconds are less than a second.
#[verifier::external_body]
fn system_parts() -> (r: Result<(u64, u32), (u64, u32)>)
    ensures
        r matches Ok(t) ==> t.1 < 1_000_000_000,
        r matches Err(t) ==> t.1 < 1_000_000_000,
{
    match std::time::SystemTime::now().duration_since(std::time::SystemTime::UNIX_EPOCH) {
        Ok(d) => Ok((d.as_secs(), d.subsec_nanos())),
        Err(e) => Err((e.duration().as_secs(), e.duration().subsec_nanos())),
    }
}

/// A span of whole seconds and nanoseconds, in nanoseconds.
pub open spec fn span(secs: u64, nanos: u32) -> nat {
    secs as nat * NANOS_PER_SEC as nat + nanos as nat
}

/// A span of whole seconds and nanoseconds, in nanoseconds.
pub fn span_nanos(secs: u64, nanos: u32) -> (r: u128)
    ensures
        r == span(secs, nanos),
        nanos < NANOS_PER_SEC ==> r <= LAST_TICK,
{
    secs as u128 * NANOS_PER_SEC + nanos as u128
}

/// Whether a moment is told in whole seconds and nanoseconds that make less
/// than another second.
pub open spec fn is_system_time(t: Result<(u64, u32), (u64, u32)>) -> bool {
    match t {
        Ok((_, nanos)) => nanos < NANOS_PER_SEC,
        Err((_, nanos)) => nanos < NANOS_PER_SEC,
    }
}

/// A moment that lies so many seconds and nanoseconds after 1970-01-01 (`Ok`)
/// or before it (`Err`), in nanoseconds since then.
pub open spec fn wall(t: Result<(u64, u32), (u64, u32)>) -> int {
    match t {
        Ok((secs, nanos)) => span(secs, nanos) as int,
        Err((secs, nanos)) => -span(secs, nanos),
    }
}

/// A moment that lies so many seconds and nanoseconds after 1970-01-01 (`Ok`)
/// or before it (`Err`), in nanoseconds since then.
pub fn wall_nanos(t: Result<(u64, u32), (u64, u32)>) -> (r: i128)
    ensures
        r == wall(t),
        is_system_time(t) ==> -LAST_TICK <= r <= LAST_TICK,
{
    match t {
        Ok((secs, nanos)) => span_nanos(secs, nanos) as i128,
        Err((secs, nanos)) => -(span_nanos(secs, nanos) as i128),
    }
}

/// A clock that counts from the moment at which it was made.
pub struct Clock {
    start: std::time::Instant,
}

impl Clock {
    /// A clock that starts now. Nothing is said of which moment that is.
    pub fn new() -> Clock {
        Clock { start: std::time::Instant::now() }
    }

    /// The nanoseconds that have passed since the clock was started: the span
    /// that the system tells. Nothing is said of how long it is.
    pub fn now(&self) -> (r: u128)
        ensures
            r <= LAST_TICK,
            exists|secs: u64, nanos: u32|
                nanos < NANOS_PER_SEC && r == #[trigger] span(secs, nanos),
    {
        let (secs, nanos) = elapsed_parts(&self.start);
        span_nanos(secs, nanos)
    }

    /// What the clock shows after it showed `earlier`. A clock does not go back.
    pub fn now_after(&self, earlier: u128) -> (r: u128)
        requires
            earlier <= LAST_TICK,
        ensures
            earlier <= r <= LAST_TICK,
    {
        let now = self.now();
        if now < earlier {
            earlier
        } else {
            now
        }
    }
}

/// The nanoseconds that have passed since 1970-01-01; negative before it. Of
/// the moment that the system tells, nothing is said.
pub fn wall_clock() -> (r: i128)
    ensures
        -LAST_TICK <= r <= LAST_TICK,
        exists|t: Result<(u64, u32), (u64, u32)>|
            is_system_time(t) && r == #[trigger] wall(t),
{
    let t = system_parts();
    proof {
        assert(is_system_time(t));
    }
    wall_nanos(t)
}

/// A moment of the wall clock in whole seconds since 1970; 0 before it.
pub open spec fn epoch_seconds(wall: int) -> i64 {
    if wall < 0 {
        0
    } else {
        ((wall / NANOS_PER_SEC as int) as u64) as i64
    }
}

/// A moment of the wall clock in whole seconds since 1970; 0 before it.
pub fn seconds_since_epoch(wall: i128) -> (r: i64)
    requires
        wall <= LAST_TICK,
    ensures
        r == epoch_seconds(wall as int),
{
    if wall < 0 {
        0
    } else {
        ((wall as u128 / NANOS_PER_SEC) as u64) as i64
    }
}

/// The second since 1970 in which `remaining` nanoseconds from `wall` will have
/// passed; 0 where that is before 1970 or later than can be told.
pub open spec fn epoch_deadline(wall: int, remaining: int) -> i64 {
    let secs = (wall + remaining) / NANOS_PER_SEC as int;
    if wall + remaining < 0 || secs > i64::MAX {
        0
    } else {
        secs as i64
    }
}

/// The second since 1970 in which `remaining` nanoseconds from `wall` will have
/// passed; 0 where that is before 1970 or later than can be told.
pub fn deadline_since_epoch(wall: i128, remaining: u128) -> (r: i64)
    requires
        -LAST_TICK <= wall <= LAST_TICK,
        remaining <= 2 * LAST_TICK,
    ensures
        r == epoch_deadline(wall as int, remaining as int),
{
    let t: i128 = wall + remaining as i128;
    if t < 0 {
        return 0;
    }
    let secs: u128 = t as u128 / NANOS_PER_SEC;
    if secs > i64::MAX as u128 {
        0
    } else {
        secs as i64
    }
}

// ---------------------------------------------------------------------------
// Laws
// ---------------------------------------------------------------------------

/// A second is a thousand million nanoseconds, and a moment before 1970 is as
/// far from it as the same span after.
pub proof fn law_spans(secs: u64, nanos: u32)
    ensures
        span(secs, nanos) == secs * 1_000_000_000 + nanos,
        wall(Ok::<(u64, u32), (u64, u32)>((secs, nanos))) == span(secs, nanos),
        wall(Err::<(u64, u32), (u64, u32)>((secs, nanos))) == -span(secs, nanos),
{
}

/// The second since 1970 is the last one that has begun; before 1970 it is 0.
pub proof fn law_seconds_since_epoch(wall: int)
    requires
        wall <= i64::MAX * 1_000_000_000,
    ensures
        wall < 0 ==> epoch_seconds(wall) == 0,
        wall >= 0 ==> epoch_seconds(wall) * 1_000_000_000 <= wall < (epoch_seconds(wall) + 1)
            * 1_000_000_000,
{
    if wall >= 0 {
        let q = wall / 1_000_000_000;
        assert(0 <= q <= i64::MAX);
    }
}

/// A deadline is the last second that has begun when the time is up; where that
/// is before 1970, or past what can be told, it is 0.
pub proof fn law_deadline(wall: int, remaining: int)
    ensures
        ({
            let t = wall + remaining;
            let r = epoch_deadline(wall, remaining);
            &&& t < 0 || t >= (i64::MAX + 1) * 1_000_000_000 ==> r == 0
            &&& 0 <= t < (i64::MAX + 1) * 1_000_000_000 ==> r * 1_000_000_000 <= t < (r + 1)
                * 1_000_000_000
        }),
{
    let t = wall + remaining;
    let q = t / 1_000_000_000;
    if 0 <= t < (i64::MAX + 1) * 1_000_000_000 {
        assert(0 <= q <= i64::MAX);
    }
}

} // verus!
