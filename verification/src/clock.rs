//! Time as plain numbers: nanoseconds on the monotonic clock since some start,
//! and the pseudo-random draw that is seeded by the wall clock.

use std::time::{Duration, Instant, SystemTime, SystemTimeError};
use vstd::prelude::*;

verus! {

/// Nanoseconds in one second.
pub const NANOS_PER_SEC: u128 = 1_000_000_000;

/// The longest span that the standard library's durations can express.
pub const MAX_NANOS: u128 = 18_446_744_073_709_551_615_999_999_999;

/// A point on the monotonic clock. Nothing is known of its inside.
#[verifier::external_type_specification]
#[verifier::external_body]
pub struct ExInstant(Instant);

/// A point on the wall clock. Nothing is known of its inside.
#[verifier::external_type_specification]
#[verifier::external_body]
pub struct ExSystemTime(SystemTime);

/// What `SystemTime::duration_since` returns for a point that lies later.
#[verifier::external_type_specification]
#[verifier::external_body]
pub struct ExSystemTimeError(SystemTimeError);

/// `Instant::now` reads the monotonic clock; nothing is claimed of the reading.
pub assume_specification[ Instant::now ]() -> Instant
;

/// `Instant::elapsed` gives the time since an instant; nothing is claimed of it
/// (it is zero where the clock seems to have gone back, and never panics).
pub assume_specification[ Instant::elapsed ](earlier: &Instant) -> Duration
;

/// `Duration::as_nanos` gives the whole span in nanoseconds. A duration holds a
/// `u64` of seconds and less than one more second of nanoseconds. The bound is all
/// that is said: a duration is a reading of the clock, of whose inside nothing is
/// known.
pub assume_specification[ Duration::as_nanos ](span: &Duration) -> (nanos: u128)
    ensures
        nanos <= MAX_NANOS,
;

/// `Duration::subsec_nanos` gives the part of a span below one second. The bound is
/// all that is said, as for the whole span.
pub assume_specification[ Duration::subsec_nanos ](span: &Duration) -> (nanos: u32)
    ensures
        nanos < 1_000_000_000,
;

/// `SystemTime::now` reads the wall clock; nothing is claimed of the reading.
pub assume_specification[ SystemTime::now ]() -> SystemTime
;

/// `SystemTimeError::duration` gives how far the later point lies ahead;
/// nothing is claimed of it.
pub assume_specification[ SystemTimeError::duration ](error: &SystemTimeError) -> Duration
;

/// `SystemTime::duration_since` applied to the Unix epoch; nothing is claimed of
/// the span, nor of whether the reading lies after the epoch.
#[verifier::external_body]
fn since_unix_epoch(time: &SystemTime) -> (span: Result<Duration, SystemTimeError>) {
    time.duration_since(std::time::UNIX_EPOCH)
}

/// The time was read from this clock: it is the nanoseconds of what `Instant::elapsed`
/// gave for the instant at which the clock was started. Nothing is known of when it was
/// read.
pub closed spec fn is_reading(clock: Clock, now: u128) -> bool {
    exists|span: Duration| #[trigger]
        call_ensures(Instant::elapsed, (&clock.started,), span) && call_ensures(
            Duration::as_nanos,
            (&span,),
            now,
        )
}

/// The clock was started by a look at the monotonic clock.
pub closed spec fn was_started(clock: Clock) -> bool {
    call_ensures(Instant::now, (), clock.started)
}

/// These times were read from these clocks, one from each.
pub open spec fn taken_from(clocks: Seq<Clock>, times: Seq<u128>) -> bool {
    times.len() == clocks.len() && forall|i: int|
        0 <= i < times.len() ==> is_reading(clocks[i], #[trigger] times[i])
}

/// Every one of these times can be read from a clock.
pub open spec fn readings(times: Seq<u128>) -> bool {
    forall|i: int| 0 <= i < times.len() ==> #[trigger] times[i] <= MAX_NANOS
}

/// Calls a function. What it gives is one of the results that the function can give
/// for this argument.
fn answer_of<A, B, F: Fn(A) -> B>(f: F, argument: A) -> (answer: B)
    requires
        call_requires(f, (argument,)),
    ensures
        call_ensures(f, (argument,), answer),
{
    f(argument)
}

/// Calls a function that takes nothing. What it gives is one of the results that the
/// function can give.
fn result_of<B, F: Fn() -> B>(f: F) -> (result: B)
    requires
        call_requires(f, ()),
    ensures
        call_ensures(f, (), result),
{
    f()
}

/// The span of `n` seconds in nanoseconds.
pub fn secs(n: u64) -> (nanos: u128)
    ensures
        nanos == n * NANOS_PER_SEC,
        nanos <= MAX_NANOS,
{
    assert(n * NANOS_PER_SEC <= MAX_NANOS);
    n as u128 * NANOS_PER_SEC
}

/// A monotonic clock that counts from the moment it was started.
#[derive(Clone, Copy)]
pub struct Clock {
    started: Instant,
}

impl Clock {
    /// Starts a clock: it stands at zero now. Nothing is stated of the moment.
    pub fn start() -> (clock: Clock)
        ensures
            was_started(clock),
    {
        Clock { started: result_of(Instant::now) }
    }

    /// Reads the clock: nanoseconds since it was started. Two readings of one clock may
    /// differ.
    pub fn read(&self) -> (now: u128)
        ensures
            now <= MAX_NANOS,
            is_reading(*self, now),
    {
        let span = answer_of(Instant::elapsed, &self.started);
        answer_of(Duration::as_nanos, &span)
    }
}

/// One step of a linear congruential generator.
pub open spec fn scrambled(seed: u32) -> u32 {
    ((seed * 1103515245 + 12345) % 0x1_0000_0000) as u32
}

/// The wall clock was read: these are the nanoseconds of a second in its distance to
/// the epoch.
pub closed spec fn is_wall_reading(nanos: u32) -> bool {
    exists|time: SystemTime, reply: Result<Duration, SystemTimeError>, span: Duration|
        call_ensures(SystemTime::now, (), time) && #[trigger] call_ensures(
            since_unix_epoch,
            (&time,),
            reply,
        ) && (match reply {
            Ok(after) => span == after,
            Err(error) => call_ensures(SystemTimeError::duration, (&error,), span),
        }) && #[trigger] call_ensures(Duration::subsec_nanos, (&span,), nanos)
}

/// This number was drawn: it is what becomes of the nanoseconds that were read from the
/// wall clock.
pub open spec fn drawn(random: u32) -> bool {
    exists|nanos: u32|
        nanos < 1_000_000_000 && is_wall_reading(nanos) && random == #[trigger] scrambled(nanos)
}

/// One step of a linear congruential generator.
pub fn scramble(seed: u32) -> (draw: u32)
    ensures
        draw == scrambled(seed),
{
    let product: u32 = seed.wrapping_mul(1103515245);
    let draw: u32 = product.wrapping_add(12345);
    proof {
        let p: int = seed * 1103515245;
        assert(product == p % 0x1_0000_0000);
        assert(draw == (product + 12345) % 0x1_0000_0000);
    }
    draw
}

/// A pseudo-random number: the nanoseconds of the current second of the wall
/// clock, scrambled. Where the clock stands before the epoch, the nanoseconds
/// of its distance to the epoch are taken.
pub fn rand_u32() -> (draw: u32)
    ensures
        drawn(draw),
{
    let now = result_of(SystemTime::now);
    let reply = answer_of(since_unix_epoch, &now);
    let ghost given = reply;
    let span = match reply {
        Ok(span) => span,
        Err(error) => answer_of(SystemTimeError::duration, &error),
    };
    let nanos: u32 = answer_of(Duration::subsec_nanos, &span);
    assert(is_wall_reading(nanos)) by {
        assert(call_ensures(since_unix_epoch, (&now,), given));
    }
    scramble(nanos)
}

/// A draw takes the seed times 1103515245, plus 12345, in the arithmetic of 32 bits.
pub proof fn law_draw_of_a_seed(seed: u32)
    ensures
        exists|wraps: int|
            scrambled(seed) + #[trigger] (wraps * 0x1_0000_0000) == seed * 1_103_515_245 + 12_345,
{
    let n = seed * 1_103_515_245 + 12_345;
    let wraps = n / 0x1_0000_0000;
    assert(scrambled(seed) + wraps * 0x1_0000_0000 == n);
}

/// What is a reading of a clock was given by `Instant::elapsed` for the very instant at
/// which the clock was started, and turned into nanoseconds by `Duration::as_nanos`.
proof fn law_readings_are_elapsed_time(clock: Clock, now: u128)
    requires
        is_reading(clock, now),
    ensures
        exists|span: Duration| #[trigger]
            call_ensures(Instant::elapsed, (&clock.started,), span) && call_ensures(
                Duration::as_nanos,
                (&span,),
                now,
            ),
        now <= 18_446_744_073_709_551_615_999_999_999,
{
}

/// A clock that was started holds an instant that `Instant::now` gave.
proof fn law_clocks_are_started_by_a_look(clock: Clock)
    requires
        was_started(clock),
    ensures
        call_ensures(Instant::now, (), clock.started),
{
}

/// What was read from the wall clock was given by `Duration::subsec_nanos`, for a
/// distance to the epoch of a time that `SystemTime::now` gave.
proof fn law_wall_readings(nanos: u32)
    requires
        is_wall_reading(nanos),
    ensures
        exists|time: SystemTime, reply: Result<Duration, SystemTimeError>, span: Duration|
            call_ensures(SystemTime::now, (), time) && #[trigger] call_ensures(
                since_unix_epoch,
                (&time,),
                reply,
            ) && (reply matches Ok(after) ==> span == after) && (reply matches Err(error)
                ==> call_ensures(SystemTimeError::duration, (&error,), span))
                && #[trigger] call_ensures(Duration::subsec_nanos, (&span,), nanos),
{
}

/// Times that were taken from clocks were each read from the clock at the same place,
/// and none is beyond what a clock can show.
pub proof fn law_each_time_from_its_clock(clocks: Seq<Clock>, times: Seq<u128>, i: int)
    requires
        taken_from(clocks, times),
    ensures
        times.len() == clocks.len(),
        0 <= i < times.len() ==> is_reading(clocks[i], times[i]),
        0 <= i < times.len() && readings(times) ==> times[i] <= MAX_NANOS,
{
    if 0 <= i < times.len() {
        assert(is_reading(clocks[i], times[i]));
    }
}

/// A number that was drawn comes from a reading of the wall clock.
pub proof fn law_draws_come_from_the_wall_clock(random: u32)
    requires
        drawn(random),
    ensures
        exists|nanos: u32|
            nanos < 1_000_000_000 && #[trigger] is_wall_reading(nanos) && random == scrambled(
                nanos,
            ),
{
    let nanos = choose|nanos: u32|
        nanos < 1_000_000_000 && is_wall_reading(nanos) && random == #[trigger] scrambled(nanos);
    assert(is_wall_reading(nanos));
}

} // verus!
