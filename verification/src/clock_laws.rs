//! What can be relied on of points in time and of the exchange clock, in terms of
//! what was set and what the real time is.

use crate::calendar::{TimeSpan, Timestamp};
use crate::error::{ErrorView, ExchangeError};
use crate::time::{ClockView, TimeScale};
use vstd::prelude::*;

verus! {

/// Of two points in time exactly one comes before the other, unless they are the
/// same; and a later second comes later.
pub proof fn law_points_in_time_are_ordered(a: Timestamp, b: Timestamp, c: Timestamp)
    ensures
        a == b <==> !a.before(b) && !b.before(a),
        !(a.before(b) && b.before(a)),
        a.before(b) && b.before(c) ==> a.before(c),
        a.secs < b.secs ==> a.before(b),
        a.secs == b.secs && a.nanos < b.nanos ==> a.before(b),
{
}

/// A day has 86400 seconds, and the first one starts with 1970.
pub proof fn law_days_have_their_seconds(time: Timestamp)
    ensures
        86_400 * time.day() <= time.secs < 86_400 * (time.day() + 1),
{
}

/// Outside leap seconds, the point in time that lies a length on is exactly that far
/// away, and there is one wherever the calendar reaches.
pub proof fn law_moving_on_is_adding(time: Timestamp, span: int)
    requires
        time.is_valid(),
        time.nanos < 1_000_000_000,
    ensures
        match time.plus(span) {
            Some(moved) => {
                &&& moved.secs * 1_000_000_000 + moved.nanos == time.secs * 1_000_000_000
                    + time.nanos + span
                &&& moved.nanos < 1_000_000_000
            },
            None => {
                let total = time.secs * 1_000_000_000 + time.nanos + span;
                total < -8_334_601_228_800_000_000_000 || total >= 8_210_266_876_800_000_000_000
            },
        },
{
}

/// A running clock starts from its start: when no real time has passed it shows the
/// time that it was started with.
pub proof fn law_running_clocks_start_at_their_start(clock: ClockView)
    requires
        clock.wf(),
        clock.scale != TimeScale::Fixed,
        clock.scale != TimeScale::Slow(0),
    ensures
        clock.time_at(clock.start_real) == Some(clock.start_sim),
{
    let elapsed = clock.real_elapsed(clock.start_real);
    assert(elapsed.total() == 0);
    if let TimeScale::Fast(multiplier) = clock.scale {
        assert(0 * multiplier == 0) by (nonlinear_arith);
    }
    if let TimeScale::Slow(divisor) = clock.scale {
        let d = divisor as int;
        assert(0int / d == 0) by (nonlinear_arith)
            requires
                d > 0,
        ;
        assert(0int * d == 0) by (nonlinear_arith);
    }
}

/// What a running clock shows does not rest on what it was last set or advanced to.
pub proof fn law_running_clocks_forget_what_was_set(
    clock: ClockView,
    set: Timestamp,
    real_now: Timestamp,
)
    requires
        clock.scale != TimeScale::Fixed,
    ensures
        (ClockView { current_time: set, ..clock }).time_at(real_now) == clock.time_at(real_now),
{
}

/// A fixed clock shows what it was last set or advanced to.
pub proof fn law_fixed_clocks_show_what_was_set(
    clock: ClockView,
    set: Timestamp,
    real_now: Timestamp,
)
    requires
        clock.scale == TimeScale::Fixed,
    ensures
        (ClockView { current_time: set, ..clock }).time_at(real_now) == Some(set),
{
}

/// Bringing a clock up to date stores the time that it shows, and nothing else; where
/// it shows none it stays as it is.
pub proof fn law_updates_store_what_is_shown(clock: ClockView, real_now: Timestamp)
    ensures
        ({
            let after = clock.updated(real_now);
            &&& clock.time_at(real_now) matches Some(time) ==> after.current_time == time
            &&& clock.time_at(real_now) is None ==> after.current_time == clock.current_time
            &&& after.start_real == clock.start_real
            &&& after.start_sim == clock.start_sim
            &&& after.scale == clock.scale
        }),
{
}

/// A clock that is brought up to date and then fixed shows from then on the time that
/// it had reached.
pub proof fn law_fixing_a_clock_freezes_it(
    clock: ClockView,
    fixed_at: Timestamp,
    real_now: Timestamp,
)
    requires
        clock.time_at(fixed_at) is Some,
    ensures
        (ClockView { scale: TimeScale::Fixed, ..clock.updated(fixed_at) }).time_at(real_now)
            == clock.time_at(fixed_at),
{
}

/// Bringing a clock up to date changes nothing of what it shows later.
pub proof fn law_updates_do_not_disturb(clock: ClockView, first: Timestamp, second: Timestamp)
    ensures
        clock.updated(first).time_at(second) == clock.time_at(second),
{
}

/// A slow clock shows its start moved on by the real time divided by its divisor, up
/// to what rounding takes away.
pub proof fn law_slow_clocks_lag(clock: ClockView, divisor: u32, real_now: Timestamp)
    requires
        clock.wf(),
        clock.scale == TimeScale::Slow(divisor),
        divisor > 0,
        real_now.is_reading(),
        clock.start_sim.nanos < 1_000_000_000,
        clock.time_at(real_now) is Some,
    ensures
        ({
            let shown = clock.time_at(real_now)->0;
            let moved = (shown.secs - clock.start_sim.secs) * 1_000_000_000 + shown.nanos
                - clock.start_sim.nanos;
            let elapsed = (real_now.secs - clock.start_real.secs) * 1_000_000_000 + real_now.nanos
                - clock.start_real.nanos;
            &&& -2 * divisor < elapsed - moved * divisor < 2 * divisor
            &&& elapsed >= 0 ==> moved * divisor <= elapsed
        }),
{
    crate::laws::law_slow_clock_divides(clock, divisor, real_now);
    let moved = clock.real_elapsed(real_now).quotient(divisor as int);
    law_moving_on_is_adding(clock.start_sim, moved);
}

/// A normal clock shows its start moved on by the real time that has passed.
pub proof fn law_normal_clocks_keep_up(clock: ClockView, real_now: Timestamp)
    requires
        clock.wf(),
        clock.scale == TimeScale::Normal,
        real_now.is_reading(),
    ensures
        clock.time_at(real_now) == clock.start_sim.plus(
            (real_now.secs - clock.start_real.secs) * 1_000_000_000 + real_now.nanos
                - clock.start_real.nanos,
        ),
{
}

/// A fast clock shows its start moved on by its multiplier times the real time that
/// has passed.
pub proof fn law_fast_clocks_run_ahead(clock: ClockView, multiplier: u32, real_now: Timestamp)
    requires
        clock.wf(),
        clock.scale == TimeScale::Fast(multiplier),
        real_now.is_reading(),
    ensures
        clock.time_at(real_now) == clock.start_sim.plus(
            ((real_now.secs - clock.start_real.secs) * 1_000_000_000 + real_now.nanos
                - clock.start_real.nanos) * multiplier,
        ),
{
    let elapsed = clock.real_elapsed(real_now);
    assert(elapsed.total() == (real_now.secs - clock.start_real.secs) * 1_000_000_000
        + real_now.nanos - clock.start_real.nanos);
}

/// A clock fails to tell the time exactly where its divisor is 0 or the calendar does
/// not reach as far; the error says which. A fixed clock never fails.
pub proof fn law_clock_failures_are_explained(clock: ClockView, real_now: Timestamp)
    ensures
        ({
            let failure = clock.failure_at(real_now);
            &&& clock.scale == TimeScale::Fixed ==> failure is None
            &&& clock.scale == TimeScale::Slow(0) ==> failure == Some(
                ErrorView::TimeError("Divisor cannot be zero"@),
            )
            &&& clock.scale != TimeScale::Slow(0) && clock.time_at(real_now) is None ==> failure
                == Some(ErrorView::TimeError("Simulated time is out of range"@))
            &&& clock.time_at(real_now) is Some ==> failure is None
        }),
{
}

/// A simulated sleep takes, in real time, as long as the clock takes to move on by the
/// duration: the duration itself by a normal clock, its multiplier's share by a fast
/// one, up to rounding, and its divisor times as long by a slow one. Running clocks
/// are not touched.
pub proof fn law_sleeps_last_as_long_as_the_clock_takes(
    before: ClockView,
    duration: TimeSpan,
    result: Result<Option<u64>, ExchangeError>,
    after: ClockView,
)
    requires
        duration.is_valid(),
        0 <= duration.secs,
        duration.secs * 1_000_000_000 + duration.nanos <= i64::MAX,
        before.scale != TimeScale::Fixed,
        before.allows_sleep(duration),
        crate::time::slept(before, duration, result, after),
    ensures
        ({
            let length = duration.secs * 1_000_000_000 + duration.nanos;
            &&& after == before
            &&& before.scale == TimeScale::Normal ==> (result matches Ok(Some(nanos)) && nanos
                == length)
            &&& before.scale matches TimeScale::Fast(multiplier) ==> (result matches Ok(
                Some(nanos),
            ) && nanos * multiplier <= length < nanos * multiplier + 2 * multiplier)
            &&& before.scale matches TimeScale::Slow(divisor) ==> {
                &&& divisor == 0 ==> (result matches Err(error) && error@ == ErrorView::TimeError(
                    "Divisor cannot be zero"@,
                ))
                &&& divisor > 0 && length * divisor <= i64::MAX ==> (result matches Ok(
                    Some(nanos),
                ) && nanos == length * divisor)
                &&& divisor > 0 && length * divisor > i64::MAX ==> (result matches Ok(Some(nanos))
                    && nanos == 0)
            }
        }),
{
    let length = duration.total();
    match before.scale {
        TimeScale::Fast(multiplier) => {
            crate::laws::lemma_quotient_near(duration, multiplier as int);
            let q = duration.quotient(multiplier as int);
            let m = multiplier as int;
            assert(0 <= q <= length) by (nonlinear_arith)
                requires
                    q * m <= length,
                    length < q * m + 2 * m,
                    m > 0,
                    length >= 0,
                    q >= 0,
            ;
        },
        TimeScale::Slow(divisor) => {
            assert(length * divisor >= 0) by (nonlinear_arith)
                requires
                    length >= 0,
                    divisor >= 0,
            ;
        },
        _ => {},
    }
}

/// Of lengths that no sleep can have, a normal clock makes this: one that an `i64`
/// cannot hold takes no time, and a negative one is read without its sign.
pub proof fn law_sleeps_of_odd_lengths(
    before: ClockView,
    duration: TimeSpan,
    result: Result<Option<u64>, ExchangeError>,
    after: ClockView,
)
    requires
        before.scale == TimeScale::Normal,
        crate::time::slept(before, duration, result, after),
    ensures
        ({
            let length = duration.secs * 1_000_000_000 + duration.nanos;
            &&& result matches Ok(Some(nanos)) && {
                &&& length > i64::MAX || length < i64::MIN ==> nanos == 0
                &&& i64::MIN <= length < 0 ==> nanos == length + 0x1_0000_0000_0000_0000
            }
            &&& after == before
        }),
{
}

/// A simulated sleep by a fixed clock takes no real time: the clock is moved on by the
/// duration instead.
pub proof fn law_sleeps_advance_a_fixed_clock(
    before: ClockView,
    duration: TimeSpan,
    result: Result<Option<u64>, ExchangeError>,
    after: ClockView,
)
    requires
        before.scale == TimeScale::Fixed,
        before.allows_sleep(duration),
        crate::time::slept(before, duration, result, after),
    ensures
        result matches Ok(None),
        Some(after.current_time) == before.current_time.plus(
            duration.secs * 1_000_000_000 + duration.nanos,
        ),
        after.start_real == before.start_real && after.start_sim == before.start_sim && after.scale
            == before.scale,
{
}

/// Every sleep that has a length in real time is possible: by a normal clock always,
/// by a fast clock unless its multiplier is 0, by a slow clock unless the length
/// outgrows what `chrono` can count, and by a fixed clock as far as the calendar
/// reaches.
pub proof fn law_possible_sleeps_are_allowed(clock: ClockView, duration: TimeSpan)
    ensures
        clock.scale == TimeScale::Normal ==> clock.allows_sleep(duration),
        clock.scale matches TimeScale::Fast(multiplier) ==> (clock.allows_sleep(duration)
            <==> multiplier > 0),
        clock.scale == TimeScale::Slow(0) ==> clock.allows_sleep(duration),
        clock.scale matches TimeScale::Slow(divisor) ==> (0 <= duration.total() * divisor
            <= i64::MAX ==> clock.allows_sleep(duration)),
        clock.scale == TimeScale::Fixed ==> (clock.allows_sleep(duration)
            <==> clock.current_time.plus(duration.total()) is Some),
{
}

} // verus!
