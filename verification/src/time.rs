//! The exchange clock, which runs at its own pace.

use crate::calendar::{
    divided, multiplied, time_after, time_between, utc_now, whole_nanoseconds, TimeSpan, Timestamp,
};
use crate::error::ExchangeError;
use vstd::prelude::*;

verus! {

/// Time scale modes for the exchange clock.
#[derive(Debug, Clone, Copy, PartialEq, Eq, Structural)]
pub enum TimeScale {
    /// Real-time (1:1 ratio).
    Normal,
    /// Accelerated time (multiplier).
    Fast(u32),
    /// Decelerated time (divisor).
    Slow(u32),
    /// Fixed time (only advances when explicitly moved).
    Fixed,
}

/// Exchange clock that manages simulated time for testing.
#[derive(Debug, Clone, Copy)]
pub struct ExchangeClock {
    // When the simulation started in real time
    start_real: Timestamp,
    // The initial simulated time
    start_sim: Timestamp,
    // Current time scale
    scale: TimeScale,
    // Current simulation time (used for Fixed mode or cached value)
    current_time: Timestamp,
}

/// The state of an exchange clock.
pub struct ClockView {
    /// When the simulation started in real time.
    pub start_real: Timestamp,
    /// The initial simulated time.
    pub start_sim: Timestamp,
    /// Current time scale.
    pub scale: TimeScale,
    /// Current simulation time.
    pub current_time: Timestamp,
}

/// The number that has the bits of `n`, read as one without sign.
pub open spec fn as_unsigned(n: int) -> int {
    if n >= 0 {
        n
    } else {
        n + 0x1_0000_0000_0000_0000
    }
}

fn to_unsigned(n: i64) -> (unsigned: u64)
    ensures
        unsigned == as_unsigned(n as int),
{
    if n >= 0 {
        n as u64
    } else {
        (n as i128 + 0x1_0000_0000_0000_0000) as u64
    }
}

impl ClockView {
    /// What holds of every exchange clock.
    pub open spec fn wf(self) -> bool {
        &&& self.start_real.is_reading()
        &&& self.start_sim.is_valid()
        &&& self.current_time.is_valid()
    }

    /// The real time that the clock has run for, in nanoseconds.
    pub open spec fn real_elapsed(self, real_now: Timestamp) -> TimeSpan {
        let total = real_now.total() - self.start_real.total();
        TimeSpan { secs: (total / 1_000_000_000) as i64, nanos: (total % 1_000_000_000) as u32 }
    }

    /// The simulated time when the real time is `real_now`, if there is such a time.
    pub open spec fn time_at(self, real_now: Timestamp) -> Option<Timestamp> {
        let elapsed = self.real_elapsed(real_now);
        match self.scale {
            TimeScale::Normal => self.start_sim.plus(elapsed.total()),
            TimeScale::Fast(multiplier) => self.start_sim.plus(
                elapsed.total() * multiplier,
            ),
            TimeScale::Slow(divisor) => if divisor == 0 {
                None
            } else {
                self.start_sim.plus(elapsed.quotient(divisor as int))
            },
            TimeScale::Fixed => Some(self.current_time),
        }
    }

    /// The clock after its time is brought up to `real_now`.
    pub open spec fn updated(self, real_now: Timestamp) -> ClockView {
        match self.time_at(real_now) {
            Some(time) => ClockView { current_time: time, ..self },
            None => self,
        }
    }

    /// Why the clock cannot say what time it is when the real time is `real_now`, if
    /// it cannot.
    pub open spec fn failure_at(self, real_now: Timestamp) -> Option<crate::error::ErrorView> {
        if self.scale == TimeScale::Slow(0) {
            Some(crate::error::ErrorView::TimeError("Divisor cannot be zero"@))
        } else if self.time_at(real_now) is None {
            Some(crate::error::ErrorView::TimeError("Simulated time is out of range"@))
        } else {
            None
        }
    }

    /// Whether a simulated sleep of `duration` is possible: the length to sleep, or
    /// the time to advance to, exists.
    pub open spec fn allows_sleep(self, duration: TimeSpan) -> bool {
        match self.scale {
            TimeScale::Normal => true,
            TimeScale::Fast(multiplier) => multiplier != 0,
            TimeScale::Slow(divisor) => divisor == 0 || i64::MIN < (duration.total() * divisor)
                / 1_000_000_000 < i64::MAX,
            TimeScale::Fixed => self.current_time.plus(duration.total()) is Some,
        }
    }
}

/// The nanoseconds to sleep for a length of time. One that an `i64` cannot hold
/// takes none, and the bits of a negative one are read as if it had no sign.
pub open spec fn nanoseconds_to_sleep(total: int) -> u64 {
    if i64::MIN <= total <= i64::MAX {
        as_unsigned(total) as u64
    } else {
        0
    }
}

impl View for ExchangeClock {
    type V = ClockView;

    closed spec fn view(&self) -> ClockView {
        ClockView {
            start_real: self.start_real,
            start_sim: self.start_sim,
            scale: self.scale,
            current_time: self.current_time,
        }
    }
}

impl ExchangeClock {
    /// Create a new exchange clock.
    pub fn new(initial_time: Option<Timestamp>) -> (clock: Self)
        requires
            initial_time matches Some(time) ==> time.is_valid(),
        ensures
            clock@.wf(),
            clock@.scale == TimeScale::Normal,
            clock@.current_time == clock@.start_sim,
            match initial_time {
                Some(time) => clock@.start_sim == time,
                None => clock@.start_sim == clock@.start_real,
            },
    {
        ExchangeClock::started(initial_time, utc_now())
    }

    /// A clock that starts when the real time is `real_now`.
    pub fn started(initial_time: Option<Timestamp>, real_now: Timestamp) -> (clock: Self)
        requires
            initial_time matches Some(time) ==> time.is_valid(),
            real_now.is_reading(),
        ensures
            clock@ == (ClockView {
                start_real: real_now,
                start_sim: match initial_time {
                    Some(time) => time,
                    None => real_now,
                },
                scale: TimeScale::Normal,
                current_time: clock@.start_sim,
            }),
            clock@.wf(),
    {
        let start_sim = match initial_time {
            Some(time) => time,
            None => real_now,
        };
        ExchangeClock {
            start_real: real_now,
            start_sim,
            scale: TimeScale::Normal,
            current_time: start_sim,
        }
    }

    /// The simulated time when the real time is `real_now`, if there is such a time.
    fn find_time_at(&self, real_now: Timestamp) -> (time: Option<Timestamp>)
        requires
            self@.wf(),
            real_now.is_reading(),
        ensures
            time == self@.time_at(real_now),
            time matches Some(found) ==> found.is_valid(),
    {
        let elapsed = time_between(self.start_real, real_now);
        let sim_elapsed = match self.scale {
            TimeScale::Normal => Some(elapsed),
            TimeScale::Fast(multiplier) => multiplied(elapsed, multiplier),
            TimeScale::Slow(divisor) => divided(elapsed, divisor),
            // In fixed mode, time doesn't advance automatically
            TimeScale::Fixed => {
                return Some(self.current_time);
            },
        };
        match sim_elapsed {
            Some(span) => time_after(self.start_sim, span),
            None => None,
        }
    }

    /// Update the current simulation time based on the time scale, where the real
    /// time is `real_now`.
    pub fn update_time_at(&mut self, real_now: Timestamp) -> (result: Result<
        Timestamp,
        ExchangeError,
    >)
        requires
            old(self)@.wf(),
            real_now.is_reading(),
            old(self)@.scale == TimeScale::Slow(0) || old(self)@.time_at(real_now) is Some,
        ensures
            final(self)@.wf(),
            final(self)@ == old(self)@.updated(real_now),
            match result {
                Ok(time) => old(self)@.time_at(real_now) == Some(time),
                Err(error) => old(self)@.scale == TimeScale::Slow(0) && error@
                    == crate::error::ErrorView::TimeError("Divisor cannot be zero"@),
            },
    {
        match self.find_time_at(real_now) {
            Some(time) => {
                self.current_time = time;
                Ok(time)
            },
            None => Err(ExchangeError::TimeError("Divisor cannot be zero".to_owned())),
        }
    }

    /// Update the current simulation time based on the time scale and the system
    /// clock.
    pub fn update_time(&mut self) -> (result: Result<Timestamp, ExchangeError>)
        requires
            old(self)@.wf(),
        ensures
            final(self)@.wf(),
            exists|real_now: Timestamp| #[trigger]
                real_now.is_reading() && final(self)@ == old(self)@.updated(real_now) && match result {
                    Ok(time) => old(self)@.time_at(real_now) == Some(time),
                    Err(error) => error@ == old(self)@.failure_at(real_now)->0,
                } && (result is Ok <==> old(self)@.failure_at(real_now) is None),
    {
        let real_now = utc_now();
        if self.has_time_at(real_now) {
            self.update_time_at(real_now)
        } else {
            Err(ExchangeError::TimeError("Simulated time is out of range".to_owned()))
        }
    }

    /// Whether the clock can say what time it is when the real time is `real_now`:
    /// there is such a time, or the scale is none, which is an error of its own.
    pub fn has_time_at(&self, real_now: Timestamp) -> (possible: bool)
        requires
            self@.wf(),
            real_now.is_reading(),
        ensures
            possible == (self@.scale == TimeScale::Slow(0) || self@.time_at(real_now) is Some),
    {
        self.scale == TimeScale::Slow(0) || self.find_time_at(real_now).is_some()
    }

    /// Set the time scale, where the real time is `real_now`.
    pub fn set_time_scale_at(&mut self, scale: TimeScale, real_now: Timestamp) -> (result: Result<
        (),
        ExchangeError,
    >)
        requires
            old(self)@.wf(),
            real_now.is_reading(),
            old(self)@.scale == TimeScale::Slow(0) || old(self)@.time_at(real_now) is Some,
        ensures
            final(self)@.wf(),
            match result {
                Ok(_) => old(self)@.time_at(real_now) is Some && final(self)@ == (ClockView {
                    scale,
                    ..old(self)@.updated(real_now)
                }),
                Err(error) => final(self)@ == old(self)@ && old(self)@.scale == TimeScale::Slow(0)
                    && error@ == crate::error::ErrorView::TimeError("Divisor cannot be zero"@),
            },
    {
        // Update current time before changing scale
        self.update_time_at(real_now)?;
        self.scale = scale;
        Ok(())
    }

    /// Set the time scale.
    pub fn set_time_scale(&mut self, scale: TimeScale) -> (result: Result<(), ExchangeError>)
        requires
            old(self)@.wf(),
        ensures
            final(self)@.wf(),
            exists|real_now: Timestamp| #[trigger]
                real_now.is_reading() && match result {
                    Ok(_) => final(self)@ == (ClockView {
                        scale,
                        ..old(self)@.updated(real_now)
                    }),
                    Err(error) => final(self)@ == old(self)@ && error@ == old(self)@.failure_at(
                        real_now,
                    )->0,
                } && (result is Ok <==> old(self)@.failure_at(real_now) is None),
    {
        let real_now = utc_now();
        if self.has_time_at(real_now) {
            self.set_time_scale_at(scale, real_now)
        } else {
            Err(ExchangeError::TimeError("Simulated time is out of range".to_owned()))
        }
    }

    /// Get the current simulation time.
    pub fn now(&mut self) -> (result: Result<Timestamp, ExchangeError>)
        requires
            old(self)@.wf(),
        ensures
            final(self)@.wf(),
            exists|real_now: Timestamp| #[trigger]
                real_now.is_reading() && final(self)@ == old(self)@.updated(real_now) && match result {
                    Ok(time) => old(self)@.time_at(real_now) == Some(time),
                    Err(error) => error@ == old(self)@.failure_at(real_now)->0,
                } && (result is Ok <==> old(self)@.failure_at(real_now) is None),
    {
        self.update_time()
    }

    /// Whether the simulated time can be advanced by `duration`.
    pub fn can_advance(&self, duration: TimeSpan) -> (possible: bool)
        requires
            self@.wf(),
            duration.is_valid(),
        ensures
            possible == (self@.current_time.plus(duration.total()) is Some),
    {
        time_after(self.current_time, duration).is_some()
    }

    /// Advance the simulated time by a specified duration (only meaningful in Fixed
    /// mode).
    pub fn advance_time(&mut self, duration: TimeSpan) -> (result: Result<(), ExchangeError>)
        requires
            old(self)@.wf(),
            duration.is_valid(),
            old(self)@.current_time.plus(duration.total()) is Some,
        ensures
            result is Ok,
            final(self)@.wf(),
            final(self)@ == (ClockView {
                current_time: old(self)@.current_time.plus(duration.total())->0,
                ..old(self)@
            }),
    {
        if let Some(time) = time_after(self.current_time, duration) {
            self.current_time = time;
        }
        Ok(())
    }

    /// Explicitly set the simulation time.
    pub fn set_time(&mut self, time: Timestamp) -> (result: Result<(), ExchangeError>)
        requires
            old(self)@.wf(),
            time.is_valid(),
        ensures
            result is Ok,
            final(self)@.wf(),
            final(self)@ == (ClockView { current_time: time, ..old(self)@ }),
    {
        self.current_time = time;
        Ok(())
    }

    /// Whether a simulated sleep of `duration` is possible.
    pub fn can_sleep(&self, duration: TimeSpan) -> (possible: bool)
        requires
            self@.wf(),
            duration.is_valid(),
        ensures
            possible == self@.allows_sleep(duration),
    {
        match self.scale {
            TimeScale::Normal => true,
            TimeScale::Fast(multiplier) => multiplier != 0,
            TimeScale::Slow(divisor) => divisor == 0 || multiplied(
                duration,
                divisor,
            ).is_some(),
            TimeScale::Fixed => self.can_advance(duration),
        }
    }
}

/// Whether a simulated sleep that starts by the clock `before` comes to `result` and
/// leaves the clock `after`: how long to sleep in real time, in nanoseconds, or
/// nothing where the clock is fixed and has been advanced instead.
pub open spec fn slept(
    before: ClockView,
    duration: TimeSpan,
    result: Result<Option<u64>, ExchangeError>,
    after: ClockView,
) -> bool {
    match before.scale {
        TimeScale::Normal => {
            &&& after == before
            &&& result matches Ok(Some(nanos)) && nanos == nanoseconds_to_sleep(
                duration.total(),
            )
        },
        TimeScale::Fast(multiplier) => {
            &&& after == before
            &&& result matches Ok(Some(nanos)) && nanos == nanoseconds_to_sleep(
                duration.quotient(multiplier as int),
            )
        },
        TimeScale::Slow(divisor) => {
            &&& after == before
            &&& if divisor == 0 {
                crate::error::error_of(result) == Some(
                    crate::error::ErrorView::TimeError("Divisor cannot be zero"@),
                )
            } else {
                result matches Ok(Some(nanos)) && nanos == nanoseconds_to_sleep(
                    duration.total() * divisor,
                )
            }
        },
        TimeScale::Fixed => {
            &&& result matches Ok(None)
            &&& after == (ClockView {
                current_time: before.current_time.plus(duration.total())->0,
                ..before
            })
        },
    }
}

/// Sleep for a simulated duration based on the current time scale. The result is
/// how long to sleep in real time, in nanoseconds, or nothing where the clock is
/// fixed and has been advanced instead.
pub fn sleep_sim(clock: &mut ExchangeClock, duration: TimeSpan) -> (result: Result<
    Option<u64>,
    ExchangeError,
>)
    requires
        old(clock)@.wf(),
        duration.is_valid(),
        old(clock)@.allows_sleep(duration),
    ensures
        final(clock)@.wf(),
        slept(old(clock)@, duration, result, final(clock)@),
{
    let real_duration = match clock.scale {
        TimeScale::Normal => Some(duration),
        TimeScale::Fast(multiplier) => divided(duration, multiplier),
        TimeScale::Slow(divisor) => {
            if divisor == 0 {
                return Err(ExchangeError::TimeError("Divisor cannot be zero".to_owned()));
            }
            multiplied(duration, divisor)
        },
        // In fixed mode, we advance the time but don't actually sleep
        TimeScale::Fixed => {
            clock.advance_time(duration)?;
            return Ok(None);
        },
    };
    let nanos: i64 = match real_duration {
        Some(span) => match whole_nanoseconds(span) {
            Some(nanos) => nanos,
            None => 0,
        },
        None => 0,
    };
    Ok(Some(to_unsigned(nanos)))
}

} // verus!
