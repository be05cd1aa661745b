use chrono::{DateTime, TimeDelta, Utc};
use exchange_sim::calendar::{TimeSpan, Timestamp, FIRST_SECOND, LAST_SECOND};
use exchange_sim::time::{sleep_sim, ExchangeClock, TimeScale};

fn span(delta: TimeDelta) -> TimeSpan {
    let secs = delta.num_seconds();
    let nanos = delta.subsec_nanos();
    if nanos < 0 {
        TimeSpan { secs: secs - 1, nanos: (nanos + 1_000_000_000) as u32 }
    } else {
        TimeSpan { secs, nanos: nanos as u32 }
    }
}

fn at(secs: i64, nanos: u32) -> Timestamp {
    Timestamp { secs, nanos }
}

fn date(time: Timestamp) -> DateTime<Utc> {
    DateTime::from_timestamp(time.secs, time.nanos).unwrap()
}

fn stamp(time: DateTime<Utc>) -> Timestamp {
    Timestamp { secs: time.timestamp(), nanos: time.timestamp_subsec_nanos() }
}

#[test]
fn the_calendar_ends_where_chrono_ends() {
    assert_eq!(DateTime::<Utc>::MIN_UTC.timestamp(), FIRST_SECOND);
    assert_eq!(DateTime::<Utc>::MAX_UTC.timestamp(), LAST_SECOND);
    assert_eq!(span(TimeDelta::MAX).in_range(), true);
    assert_eq!(span(TimeDelta::MIN).in_range(), true);
    let longest = span(TimeDelta::MAX);
    let beyond = TimeSpan { secs: longest.secs, nanos: longest.nanos + 1 };
    assert_eq!(beyond.in_range(), false);
    assert_eq!(TimeSpan { secs: 0, nanos: 1_000_000_000 }.in_range(), false);
}

#[test]
fn clocks_start_in_real_time() {
    let before = Utc::now();
    let mut clock = ExchangeClock::new(None);
    let time = date(clock.now().unwrap());
    assert!(before <= time && time <= Utc::now());
    assert!(time.timestamp() > 1_600_000_000);
}

#[test]
fn every_scale_has_its_pace() {
    let real = at(1_700_000_000, 250_000_000);
    let sim = at(1_000_000, 0);
    let now = at(1_700_000_010, 500_000_000);
    let cases = vec![
        (TimeScale::Normal, at(1_000_010, 250_000_000)),
        (TimeScale::Fast(4), at(1_000_041, 0)),
        (TimeScale::Slow(4), at(1_000_002, 562_500_000)),
        (TimeScale::Fast(0), at(1_000_000, 0)),
        (TimeScale::Fast(u32::MAX), at(44_024_414_773, 750_000_000)),
        (TimeScale::Slow(u32::MAX), at(1_000_000, 2)),
        (TimeScale::Fixed, sim),
    ];
    for (scale, expected) in cases {
        let mut clock = ExchangeClock::started(Some(sim), real);
        assert!(clock.set_time_scale_at(scale, real).is_ok());
        assert!(clock.has_time_at(now));
        assert_eq!(clock.update_time_at(now).unwrap(), expected);
    }
}

#[test]
fn slow_clocks_divide_as_chrono_does() {
    let real = at(1_700_000_000, 0);
    for (secs, nanos, divisor) in
        [(10, 999_999_999, 3), (7, 1, 7), (0, 999, 1000), (123_456, 654_321, 97)]
    {
        let now = at(real.secs + secs, nanos);
        let mut clock = ExchangeClock::started(Some(at(0, 0)), real);
        clock.set_time_scale_at(TimeScale::Slow(divisor), real).unwrap();
        let expected =
            DateTime::<Utc>::UNIX_EPOCH + (date(now) - date(real)) / divisor as i32;
        assert_eq!(clock.update_time_at(now).unwrap(), stamp(expected));
    }
}

#[test]
fn a_divisor_of_zero_is_an_error() {
    let real = at(1_700_000_000, 0);
    let mut clock = ExchangeClock::started(None, real);
    clock.set_time_scale_at(TimeScale::Slow(0), real).unwrap();
    for error in [
        clock.update_time_at(real).err().unwrap(),
        clock.set_time_scale_at(TimeScale::Normal, real).err().unwrap(),
        clock.update_time().err().unwrap(),
        sleep_sim(&mut clock, TimeSpan { secs: 1, nanos: 0 }).err().unwrap(),
    ] {
        assert_eq!(error.message(), "Time error: Divisor cannot be zero");
    }
}

#[test]
fn time_runs_out_at_the_end_of_the_calendar() {
    let real = at(1_700_000_000, 0);
    let mut clock = ExchangeClock::started(Some(at(LAST_SECOND, 0)), real);
    assert!(clock.has_time_at(real));
    assert!(!clock.has_time_at(at(1_700_000_001, 0)));
    assert!(!clock.can_advance(TimeSpan { secs: 1, nanos: 0 }));
    assert!(clock.can_advance(TimeSpan { secs: 0, nanos: 999_999_999 }));
    assert!(clock.can_advance(TimeSpan { secs: FIRST_SECOND - LAST_SECOND, nanos: 0 }));
    assert!(!clock.can_advance(TimeSpan { secs: FIRST_SECOND - LAST_SECOND - 1, nanos: 0 }));
    match clock.now() {
        Err(error) => assert_eq!(error.message(), "Time error: Simulated time is out of range"),
        Ok(_) => panic!("expected an error"),
    }
    match clock.set_time_scale(TimeScale::Fixed) {
        Err(error) => assert_eq!(error.message(), "Time error: Simulated time is out of range"),
        Ok(_) => panic!("expected an error"),
    }
}

#[test]
fn fixed_clocks_move_only_when_told_to() {
    let real = at(1_700_000_000, 0);
    let mut clock = ExchangeClock::started(Some(at(100, 900_000_000)), real);
    clock.set_time_scale_at(TimeScale::Fixed, real).unwrap();
    assert_eq!(clock.update_time_at(at(1_800_000_000, 0)).unwrap(), at(100, 900_000_000));
    clock.advance_time(TimeSpan { secs: 5, nanos: 200_000_000 }).unwrap();
    assert_eq!(clock.now().unwrap(), at(106, 100_000_000));
    clock.advance_time(span(TimeDelta::milliseconds(-6_200))).unwrap();
    assert_eq!(clock.now().unwrap(), at(99, 900_000_000));
    clock.set_time(at(7, 0)).unwrap();
    assert_eq!(clock.now().unwrap(), at(7, 0));
}

#[test]
fn leap_seconds_are_counted_as_chrono_counts_them() {
    // The last second of 2016 was a leap second
    let leap = at(1_483_228_799, 1_300_000_000);
    for millis in [0, 500, 700, 800, 10_000, -200, -500, -999, -1_000, -10_000, 86_400_000] {
        let delta = TimeDelta::milliseconds(millis);
        let mut clock = ExchangeClock::started(Some(leap), at(1_700_000_000, 0));
        clock.advance_time(span(delta)).unwrap();
        clock.set_time_scale_at(TimeScale::Fixed, at(1_700_000_000, 0)).unwrap();
        // Setting the scale brought a running clock back to its start
        assert_eq!(clock.now().unwrap(), leap);
        clock.advance_time(span(delta)).unwrap();
        assert_eq!(clock.now().unwrap(), stamp(date(leap) + delta));
    }
}

#[test]
fn large_scales_stay_positive() {
    let real = at(1_700_000_000, 0);
    let scale = i32::MAX as u32 + 1;
    let back = span(TimeDelta::milliseconds(-5_000_000));
    let mut clock = ExchangeClock::started(None, real);
    clock.set_time_scale_at(TimeScale::Slow(scale), real).unwrap();
    assert_eq!(
        sleep_sim(&mut clock, TimeSpan { secs: 0, nanos: 3 }).unwrap(),
        Some(3 * 2_147_483_648)
    );
    let mut clock = ExchangeClock::started(None, real);
    clock.set_time_scale_at(TimeScale::Fast(scale), real).unwrap();
    assert_eq!(
        sleep_sim(&mut clock, TimeSpan { secs: 5_000, nanos: 999_999_999 }).unwrap(),
        Some(2_328)
    );
    // Negative lengths are read without their sign
    assert_eq!(sleep_sim(&mut clock, back).unwrap(), Some(u64::MAX - 2_327));
}

#[test]
fn clocks_that_start_in_a_leap_second_keep_pace() {
    let leap = at(1_483_228_799, 1_300_000_000);
    let real = at(1_700_000_000, 0);
    for (scale, times) in [(TimeScale::Normal, 1), (TimeScale::Fast(3), 3)] {
        let mut clock = ExchangeClock::started(Some(leap), real);
        clock.set_time_scale_at(scale, real).unwrap();
        for (first, second) in [(0, 100), (100, 400), (500, 300), (900, 5_000)] {
            let earlier = date(real) + TimeDelta::milliseconds(first);
            let later = earlier + TimeDelta::milliseconds(second);
            let start = clock.update_time_at(stamp(earlier)).unwrap();
            let end = clock.update_time_at(stamp(later)).unwrap();
            assert_eq!(stamp(date(start) + TimeDelta::milliseconds(times * second)), end);
        }
    }
}

#[test]
fn sleeps_are_scaled() {
    let real = at(1_700_000_000, 0);
    let duration = TimeSpan { secs: 3, nanos: 500_000_000 };
    let cases = vec![
        (TimeScale::Normal, Some(3_500_000_000)),
        (TimeScale::Fast(7), Some(499_999_999)),
        (TimeScale::Slow(2), Some(7_000_000_000)),
        (TimeScale::Fixed, None),
    ];
    for (scale, expected) in cases {
        let mut clock = ExchangeClock::started(Some(at(0, 0)), real);
        clock.set_time_scale_at(scale, real).unwrap();
        assert!(clock.can_sleep(duration));
        assert_eq!(sleep_sim(&mut clock, duration).unwrap(), expected);
    }
    let mut clock = ExchangeClock::started(Some(at(0, 0)), real);
    clock.set_time_scale_at(TimeScale::Fixed, real).unwrap();
    sleep_sim(&mut clock, duration).unwrap();
    assert_eq!(clock.now().unwrap(), at(3, 500_000_000));

    // Lengths that are too long take no time, and negative ones very long
    let mut clock = ExchangeClock::started(None, real);
    let long = TimeSpan { secs: 10_000_000_000, nanos: 0 };
    assert_eq!(sleep_sim(&mut clock, long).unwrap(), Some(0));
    let back = span(TimeDelta::nanoseconds(-1));
    assert_eq!(sleep_sim(&mut clock, back).unwrap(), Some(u64::MAX));

    clock.set_time_scale_at(TimeScale::Fast(0), real).unwrap();
    assert!(!clock.can_sleep(duration));
    clock.set_time_scale_at(TimeScale::Slow(i32::MAX as u32), real).unwrap();
    assert!(clock.can_sleep(duration));
    assert!(!clock.can_sleep(span(TimeDelta::MAX)));
}
