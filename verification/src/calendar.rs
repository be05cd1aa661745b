//! Points in time, and what the `chrono` crate does with them.

use chrono::{DateTime, TimeDelta, Utc};
use vstd::prelude::*;

verus! {

/// A point in time: whole seconds since the start of 1970 in UTC, and the
/// nanoseconds since then. The nanoseconds reach beyond a second only inside a
/// leap second.
#[derive(Debug, Clone, Copy, PartialEq, Eq, Structural)]
pub struct Timestamp {
    pub secs: i64,
    pub nanos: u32,
}

/// A length of time, negative where it leads back: whole seconds, rounded down,
/// and the nanoseconds beyond them.
#[derive(Debug, Clone, Copy, PartialEq, Eq, Structural)]
pub struct TimeSpan {
    pub secs: i64,
    pub nanos: u32,
}

/// The first second of the year -262143, where `chrono` begins to count.
pub const FIRST_SECOND: i64 = -8_334_601_228_800;

/// The last second of the year 262142, where `chrono` ceases to count.
pub const LAST_SECOND: i64 = 8_210_266_876_799;

/// Division that rounds towards zero.
pub open spec fn truncated_quotient(a: int, b: int) -> int {
    if a >= 0 {
        a / b
    } else {
        -((-a) / b)
    }
}

impl TimeSpan {
    /// The length in nanoseconds.
    pub open spec fn total(self) -> int {
        self.secs * 1_000_000_000 + self.nanos
    }

    /// Whether `chrono` has such a length of time: up to `i64::MAX` milliseconds
    /// either way.
    pub open spec fn is_valid(self) -> bool {
        &&& self.nanos < 1_000_000_000
        &&& -(i64::MAX * 1_000_000) <= self.total() <= i64::MAX * 1_000_000
    }

    /// The length in nanoseconds, divided by `divisor`: seconds and nanoseconds are
    /// divided apart, each quotient rounded towards zero.
    pub open spec fn quotient(self, divisor: int) -> int {
        let whole = truncated_quotient(self.secs as int, divisor);
        let carry = self.secs - whole * divisor;
        whole * 1_000_000_000 + truncated_quotient(self.nanos as int, divisor)
            + truncated_quotient(carry * 1_000_000_000, divisor)
    }
}

impl TimeSpan {
    /// Whether `chrono` has such a length of time.
    pub fn in_range(&self) -> (valid: bool)
        ensures
            valid == self.is_valid(),
    {
        let total: i128 = self.secs as i128 * 1_000_000_000 + self.nanos as i128;
        let limit: i128 = i64::MAX as i128 * 1_000_000;
        self.nanos < 1_000_000_000 && -limit <= total && total <= limit
    }
}

impl Timestamp {
    /// The nanoseconds since the start of 1970.
    pub open spec fn total(self) -> int {
        self.secs * 1_000_000_000 + self.nanos
    }

    /// Whether `chrono` has such a point in time: within its years, and inside a
    /// leap second only at the end of a minute.
    pub open spec fn is_valid(self) -> bool {
        &&& FIRST_SECOND <= self.secs <= LAST_SECOND
        &&& self.nanos < 1_000_000_000 || (self.nanos < 2_000_000_000 && self.secs % 60 == 59)
    }

    /// The UTC day that this point falls on, counted from the start of 1970.
    pub open spec fn day(self) -> int {
        self.secs as int / 86_400
    }

    /// Whether this point falls on a later UTC day than `other`.
    pub fn is_on_later_day(&self, other: &Timestamp) -> (later: bool)
        ensures
            later == (self.day() > other.day()),
    {
        day_of(self.secs) > day_of(other.secs)
    }

    /// Whether the system clock can read so: not before 1970, and not inside a leap
    /// second.
    pub open spec fn is_reading(self) -> bool {
        &&& self.is_valid()
        &&& 0 <= self.secs
        &&& self.nanos < 1_000_000_000
    }

    /// The point in time that lies `span` nanoseconds on, if `chrono` has it. The
    /// only leap second that is ever counted is the one that this point lies in.
    pub open spec fn plus(self, span: int) -> Option<Timestamp> {
        let in_leap = self.nanos >= 1_000_000_000;
        if in_leap && -1_000_000_000 < span && self.nanos + span < 2_000_000_000 {
            Some(Timestamp { secs: self.secs, nanos: (self.nanos + span) as u32 })
        } else {
            let moved = if in_leap && span > 0 {
                self.total() - 1_000_000_000 + span
            } else {
                self.total() + span
            };
            if FIRST_SECOND <= moved / 1_000_000_000 <= LAST_SECOND {
                Some(
                    Timestamp {
                        secs: (moved / 1_000_000_000) as i64,
                        nanos: (moved % 1_000_000_000) as u32,
                    },
                )
            } else {
                None
            }
        }
    }

    /// Whether this point comes before `other`.
    pub open spec fn before(self, other: Timestamp) -> bool {
        self.secs < other.secs || (self.secs == other.secs && self.nanos < other.nanos)
    }

    /// Whether this point comes before `other`.
    pub fn is_before(&self, other: &Timestamp) -> (earlier: bool)
        ensures
            earlier == self.before(*other),
    {
        self.secs < other.secs || (self.secs == other.secs && self.nanos < other.nanos)
    }
}

/// The day that a second falls on, counted from the start of 1970.
fn day_of(secs: i64) -> (day: i64)
    ensures
        day == secs as int / 86_400,
{
    if secs >= 0 {
        (secs as u64 / 86_400) as i64
    } else {
        -1 - ((-(secs + 1)) as u64 / 86_400) as i64
    }
}

/// The length of time of whole seconds and the nanoseconds beyond them, which may
/// be negative.
fn span_of(parts: (i64, i32)) -> (span: TimeSpan)
    requires
        -1_000_000_000 < parts.1 < 1_000_000_000,
        parts.1 < 0 ==> parts.0 > i64::MIN,
    ensures
        span.nanos < 1_000_000_000,
        span.total() == parts.0 * 1_000_000_000 + parts.1,
{
    if parts.1 < 0 {
        TimeSpan { secs: parts.0 - 1, nanos: (parts.1 + 1_000_000_000) as u32 }
    } else {
        TimeSpan { secs: parts.0, nanos: parts.1 as u32 }
    }
}

/// `DateTime::signed_duration_since`: the time from one point, outside any leap
/// second, to another, in whole seconds and the nanoseconds beyond them, both of
/// the same sign.
#[verifier::external_body]
fn parts_between(from: Timestamp, to: Timestamp) -> (parts: (i64, i32))
    requires
        from.is_valid() && from.nanos < 1_000_000_000,
        to.is_valid() && to.nanos < 1_000_000_000,
    ensures
        -1_000_000_000 < parts.1 < 1_000_000_000,
        parts.0 * 1_000_000_000 + parts.1 == to.total() - from.total(),
{
    let start = DateTime::from_timestamp(from.secs, from.nanos).unwrap();
    let end = DateTime::from_timestamp(to.secs, to.nanos).unwrap();
    let span = end.signed_duration_since(start);
    (span.num_seconds(), span.subsec_nanos())
}

/// `TimeDelta::checked_mul`: `factor` times a length of time, in whole seconds and
/// the nanoseconds beyond them. There is none where the seconds, rounded down, do
/// not lie strictly between the bounds of `i64`.
#[verifier::external_body]
fn parts_multiplied(span: TimeSpan, factor: i32) -> (parts: Option<(i64, i32)>)
    requires
        span.is_valid(),
    ensures
        parts is Some <==> i64::MIN < (span.total() * factor) / 1_000_000_000 < i64::MAX,
        parts matches Some(found) ==> -1_000_000_000 < found.1 < 1_000_000_000 && found.0
            * 1_000_000_000 + found.1 == span.total() * factor,
{
    let product = TimeDelta::new(span.secs, span.nanos).unwrap().checked_mul(factor);
    product.map(|found| (found.num_seconds(), found.subsec_nanos()))
}

/// `TimeDelta::checked_div`: a length of time divided by `divisor`, in whole
/// seconds and the nanoseconds beyond them. There is none where `divisor` is 0.
#[verifier::external_body]
fn parts_divided(span: TimeSpan, divisor: i32) -> (parts: Option<(i64, i32)>)
    requires
        span.is_valid(),
    ensures
        parts is Some <==> divisor != 0,
        parts matches Some(found) ==> -1_000_000_000 < found.1 < 1_000_000_000 && found.0
            * 1_000_000_000 + found.1 == span.quotient(divisor as int),
{
    let quotient = TimeDelta::new(span.secs, span.nanos).unwrap().checked_div(divisor);
    quotient.map(|found| (found.num_seconds(), found.subsec_nanos()))
}

/// `TimeDelta::num_nanoseconds`: a length of time in nanoseconds, if an `i64` can
/// hold them.
#[verifier::external_body]
fn nanoseconds(span: TimeSpan) -> (nanos: Option<i64>)
    requires
        span.is_valid(),
    ensures
        nanos is Some <==> i64::MIN <= span.total() <= i64::MAX,
        nanos matches Some(found) ==> found == span.total(),
{
    TimeDelta::new(span.secs, span.nanos).unwrap().num_nanoseconds()
}

/// `DateTime::checked_add_signed`: the point in time that lies a length of time
/// on, if there is one.
#[verifier::external_body]
fn moved(time: Timestamp, span: TimeSpan) -> (later: Option<Timestamp>)
    requires
        time.is_valid(),
        span.is_valid(),
    ensures
        later == time.plus(span.total()),
{
    let start = DateTime::from_timestamp(time.secs, time.nanos).unwrap();
    let end = start.checked_add_signed(TimeDelta::new(span.secs, span.nanos).unwrap());
    end.map(|found| Timestamp { secs: found.timestamp(), nanos: found.timestamp_subsec_nanos() })
}

/// Reads the system clock with `chrono::Utc::now`. The reading is what the
/// machine says; it is never inside a leap second and never before 1970.
#[verifier::external_body]
pub(crate) fn utc_now() -> (now: Timestamp)
    ensures
        now.is_reading(),
{
    let now = Utc::now();
    Timestamp { secs: now.timestamp(), nanos: now.timestamp_subsec_nanos() }
}

/// The length of time from one reading of the clock to another.
pub(crate) fn time_between(from: Timestamp, to: Timestamp) -> (span: TimeSpan)
    requires
        from.is_reading(),
        to.is_reading(),
    ensures
        span.is_valid(),
        span.total() == to.total() - from.total(),
{
    span_of(parts_between(from, to))
}

/// `factor` times a length of time, if there is such a length. `chrono` multiplies
/// by factors that an `i32` can hold.
pub(crate) fn multiplied(span: TimeSpan, factor: u32) -> (product: Option<TimeSpan>)
    requires
        span.is_valid(),
    ensures
        product is Some <==> i64::MIN < (span.total() * factor) / 1_000_000_000 < i64::MAX,
        product matches Some(found) ==> found.nanos < 1_000_000_000 && found.total()
            == span.total() * factor,
{
    if factor <= 0x7fff_ffff {
        match parts_multiplied(span, factor as i32) {
            Some(parts) => Some(span_of(parts)),
            None => None,
        }
    } else {
        let total: i128 = span.secs as i128 * 1_000_000_000 + span.nanos as i128;
        proof {
            let limit = i64::MAX * 1_000_000;
            assert(-limit * 0xffff_ffff <= total * factor <= limit * 0xffff_ffff)
                by (nonlinear_arith)
                requires
                    -limit <= total <= limit,
                    0 <= factor <= 0xffff_ffff,
            ;
        }
        span_of_total(total * factor as i128)
    }
}

/// The length of time of so many nanoseconds, if its seconds, rounded down, lie
/// strictly between the bounds of `i64`.
fn span_of_total(total: i128) -> (span: Option<TimeSpan>)
    ensures
        span is Some <==> i64::MIN < total as int / 1_000_000_000 < i64::MAX,
        span matches Some(found) ==> found.nanos < 1_000_000_000 && found.total() == total,
{
    let secs: i128 = if total >= 0 {
        (total as u128 / 1_000_000_000) as i128
    } else {
        -1 - ((-(total + 1)) as u128 / 1_000_000_000) as i128
    };
    if secs <= i64::MIN as i128 || secs >= i64::MAX as i128 {
        return None;
    }
    Some(TimeSpan { secs: secs as i64, nanos: (total - secs * 1_000_000_000) as u32 })
}

/// A length of time divided by `divisor`, if that is not 0. `chrono` divides by
/// divisors that an `i32` can hold.
pub(crate) fn divided(span: TimeSpan, divisor: u32) -> (quotient: Option<TimeSpan>)
    requires
        span.is_valid(),
    ensures
        quotient is Some <==> divisor != 0,
        quotient matches Some(found) ==> found.nanos < 1_000_000_000 && found.total()
            == span.quotient(divisor as int),
{
    if divisor <= 0x7fff_ffff {
        match parts_divided(span, divisor as i32) {
            Some(parts) => {
                proof {
                    lemma_quotient_bounded(span, divisor as int);
                }
                Some(span_of(parts))
            },
            None => None,
        }
    } else {
        divided_by_large(span, divisor)
    }
}

/// A length of time divided by a divisor that is too large for an `i32`. It is
/// larger than any number of nanoseconds beyond the seconds, too.
fn divided_by_large(span: TimeSpan, divisor: u32) -> (quotient: Option<TimeSpan>)
    requires
        span.is_valid(),
        divisor > 0x7fff_ffff,
    ensures
        quotient matches Some(found) && found.nanos < 1_000_000_000 && found.total()
            == span.quotient(divisor as int),
{
    let negative = span.secs < 0;
    let secs: u64 = if negative {
        (-(span.secs as i128)) as u64
    } else {
        span.secs as u64
    };
    let whole: u64 = secs / divisor as u64;
    let carry: u64 = secs % divisor as u64;
    let extra: u64 = carry * 1_000_000_000 / divisor as u64;
    let size: i128 = whole as i128 * 1_000_000_000 + extra as i128;
    proof {
        let d = divisor as int;
        lemma_quotient_bounded(span, d);
        vstd::arithmetic::div_mod::lemma_fundamental_div_mod(secs as int, d);
        lemma_quotient_of_natural(span.nanos as int, d);
        assert(span.nanos as int / d == 0) by (nonlinear_arith)
            requires
                0 <= span.nanos < d,
        ;
        assert((-(whole as int)) * d == -(d * whole)) by (nonlinear_arith);
        assert(whole * d == d * whole) by (nonlinear_arith);
        if negative {
            assert(truncated_quotient(span.secs as int, d) == -whole);
            assert(span.secs - (-whole) * d == -carry);
            if carry == 0 {
                assert(0int / d == 0) by (nonlinear_arith)
                    requires
                        d > 0,
                ;
            }
            assert(truncated_quotient((-carry) * 1_000_000_000, d) == -extra);
        } else {
            assert(truncated_quotient(span.secs as int, d) == whole);
            assert(truncated_quotient(carry * 1_000_000_000, d) == extra);
        }
    }
    span_of_total(
        if negative {
            -size
        } else {
            size
        },
    )
}

/// A quotient of a number that is not negative is no greater than it, and what is
/// left over is less than the divisor.
proof fn lemma_quotient_of_natural(a: int, b: int)
    by (nonlinear_arith)
    requires
        a >= 0,
        b != 0,
    ensures
        -a <= a / b <= a,
        0 <= a - (a / b) * b < (if b > 0 {
            b
        } else {
            -b
        }),
{
}

/// A quotient is not much longer than what was divided.
proof fn lemma_quotient_bounded(span: TimeSpan, divisor: int)
    requires
        span.is_valid(),
        0 < divisor <= u32::MAX,
    ensures
        -10_000_000_000_000_000_000_000_000 <= span.quotient(divisor)
            <= 10_000_000_000_000_000_000_000_000,
{
    let secs = span.secs as int;
    let whole = truncated_quotient(secs, divisor);
    let carry = secs - whole * divisor;
    if secs >= 0 {
        lemma_quotient_of_natural(secs, divisor);
    } else {
        lemma_quotient_of_natural(-secs, divisor);
        assert((-((-secs) / divisor)) * divisor == -(((-secs) / divisor) * divisor))
            by (nonlinear_arith);
    }
    lemma_quotient_of_natural(span.nanos as int, divisor);
    if carry >= 0 {
        lemma_quotient_of_natural(carry * 1_000_000_000, divisor);
    } else {
        lemma_quotient_of_natural(-(carry * 1_000_000_000), divisor);
    }
}

/// The point in time that lies a length of time on, if there is one.
pub(crate) fn time_after(time: Timestamp, span: TimeSpan) -> (later: Option<Timestamp>)
    requires
        time.is_valid(),
        span.nanos < 1_000_000_000,
    ensures
        later == time.plus(span.total()),
        later matches Some(found) ==> found.is_valid(),
{
    if span.in_range() {
        moved(time, span)
    } else {
        None
    }
}

/// A length of time in nanoseconds, if an `i64` can hold them.
pub(crate) fn whole_nanoseconds(span: TimeSpan) -> (nanos: Option<i64>)
    requires
        span.nanos < 1_000_000_000,
    ensures
        nanos is Some <==> i64::MIN <= span.total() <= i64::MAX,
        nanos matches Some(found) ==> found == span.total(),
{
    if span.in_range() {
        nanoseconds(span)
    } else {
        None
    }
}

} // verus!
