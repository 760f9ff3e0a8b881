//! Wall-clock timestamps, signed second-granularity durations, and the
//! calendar intervals used to bucket records.

use vstd::prelude::*;

use chrono::Datelike;

use crate::err::Error;
use crate::text::{lower_eq, str_eq_ignore_case, chars_eq_ignore_case};

verus! {

/// A calendar interval at which records are grouped.
#[derive(Clone, Copy, Debug, PartialEq, Eq, Structural)]
pub enum Interval {
    Second,
    Minute,
    Hour,
    Day,
    Week,
    Month,
    Year,
}

/// The interval named by a token, up to ASCII case; `None` for any other
/// token. `Second` has no token: it is never selected from input.
pub open spec fn interval_token(s: Seq<char>) -> Option<Interval> {
    if lower_eq(s, "min"@) || lower_eq(s, "m"@) {
        Some(Interval::Minute)
    } else if lower_eq(s, "hour"@) || lower_eq(s, "h"@) {
        Some(Interval::Hour)
    } else if lower_eq(s, "day"@) || lower_eq(s, "d"@) {
        Some(Interval::Day)
    } else if lower_eq(s, "week"@) || lower_eq(s, "w"@) {
        Some(Interval::Week)
    } else if lower_eq(s, "month"@) {
        Some(Interval::Month)
    } else if lower_eq(s, "year"@) {
        Some(Interval::Year)
    } else {
        None
    }
}

impl Interval {
    /// Parse an interval token, case-insensitively.
    pub fn try_from_str(s: &str) -> (r: Result<Interval, Error>)
        ensures
            match interval_token(s@) {
                Some(iv) => r == Ok::<Interval, Error>(iv),
                None => r == Err::<Interval, Error>(Error::InvalidTimeInterval),
            },
    {
        if str_eq_ignore_case(s, "min") || str_eq_ignore_case(s, "m") {
            Ok(Interval::Minute)
        } else if str_eq_ignore_case(s, "hour") || str_eq_ignore_case(s, "h") {
            Ok(Interval::Hour)
        } else if str_eq_ignore_case(s, "day") || str_eq_ignore_case(s, "d") {
            Ok(Interval::Day)
        } else if str_eq_ignore_case(s, "week") || str_eq_ignore_case(s, "w") {
            Ok(Interval::Week)
        } else if str_eq_ignore_case(s, "month") {
            Ok(Interval::Month)
        } else if str_eq_ignore_case(s, "year") {
            Ok(Interval::Year)
        } else {
            Err(Error::InvalidTimeInterval)
        }
    }

    /// Parse an interval token held as characters, case-insensitively.
    pub fn try_from_chars(v: &Vec<char>) -> (r: Result<Interval, Error>)
        ensures
            match interval_token(v@) {
                Some(iv) => r == Ok::<Interval, Error>(iv),
                None => r == Err::<Interval, Error>(Error::InvalidTimeInterval),
            },
    {
        if chars_eq_ignore_case(v, "min") || chars_eq_ignore_case(v, "m") {
            Ok(Interval::Minute)
        } else if chars_eq_ignore_case(v, "hour") || chars_eq_ignore_case(v, "h") {
            Ok(Interval::Hour)
        } else if chars_eq_ignore_case(v, "day") || chars_eq_ignore_case(v, "d") {
            Ok(Interval::Day)
        } else if chars_eq_ignore_case(v, "week") || chars_eq_ignore_case(v, "w") {
            Ok(Interval::Week)
        } else if chars_eq_ignore_case(v, "month") {
            Ok(Interval::Month)
        } else if chars_eq_ignore_case(v, "year") {
            Ok(Interval::Year)
        } else {
            Err(Error::InvalidTimeInterval)
        }
    }
}

impl Default for Interval {
    fn default() -> (r: Self)
        ensures
            r == Interval::Day,
    {
        Interval::Day
    }
}

/// An instant with local-time calendar semantics, held as plain values: the
/// Unix epoch second together with the calendar fields the bucket keys read.
/// The calendar fields are whatever the wall clock (or the caller) derived
/// for the instant's local time zone; the library never recomputes them.
#[derive(Clone, Copy, Debug, PartialEq, Eq, Structural)]
pub struct Timestamp {
    /// Seconds since the Unix epoch.
    pub epoch: u32,
    /// Calendar year, e.g. `2024`.
    pub year: u16,
    /// Calendar month, `1..=12`.
    pub month: u8,
    /// Day of the month, `1..=31`.
    pub day: u8,
    /// ISO week number within the year, `1..=53`.
    pub week: u8,
}

impl Timestamp {
    /// The bucket key of this instant for `interval`: two timestamps share a
    /// key exactly when they fall in the same calendar bucket. Day, week and
    /// month keys are composites over the year so that keys never collide
    /// across years.
    pub open spec fn interval_key(self, interval: Interval) -> int {
        match interval {
            Interval::Second => self.epoch as int,
            Interval::Minute => self.epoch as int / 60,
            Interval::Hour => self.epoch as int / 3600,
            Interval::Day => self.year * 10000 + self.month * 100 + self.day,
            Interval::Week => self.year * 100 + self.week,
            Interval::Month => self.year * 100 + self.month,
            Interval::Year => self.year as int,
        }
    }

    /// Project this instant onto the integer key of its `interval` bucket.
    pub fn floor_to_interval_units(&self, interval: Interval) -> (k: u32)
        ensures
            k == self.interval_key(interval),
    {
        match interval {
            Interval::Second => self.epoch,
            Interval::Minute => self.epoch / 60,
            Interval::Hour => self.epoch / 3600,
            Interval::Day => (self.year as u32) * 10000 + (self.month as u32) * 100 + (self.day as u32),
            Interval::Week => (self.year as u32) * 100 + (self.week as u32),
            Interval::Month => (self.year as u32) * 100 + (self.month as u32),
            Interval::Year => self.year as u32,
        }
    }

    /// A valid calendar reading: months count from 1 to 12, days from 1
    /// to 31, ISO weeks from 1 to 53.
    pub open spec fn calendar_valid(self) -> bool {
        &&& 1 <= self.month <= 12
        &&& 1 <= self.day <= 31
        &&& 1 <= self.week <= 53
    }

    /// The current wall-clock instant.
    ///
    /// Relies on `chrono::Local::now` and chrono's `Datelike` accessors
    /// (`year`, `month`, `day`, `iso_week`) and `DateTime::timestamp` to
    /// read the clock and derive the local calendar fields. Nothing is
    /// assumed of the result: callers must hold for every instant.
    #[verifier::external_body]
    pub fn now() -> (t: Timestamp) {
        let n = chrono::Local::now();
        Timestamp {
            epoch: n.timestamp() as u32,
            year: n.year() as u16,
            month: n.month() as u8,
            day: n.day() as u8,
            week: n.iso_week().week() as u8,
        }
    }
}

/// The composite calendar keys never collide across years: two valid
/// calendar readings share a day, week or month key only when they agree
/// on every field the key is built from. The same week number in two
/// different years, for instance, names two distinct buckets.
pub proof fn lemma_calendar_keys_separate_years(a: Timestamp, b: Timestamp)
    requires
        a.calendar_valid(),
        b.calendar_valid(),
    ensures
        a.interval_key(Interval::Day) == b.interval_key(Interval::Day) ==> (a.year == b.year
            && a.month == b.month && a.day == b.day),
        a.interval_key(Interval::Week) == b.interval_key(Interval::Week) ==> (a.year == b.year
            && a.week == b.week),
        a.interval_key(Interval::Month) == b.interval_key(Interval::Month) ==> (a.year == b.year
            && a.month == b.month),
{
}

/// A signed span between two instants, in whole seconds.
#[derive(Clone, Copy, Debug, PartialEq, Eq, Structural)]
pub struct Duration(pub i64);

/// The sum, in seconds, of a sequence of durations.
pub open spec fn sum_seconds(s: Seq<Duration>) -> int
    decreases s.len(),
{
    if s.len() == 0 {
        0
    } else {
        sum_seconds(s.drop_last()) + s.last().0
    }
}

/// A sum of durations is bounded by the count times a per-element bound.
pub proof fn lemma_sum_seconds_bound(s: Seq<Duration>, c: int)
    requires
        c >= 0,
        forall|i: int| 0 <= i < s.len() ==> -c <= (#[trigger] s[i]).0 <= c,
    ensures
        -(s.len() as int) * c <= sum_seconds(s) <= (s.len() as int) * c,
    decreases s.len(),
{
    if s.len() == 0 {
        assert((0int) * c == 0) by (nonlinear_arith);
    } else {
        let m = s.drop_last().len() as int;
        assert forall|i: int| 0 <= i < s.drop_last().len() implies -c <= (
        #[trigger] s.drop_last()[i]).0 <= c by {
            assert(s.drop_last()[i] == s[i]);
        }
        lemma_sum_seconds_bound(s.drop_last(), c);
        assert(-c <= s.last().0 <= c);
        assert(sum_seconds(s) == sum_seconds(s.drop_last()) + s.last().0);
        assert(-m * c <= sum_seconds(s.drop_last()) <= m * c);
        assert((m + 1) * c == m * c + c) by (nonlinear_arith);
        assert((-(m + 1)) * c == -m * c - c) by (nonlinear_arith);
        assert(s.len() as int == m + 1);
    }
}

/// Signed division truncating toward zero, for `b > 0`.
pub open spec fn div_toward_zero(a: int, b: int) -> int {
    if a >= 0 {
        a / b
    } else {
        -((-a) / b)
    }
}

impl Duration {
    /// A duration of exactly `seconds` seconds.
    pub fn from_seconds(seconds: i64) -> (d: Duration)
        ensures
            d.0 == seconds,
    {
        Duration(seconds)
    }

    /// This duration in whole seconds.
    pub fn in_seconds(&self) -> (s: i64)
        ensures
            s == self.0,
    {
        self.0
    }

    /// The span from `from` to `to`; negative when `to` precedes `from`.
    pub fn between(from: Timestamp, to: Timestamp) -> (d: Duration)
        ensures
            d.0 == to.epoch - from.epoch,
    {
        Duration(to.epoch as i64 - from.epoch as i64)
    }

    pub fn one_minute() -> (d: Duration)
        ensures
            d.0 == 60,
    {
        Duration(60)
    }

    pub fn one_hour() -> (d: Duration)
        ensures
            d.0 == 3600,
    {
        Duration(3600)
    }

    /// Split a non-negative duration into whole hours, leftover minutes
    /// and leftover seconds, for display.
    pub fn hms(&self) -> (t: (i64, i64, i64))
        requires
            self.0 >= 0,
        ensures
            t.0 == self.0 as int / 3600,
            t.1 == (self.0 as int % 3600) / 60,
            t.2 == self.0 as int % 60,
            0 <= t.1 < 60,
            0 <= t.2 < 60,
            t.0 * 3600 + t.1 * 60 + t.2 == self.0,
    {
        let total: u64 = self.0 as u64;
        let h: u64 = total / 3600;
        let m: u64 = (total % 3600) / 60;
        let s: u64 = total % 60;
        proof {
            let x = self.0 as int;
            vstd::arithmetic::div_mod::lemma_mod_division_less_than_divisor(x, 3600);
            vstd::arithmetic::div_mod::lemma_mod_division_less_than_divisor(x % 3600, 60);
            vstd::arithmetic::div_mod::lemma_mod_division_less_than_divisor(x, 60);
            vstd::arithmetic::div_mod::lemma_fundamental_div_mod(x, 3600);
            vstd::arithmetic::div_mod::lemma_fundamental_div_mod(x % 3600, 60);
            vstd::arithmetic::div_mod::lemma_mod_mod(x, 60, 60);
            assert(x % 3600 % 60 == x % 60) by {
                vstd::arithmetic::div_mod::lemma_mod_breakdown(x, 60, 60);
            }
            assert(x / 3600 <= x) by {
                vstd::arithmetic::div_mod::lemma_div_nonincreasing(x, 3600);
            }
        }
        (h as i64, m as i64, s as i64)
    }

    /// The sum of `items`; the empty collection sums to the zero duration.
    pub fn sum(items: &Vec<Duration>) -> (d: Duration)
        requires
            forall|i: int|
                0 <= i <= items@.len() ==> -0x7FFF_FFFF_FFFF_FFFF <= sum_seconds(#[trigger] items@.take(i))
                    <= 0x7FFF_FFFF_FFFF_FFFF,
        ensures
            d.0 == sum_seconds(items@),
    {
        let mut acc: i64 = 0;
        let mut i: usize = 0;
        while i < items.len()
            invariant
                0 <= i <= items@.len(),
                acc == sum_seconds(items@.take(i as int)),
                forall|j: int|
                    0 <= j <= items@.len() ==> -0x7FFF_FFFF_FFFF_FFFF <= sum_seconds(
                        #[trigger] items@.take(j),
                    ) <= 0x7FFF_FFFF_FFFF_FFFF,
            decreases items@.len() - i,
        {
            proof {
                assert(items@.take(i + 1).drop_last() =~= items@.take(i as int));
                assert(items@.take(i + 1).last() == items@[i as int]);
            }
            acc = acc + items[i].0;
            i += 1;
        }
        proof {
            assert(items@.take(items@.len() as int) =~= items@);
        }
        Duration(acc)
    }

    /// The arithmetic mean of `items`, truncated toward zero; the caller
    /// must guarantee a non-empty collection.
    pub fn mean(items: &Vec<Duration>) -> (d: Duration)
        requires
            items@.len() > 0,
            forall|i: int|
                0 <= i <= items@.len() ==> -0x7FFF_FFFF_FFFF_FFFF <= sum_seconds(#[trigger] items@.take(i))
                    <= 0x7FFF_FFFF_FFFF_FFFF,
        ensures
            d.0 == div_toward_zero(sum_seconds(items@), items@.len() as int),
    {
        let total = Duration::sum(items);
        proof {
            assert(items@.take(items@.len() as int) =~= items@);
            assert(-0x7FFF_FFFF_FFFF_FFFF <= total.0 <= 0x7FFF_FFFF_FFFF_FFFF);
        }
        let n: u64 = items.len() as u64;
        if total.0 >= 0 {
            let q: u64 = (total.0 as u64) / n;
            proof {
                vstd::arithmetic::div_mod::lemma_div_nonincreasing(total.0 as int, n as int);
                vstd::arithmetic::div_mod::lemma_div_pos_is_pos(total.0 as int, n as int);
            }
            Duration(q as i64)
        } else {
            let a: i64 = -total.0;
            let q: u64 = (a as u64) / n;
            proof {
                vstd::arithmetic::div_mod::lemma_div_nonincreasing(a as int, n as int);
                vstd::arithmetic::div_mod::lemma_div_pos_is_pos(a as int, n as int);
            }
            Duration(-(q as i64))
        }
    }
}

} // verus!
