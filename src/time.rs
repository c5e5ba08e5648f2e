use chrono::TimeZone;
use chrono::Utc;

use vstd::arithmetic::div_mod::{lemma_fundamental_div_mod, lemma_fundamental_div_mod_converse};
use vstd::prelude::*;

use crate::csv::{parse_u32, unsigned_spec, CSVFile};

verus! {

// Instants are seconds since 1970-01-01 00:00 UTC; dates are day numbers,
// day 0 being 1970-01-01.
/// Seconds in a day.
pub const SECONDS_PER_DAY: i64 = 86400;

/// Seconds in a week.
pub const SECONDS_PER_WEEK: i64 = 604800;

/// The hour of the day, in UTC, at which the daily and weekly rotations change.
pub const ROTATION_HOUR: i64 = 16;

/// `x / d` rounded toward zero, as Rust divides integers.
pub open spec fn div_trunc(x: int, d: int) -> int {
    if x >= 0 {
        x / d
    } else {
        -((-x) / d)
    }
}

/// The remainder that goes with `div_trunc`; it has the sign of `x`.
pub open spec fn rem_trunc(x: int, d: int) -> int {
    x - d * div_trunc(x, d)
}

/// The date of instant `t`.
pub open spec fn day_of(t: int) -> int {
    t / 86400
}

/// The seconds of instant `t` since the start of its day.
pub open spec fn second_of_day(t: int) -> int {
    t % 86400
}

/// The weekday of date `day`, Monday being 0; day 0 was a Thursday.
pub open spec fn weekday_of(day: int) -> int {
    (day + 3) % 7
}

/// The instant at which the rotations change on date `day`.
pub open spec fn rotation_start(day: int) -> int {
    day * 86400 + 16 * 3600
}

/// How two spans of time relate to an instant.
#[derive(Debug, Clone, Copy, PartialOrd, PartialEq, Eq, Ord, Structural)]
pub enum DateTimeRangeComparison {
    /// The span ended before the instant.
    Before,
    /// The instant lies in the span.
    Within,
    /// The span starts after the instant.
    After,
}

/// A span of time from its first to its last instant, both included.
#[derive(Debug, Clone, Copy)]
pub struct DateTimeRange(pub i64, pub i64);

impl DateTimeRange {
    /// The span from `start` to `end`.
    pub fn new(start: i64, end: i64) -> (r: Self)
        ensures
            r.0 == start && r.1 == end,
    {
        DateTimeRange(start, end)
    }

    /// `dt` lies in the span.
    fn within(&self, dt: i64) -> (r: bool)
        ensures
            r == (self.0 <= dt && dt <= self.1),
    {
        self.0 <= dt && dt <= self.1
    }

    /// Where the span lies with respect to `dt`.
    pub fn compare(&self, dt: i64) -> (r: DateTimeRangeComparison)
        ensures
            r == if self.0 > dt {
                DateTimeRangeComparison::After
            } else if dt <= self.1 {
                DateTimeRangeComparison::Within
            } else {
                DateTimeRangeComparison::Before
            },
    {
        if self.0 > dt {
            DateTimeRangeComparison::After
        } else if self.within(dt) {
            DateTimeRangeComparison::Within
        } else {
            DateTimeRangeComparison::Before
        }
    }
}

/// When a special event runs: its position in the event table and its span.
#[derive(Debug, Clone, Copy)]
pub struct SpecialEventPeriod(pub u32, pub DateTimeRange);

impl SpecialEventPeriod {
    /// The event ended before `date`.
    pub fn before(&self, date: i64) -> (r: bool)
        ensures
            r == ((self.1).0 <= date && date > (self.1).1),
    {
        self.1.compare(date) == DateTimeRangeComparison::Before
    }

    /// The event runs at `date`.
    pub fn within(&self, date: i64) -> (r: bool)
        ensures
            r == ((self.1).0 <= date && date <= (self.1).1),
    {
        self.1.compare(date) == DateTimeRangeComparison::Within
    }

    /// The event starts after `date`.
    pub fn after(&self, date: i64) -> (r: bool)
        ensures
            r == ((self.1).0 > date),
    {
        self.1.compare(date) == DateTimeRangeComparison::After
    }
}

/// The instant that an ISO 8601 date and time with an offset (`%+`) writes,
/// if it writes one.
pub uninterp spec fn instant_of(s: Seq<char>) -> Option<i64>;

/// Relies on chrono's `TimeZone::datetime_from_str` with the `%+` format and
/// on `DateTime::timestamp`: the instant that `s` writes, in whole seconds.
#[verifier::external_body]
#[allow(deprecated)]
fn parse_instant(s: &str) -> (r: Option<i64>)
    ensures
        r == instant_of(s@),
{
    match Utc.datetime_from_str(s, "%+") {
        Ok(date) => Some(date.timestamp()),
        Err(_) => None,
    }
}

/// The period of one record of the event calendar: field 0 is the event's
/// position, 1 its start and 2 its end.
pub open spec fn period_spec(x: Seq<Seq<char>>) -> Option<(u32, i64, i64)> {
    if x.len() < 3 {
        None
    } else {
        match (unsigned_spec(x[0], u32::MAX as nat), instant_of(x[1]), instant_of(x[2])) {
            (Some(id), Some(start), Some(end)) => Some((id as u32, start, end)),
            _ => None,
        }
    }
}

/// The periods of the event calendar, in table order; `None` where a record
/// is unreadable.
pub open spec fn periods_spec(records: Seq<Seq<Seq<char>>>) -> Option<Seq<(u32, i64, i64)>>
    decreases records.len(),
{
    if records.len() == 0 {
        Some(Seq::empty())
    } else {
        match (periods_spec(records.drop_last()), period_spec(records.last())) {
            (Some(s), Some(p)) => Some(s.push(p)),
            _ => None,
        }
    }
}

proof fn lemma_periods_none(records: Seq<Seq<Seq<char>>>, i: int)
    requires
        0 <= i <= records.len(),
        periods_spec(records.take(i)) is None,
    ensures
        periods_spec(records) is None,
    decreases records.len() - i,
{
    if i < records.len() {
        assert(records.take(i + 1).drop_last() =~= records.take(i));
        lemma_periods_none(records, i + 1);
    } else {
        assert(records.take(i) =~= records);
    }
}

/// The periods of the special events that an event calendar lists.
pub fn get_special_events_time_range(csv: &CSVFile) -> (r: Option<Vec<SpecialEventPeriod>>)
    ensures
        match periods_spec(csv.records_view()) {
            Some(s) => r is Some && r->0@.len() == s.len() && forall|i: int|
                0 <= i < s.len() ==> {
                    let p = #[trigger] r->0@[i];
                    (p.0, (p.1).0, (p.1).1) == s[i]
                },
            None => r is None,
        },
{
    let records = csv.records();
    let ghost rv = csv.records_view();
    let mut events: Vec<SpecialEventPeriod> = Vec::new();
    let mut i: usize = 0;
    assert(rv.take(0) =~= Seq::<Seq<Seq<char>>>::empty());
    while i < records.len()
        invariant
            records.deep_view() == rv,
            rv == csv.records_view(),
            i <= rv.len(),
            periods_spec(rv.take(i as int)) is Some,
            events@.len() == periods_spec(rv.take(i as int))->0.len(),
            forall|j: int|
                0 <= j < events@.len() ==> {
                    let p = #[trigger] events@[j];
                    (p.0, (p.1).0, (p.1).1) == periods_spec(rv.take(i as int))->0[j]
                },
        decreases rv.len() - i,
    {
        let x = &records[i];
        assert(rv.take(i + 1).drop_last() =~= rv.take(i as int));
        assert(rv.take(i + 1).last() == rv[i as int]);
        assert(x.deep_view() == rv[i as int]);
        if x.len() < 3 {
            proof {
                lemma_periods_none(rv, i + 1);
            }
            return None;
        }
        let id = parse_u32(x[0].as_str());
        let start = parse_instant(x[1].as_str());
        let end = parse_instant(x[2].as_str());
        match (id, start, end) {
            (Some(id), Some(start), Some(end)) => {
                events.push(SpecialEventPeriod(id, DateTimeRange::new(start, end)));
            },
            _ => {
                proof {
                    lemma_periods_none(rv, i + 1);
                }
                return None;
            },
        }
        i += 1;
    }
    assert(rv.take(i as int) =~= rv);
    Some(events)
}

// ---------------------------------------------------------------------------
// Calendar arithmetic
// ---------------------------------------------------------------------------

/// `x / d` rounded toward zero.
fn quotient(x: i64, d: i64) -> (r: i64)
    requires
        d > 0,
    ensures
        r == div_trunc(x as int, d as int),
{
    if x >= 0 {
        proof {
            assert(x / d <= x) by (nonlinear_arith)
                requires
                    x >= 0,
                    d > 0,
            ;
        }
        x / d
    } else {
        let a: i128 = -(x as i128);
        let q: i128 = a / (d as i128);
        proof {
            assert(q <= a) by (nonlinear_arith)
                requires
                    a >= 0,
                    d > 0,
                    q == a / (d as i128),
            ;
            assert(q >= 0) by (nonlinear_arith)
                requires
                    a >= 0,
                    d > 0,
                    q == a / (d as i128),
            ;
        }
        (-q) as i64
    }
}

/// The remainder of `x / d` rounded toward zero; it has the sign of `x`.
fn remainder(x: i64, d: i64) -> (r: i64)
    requires
        d > 0,
    ensures
        r == rem_trunc(x as int, d as int),
{
    let q = quotient(x, d);
    proof {
        let xi = x as int;
        let di = d as int;
        let qi = q as int;
        if x >= 0 {
            lemma_fundamental_div_mod(xi, di);
            assert(di * qi == xi - xi % di);
        } else {
            let a = -xi;
            lemma_fundamental_div_mod(a, di);
            assert(di * qi == -(a - a % di)) by (nonlinear_arith)
                requires
                    qi == -(a / di),
                    a == di * (a / di) + a % di,
            ;
        }
    }
    let p: i128 = (d as i128) * (q as i128);
    ((x as i128) - p) as i64
}

/// The date of instant `t`.
fn day_of_instant(t: i64) -> (r: i64)
    ensures
        r == day_of(t as int),
{
    let q = t / SECONDS_PER_DAY;
    let rem = t % SECONDS_PER_DAY;
    if rem < 0 {
        proof {
            lemma_fundamental_div_mod_converse(t as int, 86400, q - 1, rem + 86400);
        }
        q - 1
    } else {
        proof {
            lemma_fundamental_div_mod_converse(t as int, 86400, q as int, rem as int);
        }
        q
    }
}

/// The weekday of date `day`, Monday being 0.
fn weekday(day: i64) -> (r: i64)
    ensures
        r == weekday_of(day as int),
        0 <= r < 7,
{
    let q = day / 7;
    let rem = day % 7;
    let w = if rem < 0 {
        proof {
            lemma_fundamental_div_mod_converse(day as int, 7, q - 1, rem + 7);
        }
        rem + 7
    } else {
        proof {
            lemma_fundamental_div_mod_converse(day as int, 7, q as int, rem as int);
        }
        rem
    };
    proof {
        assert((w + 3) % 7 == (day + 3) % 7) by (nonlinear_arith)
            requires
                w == day % 7,
        ;
    }
    (w + 3) % 7
}

/// The seconds of instant `t` since the start of its day.
fn second_of_day_of(t: i64) -> (r: i64)
    ensures
        r == second_of_day(t as int),
        0 <= r < 86400,
{
    let rem = t % SECONDS_PER_DAY;
    let q = t / SECONDS_PER_DAY;
    if rem < 0 {
        proof {
            lemma_fundamental_div_mod_converse(t as int, 86400, q - 1, rem + 86400);
        }
        rem + SECONDS_PER_DAY
    } else {
        proof {
            lemma_fundamental_div_mod_converse(t as int, 86400, q as int, rem as int);
        }
        rem
    }
}

/// The time from `since` to `from`, as whole days and the hours, minutes and
/// seconds left over, each rounded toward zero and negative where `from`
/// comes first.
pub fn get_time_left(from: i64, since: i64) -> (r: (i64, i64, i64, i64))
    requires
        i64::MIN <= from - since <= i64::MAX,
    ensures
        ({
            let d = from - since;
            r == (
                div_trunc(d, 86400) as i64,
                rem_trunc(div_trunc(d, 3600), 24) as i64,
                rem_trunc(div_trunc(d, 60), 60) as i64,
                rem_trunc(d, 60) as i64,
            )
        }),
{
    let d = from - since;
    let days = d / 86400;
    let hours = d / 3600 % 24;
    let mins = d / 60 % 60;
    let secs = d % 60;
    (days, hours, mins, secs)
}

/// The date on which the week after instant `now` starts: the date of `now`
/// itself where it is a Monday, else the next Monday.
pub fn get_next_week(now: i64) -> (r: i64)
    ensures
        r == if weekday_of(day_of(now as int)) == 0 {
            day_of(now as int)
        } else {
            day_of(now as int) + 7 - weekday_of(day_of(now as int))
        },
{
    let day = day_of_instant(now);
    let w = weekday(day);
    if w == 0 {
        day
    } else {
        day + 7 - w
    }
}

/// The date of the day after instant `now` that starts at `reference_hour`:
/// the date of `now` where that hour has not come yet, else the next one.
pub fn get_next_day(now: i64, reference_hour: u32) -> (r: i64)
    ensures
        r == if second_of_day(now as int) / 3600 < reference_hour {
            day_of(now as int)
        } else {
            day_of(now as int) + 1
        },
{
    let day = day_of_instant(now);
    if second_of_day_of(now) / 3600 < reference_hour as i64 {
        day
    } else {
        day + 1
    }
}

/// The instant at which the rotations change on date `date`.
pub fn get_utc_start(date: i64) -> (r: i64)
    requires
        i64::MIN <= date * 86400,
        rotation_start(date as int) <= i64::MAX,
    ensures
        r == rotation_start(date as int),
{
    date * SECONDS_PER_DAY + ROTATION_HOUR * 3600
}

/// The position in a rotation of `size` entries, one per `period` seconds,
/// that runs at instant `now` when the rotation began on date `since`;
/// negative before that.
pub fn rotation_index(now: i64, since: i64, period: i64, size: i64) -> (r: i64)
    requires
        period > 0,
        size > 0,
        i64::MIN <= since * 86400,
        rotation_start(since as int) <= i64::MAX,
        i64::MIN <= now - rotation_start(since as int) <= i64::MAX,
    ensures
        r == rem_trunc(div_trunc(now - rotation_start(since as int), period as int), size as int),
{
    let elapsed = now - get_utc_start(since);
    remainder(quotient(elapsed, period), size)
}

/// The hours, minutes and seconds from instant `now` to the next 18:00 UTC,
/// less one second.
pub fn reset_countdown(now: i64) -> (r: (i64, i64, i64))
    requires
        second_of_day(now as int) / 3600 != 18,
    ensures
        ({
            let h = second_of_day(now as int) / 3600;
            let m = second_of_day(now as int) / 60 % 60;
            let s = second_of_day(now as int) % 60;
            r == (
                ((if h > 18 {
                    24 - h + 18
                } else {
                    18 - h
                }) - 1) as i64,
                (60 - m - 1) as i64,
                (60 - s - 1) as i64,
            )
        }),
{
    let t = second_of_day_of(now);
    let hour = t / 3600;
    let minute = t / 60 % 60;
    let second = t % 60;
    let hour_left = if hour > 18 {
        24 - hour + 18
    } else {
        18 - hour
    } - 1;
    (hour_left, 60 - minute - 1, 60 - second - 1)
}

/// The whole days left in the week of instant `now` after its own day.
pub fn days_left_in_week(now: i64) -> (r: i64)
    ensures
        r == 7 - weekday_of(day_of(now as int)) - 1,
{
    7 - weekday(day_of_instant(now)) - 1
}

} // verus!
