//! Time windows and the assignment of event times to them.
//!
//! Times are milliseconds since 1970-01-01T00:00:00 UTC. A window is the
//! half-open interval from its start up to its end.

use vstd::prelude::*;

verus! {

/// A calendar period, aligned in UTC. A week starts on Monday.
#[derive(Clone, Copy, Debug, PartialEq, Eq, Hash, Structural)]
pub enum Period {
    Day,
    Week,
    Month,
    Year,
}

/// How event times are cut into windows.
#[derive(Clone, Copy, Debug, PartialEq, Eq, Hash, Structural)]
pub enum Window {
    /// Disjoint buckets of `length` milliseconds, starting at multiples of
    /// `length`.
    Fixed { length: i64 },
    /// Windows of `length` milliseconds that start at every multiple of
    /// `interval`.
    Sliding { length: i64, interval: i64 },
    Period { period: Period },
}

pub const MS_PER_DAY: i64 = 86_400_000;

/// The number of days in 400 years of the calendar.
pub const DAYS_PER_CYCLE: i64 = 146_097;

pub open spec fn is_leap(year: int) -> bool {
    year % 4 == 0 && (year % 100 != 0 || year % 400 == 0)
}

/// The number of leap years before `year`, counted from a year long ago.
pub open spec fn leaps_before(year: int) -> int {
    (year - 1) / 4 - (year - 1) / 100 + (year - 1) / 400
}

/// The day on which `year` starts, counted from 1970-01-01.
pub open spec fn year_start(year: int) -> int {
    365 * (year - 1970) + leaps_before(year) - leaps_before(1970)
}

pub open spec fn month_days(year: int, month: int) -> int {
    if month == 2 {
        if is_leap(year) {
            29
        } else {
            28
        }
    } else if month == 4 || month == 6 || month == 9 || month == 11 {
        30
    } else {
        31
    }
}

/// The day on which month `month` of `year` starts, counted from
/// 1970-01-01; month 13 is the January that follows.
pub open spec fn month_start(year: int, month: int) -> int
    decreases month,
{
    if month <= 1 {
        year_start(year)
    } else {
        month_start(year, month - 1) + month_days(year, month - 1)
    }
}

/// Whether a day falls in a year.
pub open spec fn in_year(day: int, year: int) -> bool {
    year_start(year) <= day < year_start(year + 1)
}

/// Whether a day falls in a month of a year; months are 1 to 12.
pub open spec fn in_month(day: int, year: int, month: int) -> bool {
    1 <= month <= 12 && month_start(year, month) <= day < month_start(year, month + 1)
}

/// The year in which a day falls.
pub open spec fn year_of(day: int) -> int {
    choose|year: int| in_year(day, year)
}

/// The month, from 1 to 12, in which a day falls.
pub open spec fn month_of(day: int) -> int {
    choose|month: int| in_month(day, year_of(day), month)
}

/// The day, counted from 1970-01-01, in which a time falls.
pub open spec fn day_of(time: int) -> int {
    time / (MS_PER_DAY as int)
}

/// The calendar window of `period` that holds `time`.
pub open spec fn period_span(period: Period, time: int) -> (int, int) {
    let day = day_of(time);
    match period {
        Period::Day => (day * MS_PER_DAY, (day + 1) * MS_PER_DAY),
        Period::Week => {
            let monday = day - (day + 3) % 7;
            (monday * MS_PER_DAY, (monday + 7) * MS_PER_DAY)
        },
        Period::Month => (
            month_start(year_of(day), month_of(day)) * MS_PER_DAY,
            month_start(year_of(day), month_of(day) + 1) * MS_PER_DAY,
        ),
        Period::Year => (
            year_start(year_of(day)) * MS_PER_DAY,
            year_start(year_of(day) + 1) * MS_PER_DAY,
        ),
    }
}

impl Window {
    /// Lengths and intervals are positive, and a sliding window's length is
    /// a multiple of its interval.
    pub open spec fn valid(self) -> bool {
        match self {
            Window::Fixed { length } => length > 0,
            Window::Sliding { length, interval } => length > 0 && interval > 0 && length % interval
                == 0,
            Window::Period { period } => true,
        }
    }

    /// The windows that hold `time`, by ascending start.
    pub open spec fn spans(self, time: int) -> Seq<(int, int)> {
        match self {
            Window::Fixed { length } => seq![
                ((time / (length as int)) * length, (time / (length as int)) * length + length),
            ],
            Window::Sliding { length, interval } => {
                let first = (time / (interval as int)) * interval - length + interval;
                Seq::new(
                    (length / interval) as nat,
                    |k: int| (first + k * interval, first + k * interval + length),
                )
            },
            Window::Period { period } => seq![period_span(period, time)],
        }
    }

    /// Whether every bound of the windows that hold `time` is a time.
    pub open spec fn in_range(self, time: int) -> bool {
        forall|k: int|
            0 <= k < self.spans(time).len() ==> i64::MIN <= (#[trigger] self.spans(time)[k]).0
                && self.spans(time)[k].1 <= i64::MAX
    }

    /// The windows that an event at `time` is assigned to: those that hold
    /// it, by ascending start; none where a bound of them is no time.
    pub open spec fn assigned(self, time: i64) -> Seq<(i64, i64)> {
        if self.in_range(time as int) {
            Seq::new(
                self.spans(time as int).len(),
                |k: int|
                    (self.spans(time as int)[k].0 as i64, self.spans(time as int)[k].1 as i64),
            )
        } else {
            Seq::empty()
        }
    }
}

/// A fixed or sliding window that holds a time starts at a multiple of the
/// window's step, at or before the time, and ends behind it.
pub proof fn lemma_window_holds_time(window: Window, time: int, k: int)
    requires
        window.valid(),
        !(window is Period),
        0 <= k < window.spans(time).len(),
    ensures
        window.spans(time)[k].0 <= time < window.spans(time)[k].1,
        window matches Window::Fixed { length } ==> window.spans(time)[k].0 % (length as int) == 0
            && window.spans(time)[k].1 == window.spans(time)[k].0 + length,
        window matches Window::Sliding { length, interval } ==> window.spans(time)[k].0 % (
        interval as int) == 0 && window.spans(time)[k].1 == window.spans(time)[k].0 + length,
{
    match window {
        Window::Fixed { length } => {
            let step = length as int;
            let quotient = time / step;
            lemma_quotient_bounded(time, step);
            vstd::arithmetic::div_mod::lemma_mod_multiples_basic(quotient, step);
            assert(quotient * step == step * quotient) by (nonlinear_arith);
            assert(k == 0);
            assert(window.spans(time)[0] == (quotient * step, quotient * step + step));
            assert(time == quotient * step + time % step);
        },
        Window::Sliding { length, interval } => {
            let step = interval as int;
            let count = length as int / step;
            lemma_quotient_bounded(time, step);
            lemma_quotient_bounded(length as int, step);
            let top = (time / step) * step;
            let first = top - length + step;
            assert(top == step * (time / step)) by (nonlinear_arith)
                requires
                    top == (time / step) * step,
            ;
            assert(count * step == length) by (nonlinear_arith)
                requires
                    length == step * count,
            ;
            assert(0 <= k * step <= (count - 1) * step) by (nonlinear_arith)
                requires
                    0 <= k <= count - 1,
                    step > 0,
            ;
            let start = first + k * step;
            assert(start == (time / step - count + 1 + k) * step) by (nonlinear_arith)
                requires
                    start == (time / step) * step - length + step + k * step,
                    count * step == length,
            ;
            vstd::arithmetic::div_mod::lemma_mod_multiples_basic(time / step - count + 1 + k, step);
            assert((count - 1) * step == count * step - step) by (nonlinear_arith);
            assert(window.spans(time)[k] == (start, start + length));
        },
        Window::Period { period } => {},
    }
}

/// A year is 365 days, and one more where it is a leap year.
pub proof fn lemma_year_length(year: int)
    ensures
        year_start(year + 1) == year_start(year) + 365 + (if is_leap(year) {
            1int
        } else {
            0int
        }),
{
}

/// The calendar repeats after 400 years.
pub proof fn lemma_cycle(year: int, cycles: int)
    ensures
        year_start(year + 400 * cycles) == year_start(year) + DAYS_PER_CYCLE * cycles,
        is_leap(year + 400 * cycles) == is_leap(year),
{
    let shifted = year + 400 * cycles;
    vstd::arithmetic::div_mod::lemma_hoist_over_denominator(year - 1, 100 * cycles, 4);
    vstd::arithmetic::div_mod::lemma_hoist_over_denominator(year - 1, 4 * cycles, 100);
    vstd::arithmetic::div_mod::lemma_hoist_over_denominator(year - 1, cycles, 400);
    assert((shifted - 1) / 4 == (year - 1) / 4 + 100 * cycles) by {
        assert(shifted - 1 == (year - 1) + (100 * cycles) * 4);
    }
    assert((shifted - 1) / 100 == (year - 1) / 100 + 4 * cycles) by {
        assert(shifted - 1 == (year - 1) + (4 * cycles) * 100);
    }
    assert((shifted - 1) / 400 == (year - 1) / 400 + cycles) by {
        assert(shifted - 1 == (year - 1) + cycles * 400);
    }
    vstd::arithmetic::div_mod::lemma_mod_multiples_vanish(100 * cycles, year, 4);
    vstd::arithmetic::div_mod::lemma_mod_multiples_vanish(4 * cycles, year, 100);
    vstd::arithmetic::div_mod::lemma_mod_multiples_vanish(cycles, year, 400);
    assert(shifted % 4 == year % 4) by {
        assert(shifted == 4 * (100 * cycles) + year);
    }
    assert(shifted % 100 == year % 100) by {
        assert(shifted == 100 * (4 * cycles) + year);
    }
    assert(shifted % 400 == year % 400) by {
        assert(shifted == 400 * cycles + year);
    }
}

/// Later years start later.
pub proof fn lemma_years_ascend(earlier: int, later: int)
    requires
        earlier <= later,
    ensures
        year_start(earlier) <= year_start(later),
        earlier < later ==> year_start(earlier) < year_start(later),
    decreases later - earlier,
{
    if earlier < later {
        lemma_years_ascend(earlier, later - 1);
        lemma_year_length(later - 1);
    }
}

/// Within a year, later months start later; the thirteenth month starts
/// with the next year.
pub proof fn lemma_months_ascend(year: int, earlier: int, later: int)
    requires
        1 <= earlier <= later <= 13,
    ensures
        month_start(year, earlier) <= month_start(year, later),
        earlier < later ==> month_start(year, earlier) < month_start(year, later),
        month_start(year, 1) == year_start(year),
        month_start(year, 13) == year_start(year + 1),
    decreases later - earlier,
{
    if earlier < later {
        lemma_months_ascend(year, earlier, later - 1);
    }
    reveal_with_fuel(month_start, 14);
    lemma_year_length(year);
}

/// A day falls in one year only.
pub proof fn lemma_year_of(day: int, year: int)
    requires
        in_year(day, year),
    ensures
        year_of(day) == year,
{
    let chosen = year_of(day);
    if chosen < year {
        lemma_years_ascend(chosen + 1, year);
    } else if chosen > year {
        lemma_years_ascend(year + 1, chosen);
    }
}

/// A day falls in one month only.
pub proof fn lemma_month_of(day: int, year: int, month: int)
    requires
        in_month(day, year, month),
    ensures
        year_of(day) == year,
        month_of(day) == month,
{
    lemma_months_ascend(year, 1, month);
    lemma_months_ascend(year, month + 1, 13);
    lemma_year_of(day, year);
    let chosen = month_of(day);
    if chosen < month {
        lemma_months_ascend(year, chosen + 1, month);
    } else if chosen > month {
        lemma_months_ascend(year, month + 1, chosen);
    }
}

/// The quotient of a division that rounds towards negative infinity.
fn floor_div(a: i64, b: i64) -> (q: i64)
    requires
        b > 0,
    ensures
        q == (a as int) / (b as int),
{
    proof {
        lemma_quotient_bounded(a as int, b as int);
    }
    match a.checked_div_euclid(b) {
        Some(q) => q,
        None => 0,
    }
}

/// A quotient by a positive divisor lies between the dividend and zero.
proof fn lemma_quotient_bounded(a: int, b: int)
    requires
        b > 0,
    ensures
        a >= 0 ==> 0 <= a / b <= a,
        a < 0 ==> a <= a / b < 0,
        a == b * (a / b) + a % b,
        0 <= a % b < b,
{
    vstd::arithmetic::div_mod::lemma_fundamental_div_mod(a, b);
    vstd::arithmetic::div_mod::lemma_mod_bound(a, b);
    let q = a / b;
    let r = a % b;
    if a >= 0 {
        assert(q >= 0) by (nonlinear_arith)
            requires
                a == b * q + r,
                0 <= r < b,
                a >= 0,
                b > 0,
        ;
        assert(q <= a) by (nonlinear_arith)
            requires
                a == b * q + r,
                0 <= r < b,
                q >= 0,
                b > 0,
        ;
    } else {
        assert(q < 0) by (nonlinear_arith)
            requires
                a == b * q + r,
                0 <= r < b,
                a < 0,
                b > 0,
        ;
        assert(a <= q) by (nonlinear_arith)
            requires
                a == b * q + r,
                0 <= r < b,
                q < 0,
                b > 0,
        ;
    }
}

/// The start of the bucket of `length` that holds `time`, where it is a time.
fn bucket_start(time: i64, length: i64) -> (start: Option<i64>)
    requires
        length > 0,
    ensures
        match start {
            Some(s) => s == (time as int / length as int) * length,
            None => (time as int / length as int) * length < i64::MIN,
        },
{
    let q = floor_div(time, length);
    proof {
        lemma_quotient_bounded(time as int, length as int);
        assert(q * length <= time) by (nonlinear_arith)
            requires
                time == length * q + (time as int % length as int),
                0 <= (time as int % length as int),
        ;
    }
    q.checked_mul(length)
}

/// The day on which year `1970 + offset` starts.
fn near_year_start(offset: i64) -> (day: i64)
    requires
        0 <= offset <= 400,
    ensures
        day == year_start(1970 + offset),
{
    let before: u64 = (1969 + offset) as u64;
    365 * offset + (before / 4 - before / 100 + before / 400) as i64 - 477
}

fn near_is_leap(offset: i64) -> (leap: bool)
    requires
        0 <= offset <= 400,
    ensures
        leap == is_leap(1970 + offset),
{
    let year: u64 = (1970 + offset) as u64;
    year % 4 == 0 && (year % 100 != 0 || year % 400 == 0)
}

fn days_in_month(leap: bool, month: i64) -> (days: i64)
    requires
        1 <= month <= 12,
    ensures
        forall|year: int| is_leap(year) == leap ==> days == #[trigger] month_days(year, month as int),
        28 <= days <= 31,
{
    if month == 2 {
        if leap {
            29
        } else {
            28
        }
    } else if month == 4 || month == 6 || month == 9 || month == 11 {
        30
    } else {
        31
    }
}

/// The time at which a day starts, where it is a time.
fn day_time(day: i64) -> (time: Option<i64>)
    ensures
        match time {
            Some(t) => t == day * MS_PER_DAY,
            None => !(i64::MIN <= day * MS_PER_DAY <= i64::MAX),
        },
{
    day.checked_mul(MS_PER_DAY)
}

/// The window from the start of day `first` up to the start of day `next`,
/// where both are times.
fn day_span(first: i64, next: i64) -> (span: Option<(i64, i64)>)
    requires
        first <= next,
    ensures
        match span {
            Some((s, e)) => s == first * MS_PER_DAY && e == next * MS_PER_DAY,
            None => !(i64::MIN <= first * MS_PER_DAY && next * MS_PER_DAY <= i64::MAX),
        },
{
    match day_time(first) {
        Some(s) => match day_time(next) {
            Some(e) => Some((s, e)),
            None => None,
        },
        None => None,
    }
}

/// The calendar window of `period` that holds `time`, where its bounds are
/// times.
fn period_window(period: Period, time: i64) -> (span: Option<(i64, i64)>)
    ensures
        match span {
            Some((s, e)) => (s as int, e as int) == period_span(period, time as int),
            None => !(i64::MIN <= period_span(period, time as int).0 && period_span(
                period,
                time as int,
            ).1 <= i64::MAX),
        },
{
    let day = floor_div(time, MS_PER_DAY);
    proof {
        lemma_quotient_bounded(time as int, MS_PER_DAY as int);
    }
    assert(-110_000_000_000 <= day <= 110_000_000_000);
    match period {
        Period::Day => day_span(day, day + 1),
        Period::Week => {
            let shifted = day + 3;
            proof {
                lemma_quotient_bounded(shifted as int, 7);
            }
            let back = shifted - floor_div(shifted, 7) * 7;
            assert(back == (day + 3) % 7);
            let monday = day - back;
            day_span(monday, monday + 7)
        },
        Period::Month | Period::Year => {
            let cycle = floor_div(day, DAYS_PER_CYCLE);
            proof {
                lemma_quotient_bounded(day as int, DAYS_PER_CYCLE as int);
            }
            let rest = day - cycle * DAYS_PER_CYCLE;
            let mut offset: i64 = 0;
            while near_year_start(offset + 1) <= rest
                invariant
                    0 <= offset < 400,
                    0 <= rest < DAYS_PER_CYCLE,
                    year_start(1970 + offset) <= rest,
                decreases 400 - offset,
            {
                offset += 1;
            }
            let ghost year = 1970 + offset + 400 * cycle;
            proof {
                lemma_cycle(1970 + offset, cycle as int);
                lemma_cycle(1970 + offset + 1, cycle as int);
                assert(in_year(day as int, year));
                lemma_year_of(day as int, year);
            }
            let first = near_year_start(offset) + cycle * DAYS_PER_CYCLE;
            let next = near_year_start(offset + 1) + cycle * DAYS_PER_CYCLE;
            match period {
                Period::Year => day_span(first, next),
                _ => {
                    let leap = near_is_leap(offset);
                    let mut month: i64 = 1;
                    let mut begin: i64 = first;
                    proof {
                        lemma_months_ascend(year, 1, 13);
                    }
                    while month < 12 && begin + days_in_month(leap, month) <= day
                        invariant
                            1 <= month <= 12,
                            leap == is_leap(year),
                            begin == month_start(year, month as int),
                            first <= begin <= day,
                            day <= 110_000_000_000,
                            day < next,
                            next == month_start(year, 13),
                        decreases 12 - month,
                    {
                        begin += days_in_month(leap, month);
                        month += 1;
                    }
                    let days = days_in_month(leap, month);
                    proof {
                        if month == 12 {
                            assert(month_start(year, 13) == begin + month_days(year, 12));
                        }
                        assert(in_month(day as int, year, month as int));
                        lemma_month_of(day as int, year, month as int);
                    }
                    day_span(begin, begin + days)
                },
            }
        },
    }
}

impl Window {
    pub fn is_valid(&self) -> (valid: bool)
        ensures
            valid == self.valid(),
    {
        match self {
            Window::Fixed { length } => *length > 0,
            Window::Sliding { length, interval } => {
                if *length > 0 && *interval > 0 {
                    let q = floor_div(*length, *interval);
                    proof {
                        lemma_quotient_bounded(*length as int, *interval as int);
                        assert(q * *interval <= *length) by (nonlinear_arith)
                            requires
                                *length == *interval * q + (*length as int % *interval as int),
                                0 <= (*length as int % *interval as int),
                        ;
                    }
                    q * *interval == *length
                } else {
                    false
                }
            },
            Window::Period { period } => true,
        }
    }

    /// The windows that an event at `time` is assigned to.
    pub fn assign(&self, time: i64) -> (windows: Vec<(i64, i64)>)
        requires
            self.valid(),
        ensures
            windows@ == self.assigned(time),
    {
        let mut windows: Vec<(i64, i64)> = Vec::new();
        match self {
            Window::Fixed { length } => {
                match bucket_start(time, *length) {
                    Some(start) => match start.checked_add(*length) {
                        Some(end) => {
                            windows.push((start, end));
                            assert(self.spans(time as int)[0] == (start as int, end as int));
                        },
                        None => {
                            assert(self.spans(time as int)[0].1 > i64::MAX);
                        },
                    },
                    None => {
                        assert(self.spans(time as int)[0].0 < i64::MIN);
                    },
                }
            },
            Window::Sliding { length, interval } => {
                let count = floor_div(*length, *interval);
                let ghost top_start = (time as int / *interval as int) * *interval;
                let ghost first_start = top_start - *length + *interval;
                proof {
                    lemma_quotient_bounded(*length as int, *interval as int);
                    assert(count * *interval == *length) by (nonlinear_arith)
                        requires
                            *length == *interval * count,
                    ;
                    assert(count >= 1) by (nonlinear_arith)
                        requires
                            count * *interval == *length,
                            *length > 0,
                            *interval > 0,
                    ;
                    assert(self.spans(time as int).len() == count);
                    assert(self.spans(time as int)[0].0 == first_start);
                    assert(first_start + (count - 1) * *interval == top_start) by (nonlinear_arith)
                        requires
                            count * *interval == *length,
                            first_start == top_start - *length + *interval,
                    ;
                    assert(self.spans(time as int)[count - 1].1 == top_start + *length);
                }
                let top = match bucket_start(time, *interval) {
                    Some(top) => top,
                    None => {
                        return windows;
                    },
                };
                let first = match top.checked_sub(*length - *interval) {
                    Some(first) => first,
                    None => {
                        return windows;
                    },
                };
                let last_end = match top.checked_add(*length) {
                    Some(end) => end,
                    None => {
                        return windows;
                    },
                };
                let mut k: i64 = 0;
                let mut start: i64 = first;
                while k < count
                    invariant
                        0 <= k <= count,
                        count >= 1,
                        *length > 0,
                        *interval > 0,
                        count * *interval == *length,
                        first == first_start,
                        first + (count - 1) * *interval == top,
                        top + *length <= i64::MAX,
                        k < count ==> start == first + k * *interval,
                        windows@.len() == k,
                        forall|j: int|
                            0 <= j < k ==> #[trigger] windows@[j] == (
                                (first + j * *interval) as i64,
                                (first + j * *interval + *length) as i64,
                            ),
                    decreases count - k,
                {
                    proof {
                        assert(k * *interval <= (count - 1) * *interval) by (nonlinear_arith)
                            requires
                                k <= count - 1,
                                *interval > 0,
                        ;
                        assert((k + 1) * *interval == k * *interval + *interval)
                            by (nonlinear_arith);
                    }
                    windows.push((start, start + *length));
                    k += 1;
                    if k < count {
                        proof {
                            assert(k * *interval <= (count - 1) * *interval) by (nonlinear_arith)
                                requires
                                    k <= count - 1,
                                    *interval > 0,
                            ;
                        }
                        start += *interval;
                    }
                }
                proof {
                    assert forall|j: int| 0 <= j < count implies i64::MIN <= (
                    #[trigger] self.spans(time as int)[j]).0 && self.spans(time as int)[j].1
                        <= i64::MAX by {
                        assert(0 <= j * *interval <= (count - 1) * *interval) by (nonlinear_arith)
                            requires
                                0 <= j <= count - 1,
                                *interval > 0,
                        ;
                    }
                    assert(self.in_range(time as int));
                    assert(windows@ =~= self.assigned(time));
                }
            },
            Window::Period { period } => {
                match period_window(*period, time) {
                    Some(span) => {
                        windows.push(span);
                        assert(self.spans(time as int)[0] == (span.0 as int, span.1 as int));
                    },
                    None => {
                        assert(!(i64::MIN <= self.spans(time as int)[0].0 && self.spans(
                            time as int,
                        )[0].1 <= i64::MAX));
                    },
                }
            },
        }
        proof {
            assert(windows@ =~= self.assigned(time));
        }
        windows
    }
}

} // verus!
