//! Working-day arithmetic over a project calendar.
//!
//! A date is a day number; the calendar decides which day numbers are worked.
//! Everything else in this module is counting and walking over worked days.

use vstd::prelude::*;

use crate::types::{
    day_of, exception_views, weekday_values, Calendar, CalendarException, CalendarExceptionView,
    CalendarView,
};

verus! {

/// Day number of 0001-01-01, the first date the library handles.
pub const MIN_DAY: i32 = 1;

/// Day number of 9999-12-31, the last date the library handles.
pub const MAX_DAY: i32 = 3_652_059;

/// A calendar date: the day's number in the proleptic Gregorian calendar,
/// counted from 0001-01-01 as day 1.
#[derive(Clone, Copy, Debug, PartialEq, Eq, Structural)]
pub struct Date {
    pub day: i32,
}

/// Whether `day` lies between 0001-01-01 and 9999-12-31.
pub open spec fn day_in_range(day: int) -> bool {
    MIN_DAY <= day <= MAX_DAY
}

/// The `YYYY-MM-DD` text that `chrono` writes for a day number.
pub uninterp spec fn iso_text(day: int) -> Seq<char>;

/// The day number that `chrono` reads from a text, if it reads one.
pub uninterp spec fn iso_day_number(text: Seq<char>) -> Option<i32>;

/// The weekday that `chrono` gives a day number, Sunday = 0 through Saturday = 6.
pub uninterp spec fn weekday_index(day: int) -> int;

/// Calls `chrono::NaiveDate::parse_from_str` with the format `%Y-%m-%d` and
/// hands back the parsed date's day number. Trusted: the result is named
/// `iso_day_number`, nothing more is claimed of it.
#[verifier::external_body]
fn parse_day_number(text: &str) -> (r: Option<i32>)
    ensures
        r == iso_day_number(text@),
{
    match chrono::NaiveDate::parse_from_str(text, "%Y-%m-%d") {
        Ok(date) => Some(chrono::Datelike::num_days_from_ce(&date)),
        Err(_) => None,
    }
}

/// Calls `chrono::NaiveDate::format` with the format `%Y-%m-%d` on the date
/// with the given day number. Trusted: the result is named `iso_text`. The
/// day numbers admitted are all inside the range `chrono` can represent.
#[verifier::external_body]
fn format_day_number(day: i32) -> (r: String)
    requires
        day_in_range(day as int),
    ensures
        r@ == iso_text(day as int),
{
    chrono::NaiveDate::from_num_days_from_ce_opt(day).unwrap().format("%Y-%m-%d").to_string()
}

/// Calls `chrono::Datelike::weekday` on the date with the given day number and
/// numbers the weekday from Sunday. Trusted: the result is named
/// `weekday_index` and lies in `0..=6`, as `Weekday::num_days_from_sunday`
/// documents.
#[verifier::external_body]
fn weekday_number(day: i32) -> (r: i32)
    requires
        day_in_range(day as int),
    ensures
        r == weekday_index(day as int),
        0 <= r <= 6,
{
    let date = chrono::NaiveDate::from_num_days_from_ce_opt(day).unwrap();
    chrono::Datelike::weekday(&date).num_days_from_sunday() as i32
}

/// The first exception filed under `text` at or after position `from`.
pub open spec fn exception_from(
    exceptions: Seq<CalendarExceptionView>,
    text: Seq<char>,
    from: int,
) -> Option<CalendarExceptionView>
    decreases exceptions.len() - from,
{
    if from < 0 || from >= exceptions.len() {
        None
    } else if exceptions[from].date == text {
        Some(exceptions[from])
    } else {
        exception_from(exceptions, text, from + 1)
    }
}

/// Whether the calendar works on the day numbered `day`.
///
/// A dated exception decides its day: the day is worked exactly when the
/// exception's flag is `true`. A day without exception is worked when its
/// weekday is listed. Days outside the handled range are never worked.
pub open spec fn is_work_day_spec(calendar: CalendarView, day: int) -> bool {
    day_in_range(day) && match exception_from(calendar.exceptions, iso_text(day), 0) {
        Some(exception) => exception.working == Some(true),
        None => calendar.working_days.contains(weekday_index(day)),
    }
}

fn find_exception(exceptions: &Vec<CalendarException>, text: &String) -> (r: Option<Option<bool>>)
    ensures
        match exception_from(exception_views(exceptions@), text@, 0) {
            Some(exception) => r == Some(exception.working),
            None => r is None,
        },
{
    let mut i: usize = 0;
    while i < exceptions.len()
        invariant
            i <= exceptions.len(),
            exception_from(exception_views(exceptions@), text@, 0) == exception_from(
                exception_views(exceptions@),
                text@,
                i as int,
            ),
        decreases exceptions.len() - i,
    {
        if exceptions[i].date == *text {
            return Some(exceptions[i].working);
        }
        i += 1;
    }
    None
}

fn lists_weekday(working_days: &Vec<i32>, weekday: i32) -> (r: bool)
    ensures
        r == weekday_values(working_days@).contains(weekday as int),
{
    let mut i: usize = 0;
    while i < working_days.len()
        invariant
            i <= working_days.len(),
            forall|j: int| 0 <= j < i ==> working_days@[j] != weekday,
        decreases working_days.len() - i,
    {
        if working_days[i] == weekday {
            assert(weekday_values(working_days@)[i as int] == weekday as int);
            return true;
        }
        i += 1;
    }
    false
}

/// Whether `date` is a working day of `calendar`.
pub fn is_work_day(date: &Date, calendar: &Calendar) -> (r: bool)
    ensures
        r == is_work_day_spec(calendar@, date.day as int),
{
    if date.day < MIN_DAY || date.day > MAX_DAY {
        return false;
    }
    if calendar.exceptions.len() == 0 {
        return lists_weekday(&calendar.working_days, weekday_number(date.day));
    }
    let text = format_day_number(date.day);
    match find_exception(&calendar.exceptions, &text) {
        Some(flag) => match flag {
            Some(working) => working,
            None => false,
        },
        None => lists_weekday(&calendar.working_days, weekday_number(date.day)),
    }
}

/// The number of working days `d` with `lo <= d < hi`.
pub open spec fn work_days_in(calendar: CalendarView, lo: int, hi: int) -> int
    decreases hi - lo,
{
    if hi <= lo {
        0
    } else {
        work_days_in(calendar, lo, hi - 1) + if is_work_day_spec(calendar, hi - 1) {
            1int
        } else {
            0int
        }
    }
}

/// The first working day at or after `day`, where the handled range holds one.
pub open spec fn first_work_day_from(calendar: CalendarView, day: int) -> Option<int>
    decreases MAX_DAY + 1 - day,
{
    if day > MAX_DAY {
        None
    } else if is_work_day_spec(calendar, day) {
        Some(day)
    } else {
        first_work_day_from(calendar, day + 1)
    }
}

/// The `steps`-th working day after `day`; `day` itself for no steps, and
/// `None` where the handled range ends before that many working days.
pub open spec fn walk_forward(calendar: CalendarView, day: int, steps: nat) -> Option<int>
    decreases MAX_DAY - day,
{
    if steps == 0 {
        Some(day)
    } else if day >= MAX_DAY {
        None
    } else if is_work_day_spec(calendar, day + 1) {
        walk_forward(calendar, day + 1, (steps - 1) as nat)
    } else {
        walk_forward(calendar, day + 1, steps)
    }
}

/// The `steps`-th working day before `day`; `day` itself for no steps, and
/// `None` where the handled range begins after fewer working days.
pub open spec fn walk_backward(calendar: CalendarView, day: int, steps: nat) -> Option<int>
    decreases day - MIN_DAY,
{
    if steps == 0 {
        Some(day)
    } else if day <= MIN_DAY {
        None
    } else if is_work_day_spec(calendar, day - 1) {
        walk_backward(calendar, day - 1, (steps - 1) as nat)
    } else {
        walk_backward(calendar, day - 1, steps)
    }
}

/// The day that lies `days` working days from `day`.
///
/// For `days == 0` this is `day` itself when it is worked, else the next
/// working day. For other values it is the `|days|`-th working day after, or
/// for negative values before, `day`. The result is `None` when `day` is
/// outside the handled range or the walk would leave it.
pub open spec fn add_work_days_spec(calendar: CalendarView, day: int, days: int) -> Option<int> {
    if !day_in_range(day) {
        None
    } else if days == 0 {
        first_work_day_from(calendar, day)
    } else if days > 0 {
        walk_forward(calendar, day, days as nat)
    } else {
        walk_backward(calendar, day, (-days) as nat)
    }
}

/// `add_work_days_spec`, with `day` itself where no day is found.
pub open spec fn shifted_day(calendar: CalendarView, day: int, days: int) -> int {
    match add_work_days_spec(calendar, day, days) {
        Some(found) => found,
        None => day,
    }
}

/// The inclusive count of working days between two day numbers, in either
/// order, and at least 1; 0 when either lies outside the handled range.
pub open spec fn count_work_days_spec(calendar: CalendarView, a: int, b: int) -> int {
    if !day_in_range(a) || !day_in_range(b) {
        0
    } else {
        let lo = if a <= b { a } else { b };
        let hi = if a <= b { b } else { a };
        let count = work_days_in(calendar, lo, hi + 1);
        if count < 1 { 1 } else { count }
    }
}

/// The signed count of working days from `a` to `b`: the working days `d`
/// with `a < d <= b` when `b` is later, minus the working days `d` with
/// `b <= d < a` when `b` is earlier, and 0 when they are the same day or
/// either lies outside the handled range.
pub open spec fn work_days_signed_spec(calendar: CalendarView, a: int, b: int) -> int {
    if !day_in_range(a) || !day_in_range(b) || a == b {
        0
    } else if b > a {
        work_days_in(calendar, a + 1, b + 1)
    } else {
        -work_days_in(calendar, b, a)
    }
}

/// `work_days_in` counts at most one day per day, and none on an empty span.
pub proof fn lemma_work_days_in_bounds(calendar: CalendarView, lo: int, hi: int)
    ensures
        0 <= work_days_in(calendar, lo, hi),
        lo <= hi ==> work_days_in(calendar, lo, hi) <= hi - lo,
        hi <= lo ==> work_days_in(calendar, lo, hi) == 0,
    decreases hi - lo,
{
    if hi > lo {
        lemma_work_days_in_bounds(calendar, lo, hi - 1);
    }
}

/// `work_days_in` adds up over adjoining spans.
pub proof fn lemma_work_days_in_split(calendar: CalendarView, lo: int, mid: int, hi: int)
    requires
        lo <= mid <= hi,
    ensures
        work_days_in(calendar, lo, hi) == work_days_in(calendar, lo, mid) + work_days_in(
            calendar,
            mid,
            hi,
        ),
    decreases hi - mid,
{
    if hi > mid {
        lemma_work_days_in_split(calendar, lo, mid, hi - 1);
    }
}

/// A longer span holds at least as many working days.
pub proof fn lemma_work_days_in_monotonic(calendar: CalendarView, lo: int, hi: int, lo2: int, hi2: int)
    requires
        lo2 <= lo <= hi <= hi2,
    ensures
        work_days_in(calendar, lo, hi) <= work_days_in(calendar, lo2, hi2),
{
    lemma_work_days_in_split(calendar, lo2, lo, hi2);
    lemma_work_days_in_split(calendar, lo, hi, hi2);
    lemma_work_days_in_bounds(calendar, lo2, lo);
    lemma_work_days_in_bounds(calendar, hi, hi2);
}

/// What `first_work_day_from` finds is worked, not before `day`, and no
/// working day lies between.
pub proof fn lemma_first_work_day_from(calendar: CalendarView, day: int)
    ensures
        match first_work_day_from(calendar, day) {
            Some(found) => day <= found && is_work_day_spec(calendar, found) && work_days_in(
                calendar,
                day,
                found,
            ) == 0,
            None => work_days_in(calendar, day, MAX_DAY + 1) == 0,
        },
    decreases MAX_DAY + 1 - day,
{
    if day > MAX_DAY {
        lemma_work_days_in_bounds(calendar, day, MAX_DAY + 1);
    } else if !is_work_day_spec(calendar, day) {
        lemma_first_work_day_from(calendar, day + 1);
        match first_work_day_from(calendar, day + 1) {
            Some(found) => {
                lemma_work_days_in_split(calendar, day, day + 1, found);
            },
            None => {
                lemma_work_days_in_split(calendar, day, day + 1, MAX_DAY + 1);
            },
        }
        assert(work_days_in(calendar, day, day + 1) == 0) by {
            assert(work_days_in(calendar, day, day) == 0);
        }
    }
}

/// Where `walk_forward` ends is a working day after `day`, and exactly
/// `steps` working days lie after `day` up to and including it.
pub proof fn lemma_walk_forward(calendar: CalendarView, day: int, steps: nat)
    requires
        steps >= 1,
    ensures
        match walk_forward(calendar, day, steps) {
            Some(found) => day < found && is_work_day_spec(calendar, found) && work_days_in(
                calendar,
                day + 1,
                found + 1,
            ) == steps,
            None => work_days_in(calendar, day + 1, MAX_DAY + 1) < steps,
        },
    decreases MAX_DAY - day,
{
    if day >= MAX_DAY {
        lemma_work_days_in_bounds(calendar, day + 1, MAX_DAY + 1);
    } else {
        let next_steps: nat = if is_work_day_spec(calendar, day + 1) {
            (steps - 1) as nat
        } else {
            steps
        };
        assert(work_days_in(calendar, day + 1, day + 2) == if is_work_day_spec(calendar, day + 1) {
            1int
        } else {
            0int
        }) by {
            assert(work_days_in(calendar, day + 1, day + 1) == 0);
        }
        if next_steps != 0 {
            lemma_walk_forward(calendar, day + 1, next_steps);
            match walk_forward(calendar, day + 1, next_steps) {
                Some(found) => {
                    lemma_work_days_in_split(calendar, day + 1, day + 2, found + 1);
                },
                None => {
                    lemma_work_days_in_split(calendar, day + 1, day + 2, MAX_DAY + 1);
                },
            }
        }
    }
}

/// Where `walk_backward` ends is a working day before `day`, and exactly
/// `steps` working days lie from it up to, but not including, `day`.
pub proof fn lemma_walk_backward(calendar: CalendarView, day: int, steps: nat)
    requires
        steps >= 1,
    ensures
        match walk_backward(calendar, day, steps) {
            Some(found) => found < day && is_work_day_spec(calendar, found) && work_days_in(
                calendar,
                found,
                day,
            ) == steps,
            None => work_days_in(calendar, MIN_DAY as int, day) < steps,
        },
    decreases day - MIN_DAY,
{
    if day <= MIN_DAY {
        lemma_work_days_in_bounds(calendar, MIN_DAY as int, day);
    } else {
        let next_steps: nat = if is_work_day_spec(calendar, day - 1) {
            (steps - 1) as nat
        } else {
            steps
        };
        assert(work_days_in(calendar, day - 1, day) == if is_work_day_spec(calendar, day - 1) {
            1int
        } else {
            0int
        }) by {
            assert(work_days_in(calendar, day - 1, day - 1) == 0);
        }
        if next_steps != 0 {
            lemma_walk_backward(calendar, day - 1, next_steps);
            match walk_backward(calendar, day - 1, next_steps) {
                Some(found) => {
                    lemma_work_days_in_split(calendar, found, day - 1, day);
                },
                None => {
                    lemma_work_days_in_split(calendar, MIN_DAY as int, day - 1, day);
                },
            }
        }
    }
}

/// Every day that `add_work_days_spec` finds is a working day.
pub proof fn lemma_add_work_days_lands_on_work_day(calendar: CalendarView, day: int, days: int)
    ensures
        add_work_days_spec(calendar, day, days) matches Some(found) ==> is_work_day_spec(
            calendar,
            found,
        ),
{
    if day_in_range(day) {
        if days == 0 {
            lemma_first_work_day_from(calendar, day);
        } else if days > 0 {
            lemma_walk_forward(calendar, day, days as nat);
        } else {
            lemma_walk_backward(calendar, day, (-days) as nat);
        }
    }
}

/// The inclusive count does not depend on the order of its two days.
pub proof fn law_count_work_days_symmetric(calendar: CalendarView, a: int, b: int)
    ensures
        count_work_days_spec(calendar, a, b) == count_work_days_spec(calendar, b, a),
{
}

/// A span that starts on a working day and ends `days` working days later
/// counts `days + 1` working days.
pub proof fn lemma_span_of_shift(calendar: CalendarView, day: int, days: int)
    requires
        days >= 0,
        is_work_day_spec(calendar, day),
    ensures
        add_work_days_spec(calendar, day, days) matches Some(found) ==> count_work_days_spec(
            calendar,
            day,
            found,
        ) == days + 1,
{
    assert(work_days_in(calendar, day, day + 1) == 1) by {
        assert(work_days_in(calendar, day, day) == 0);
    }
    if days != 0 {
        lemma_walk_forward(calendar, day, days as nat);
        match walk_forward(calendar, day, days as nat) {
            Some(found) => {
                lemma_work_days_in_split(calendar, day, day + 1, found + 1);
            },
            None => {},
        }
    }
}

/// Walks to the day that lies `days` working days from `date`.
///
/// `None` is returned when `date` is outside the handled range or the walk
/// would leave it.
pub fn shift_work_days(date: Date, days: i64, calendar: &Calendar) -> (r: Option<Date>)
    ensures
        match r {
            Some(found) => add_work_days_spec(calendar@, date.day as int, days as int) == Some(
                found.day as int,
            ),
            None => add_work_days_spec(calendar@, date.day as int, days as int) is None,
        },
        r matches Some(found) ==> is_work_day_spec(calendar@, found.day as int),
{
    proof {
        lemma_add_work_days_lands_on_work_day(calendar@, date.day as int, days as int);
    }
    if date.day < MIN_DAY || date.day > MAX_DAY {
        return None;
    }
    let mut current: i32 = date.day;
    if days == 0 {
        loop
            invariant
                days == 0,
                day_in_range(date.day as int),
                day_in_range(current as int),
                first_work_day_from(calendar@, date.day as int) == first_work_day_from(
                    calendar@,
                    current as int,
                ),
            decreases MAX_DAY - current,
        {
            if is_work_day(&Date { day: current }, calendar) {
                return Some(Date { day: current });
            }
            if current >= MAX_DAY {
                assert(first_work_day_from(calendar@, current + 1) is None);
                return None;
            }
            current += 1;
        }
    } else if days > 0 {
        let mut remaining: i64 = days;
        while remaining > 0
            invariant
                days > 0,
                day_in_range(date.day as int),
                day_in_range(current as int),
                remaining >= 0,
                walk_forward(calendar@, date.day as int, days as nat) == walk_forward(
                    calendar@,
                    current as int,
                    remaining as nat,
                ),
            decreases MAX_DAY - current,
        {
            if current >= MAX_DAY {
                return None;
            }
            current += 1;
            if is_work_day(&Date { day: current }, calendar) {
                remaining -= 1;
            }
        }
        Some(Date { day: current })
    } else {
        let mut remaining: i64 = days;
        while remaining < 0
            invariant
                days < 0,
                day_in_range(date.day as int),
                day_in_range(current as int),
                remaining <= 0,
                walk_backward(calendar@, date.day as int, (-days) as nat) == walk_backward(
                    calendar@,
                    current as int,
                    (-remaining) as nat,
                ),
            decreases current - MIN_DAY,
        {
            if current <= MIN_DAY {
                return None;
            }
            current -= 1;
            if is_work_day(&Date { day: current }, calendar) {
                remaining += 1;
            }
        }
        Some(Date { day: current })
    }
}

/// `shift_work_days`, with `date` handed back where no day is found.
pub fn shift_or_keep(date: Date, days: i64, calendar: &Calendar) -> (r: Date)
    ensures
        r.day as int == shifted_day(calendar@, date.day as int, days as int),
{
    match shift_work_days(date, days, calendar) {
        Some(found) => found,
        None => date,
    }
}

/// Whether two optional dates are the same.
pub fn same_date(a: Option<Date>, b: Option<Date>) -> (r: bool)
    ensures
        r == (day_of(a) == day_of(b)),
{
    match (a, b) {
        (Some(x), Some(y)) => x.day == y.day,
        (None, None) => true,
        _ => false,
    }
}

/// The later of two optional days; an absent day yields to the other.
pub open spec fn later_of(a: Option<int>, b: Option<int>) -> Option<int> {
    match (a, b) {
        (Some(x), Some(y)) => if y > x {
            Some(y)
        } else {
            Some(x)
        },
        (None, _) => b,
        (_, None) => a,
    }
}

/// The earlier of two optional days; an absent day yields to the other.
pub open spec fn earlier_of(a: Option<int>, b: Option<int>) -> Option<int> {
    match (a, b) {
        (Some(x), Some(y)) => if y < x {
            Some(y)
        } else {
            Some(x)
        },
        (None, _) => b,
        (_, None) => a,
    }
}

/// The later of two optional dates.
pub fn later_date(a: Option<Date>, b: Option<Date>) -> (r: Option<Date>)
    ensures
        day_of(r) == later_of(day_of(a), day_of(b)),
{
    match (a, b) {
        (Some(x), Some(y)) => if y.day > x.day {
            Some(y)
        } else {
            Some(x)
        },
        (None, _) => b,
        (_, None) => a,
    }
}

/// The earlier of two optional dates.
pub fn earlier_date(a: Option<Date>, b: Option<Date>) -> (r: Option<Date>)
    ensures
        day_of(r) == earlier_of(day_of(a), day_of(b)),
{
    match (a, b) {
        (Some(x), Some(y)) => if y.day < x.day {
            Some(y)
        } else {
            Some(x)
        },
        (None, _) => b,
        (_, None) => a,
    }
}

/// The signed count of working days between two optional days, and 0 where
/// either is absent.
pub open spec fn signed_or_zero(calendar: CalendarView, a: Option<int>, b: Option<int>) -> int {
    match (a, b) {
        (Some(x), Some(y)) => work_days_signed_spec(calendar, x, y),
        _ => 0,
    }
}

/// The signed count of working days between two optional dates.
pub fn signed_between(a: Option<Date>, b: Option<Date>, calendar: &Calendar) -> (r: i32)
    ensures
        r == signed_or_zero(calendar@, day_of(a), day_of(b)),
        -MAX_DAY <= r <= MAX_DAY,
{
    match (a, b) {
        (Some(x), Some(y)) => work_days_signed(x, y, calendar),
        _ => 0,
    }
}

/// Counts the working days from `lo` up to, but not including, `hi`.
fn count_span(lo: i32, hi: i32, calendar: &Calendar) -> (r: i32)
    requires
        day_in_range(lo as int),
        lo <= hi <= MAX_DAY + 1,
    ensures
        r == work_days_in(calendar@, lo as int, hi as int),
        0 <= r <= hi - lo,
{
    let mut count: i32 = 0;
    let mut current: i32 = lo;
    while current < hi
        invariant
            lo <= current <= hi <= MAX_DAY + 1,
            day_in_range(lo as int),
            count == work_days_in(calendar@, lo as int, current as int),
            0 <= count <= current - lo,
        decreases hi - current,
    {
        if is_work_day(&Date { day: current }, calendar) {
            count += 1;
        }
        current += 1;
    }
    count
}

/// Counts the working days between two dates, both included and in either
/// order; the count is at least 1, and 0 when a date is outside the handled
/// range.
pub fn count_work_days(start: Date, end: Date, calendar: &Calendar) -> (r: i32)
    ensures
        r == count_work_days_spec(calendar@, start.day as int, end.day as int),
        0 <= r,
{
    if start.day < MIN_DAY || start.day > MAX_DAY || end.day < MIN_DAY || end.day > MAX_DAY {
        return 0;
    }
    let (lo, hi) = if start.day <= end.day {
        (start.day, end.day)
    } else {
        (end.day, start.day)
    };
    let count = count_span(lo, hi + 1, calendar);
    if count < 1 {
        1
    } else {
        count
    }
}

/// Counts the working days from `start` to `end` with a sign: those after
/// `start` through `end` when `end` is later, and the negated count of those
/// from `end` up to but not including `start` when `end` is earlier.
pub fn work_days_signed(start: Date, end: Date, calendar: &Calendar) -> (r: i32)
    ensures
        r == work_days_signed_spec(calendar@, start.day as int, end.day as int),
        -MAX_DAY <= r <= MAX_DAY,
{
    if start.day < MIN_DAY || start.day > MAX_DAY || end.day < MIN_DAY || end.day > MAX_DAY {
        return 0;
    }
    if start.day == end.day {
        0
    } else if end.day > start.day {
        count_span(start.day + 1, end.day + 1, calendar)
    } else {
        -count_span(end.day, start.day, calendar)
    }
}

/// The date a text stands for: what `chrono` reads from it, where that lies
/// in the handled range.
pub open spec fn parse_date_spec(text: Seq<char>) -> Option<Date> {
    match iso_day_number(text) {
        Some(day) => if day_in_range(day as int) {
            Some(Date { day })
        } else {
            None
        },
        None => None,
    }
}

/// The text of a date: `YYYY-MM-DD` as `chrono` writes it, and the empty
/// text for a date outside the handled range.
pub open spec fn date_text(date: Date) -> Seq<char> {
    if day_in_range(date.day as int) {
        iso_text(date.day as int)
    } else {
        Seq::empty()
    }
}

/// Reads a `YYYY-MM-DD` text as a date.
pub fn parse_date(text: &str) -> (r: Option<Date>)
    ensures
        r == parse_date_spec(text@),
        r matches Some(date) ==> day_in_range(date.day as int),
{
    match parse_day_number(text) {
        Some(day) => if MIN_DAY <= day && day <= MAX_DAY {
            Some(Date { day })
        } else {
            None
        },
        None => None,
    }
}

/// Writes a date as `YYYY-MM-DD`.
pub fn format_date(date: &Date) -> (r: String)
    ensures
        r@ == date_text(*date),
{
    if date.day < MIN_DAY || date.day > MAX_DAY {
        String::new()
    } else {
        format_day_number(date.day)
    }
}

/// What `add_work_days` returns: the text of the shifted date, and the input
/// itself where it is empty, is not read as a date, or no day is found.
pub open spec fn add_work_days_text(text: Seq<char>, days: int, calendar: CalendarView) -> Seq<char> {
    if text.len() == 0 {
        text
    } else {
        match parse_date_spec(text) {
            Some(date) => match add_work_days_spec(calendar, date.day as int, days) {
                Some(day) => iso_text(day),
                None => text,
            },
            None => text,
        }
    }
}

/// Adds `days` working days to the date written in `date_str` and writes the
/// result as `YYYY-MM-DD`. An empty or unreadable text comes back unchanged.
pub fn add_work_days(date_str: &str, days: i32, calendar: &Calendar) -> (r: String)
    ensures
        r@ == add_work_days_text(date_str@, days as int, calendar@),
{
    if date_str.is_empty() {
        return date_str.to_owned();
    }
    match parse_date(date_str) {
        Some(date) => match shift_work_days(date, days as i64, calendar) {
            Some(found) => format_day_number(found.day),
            None => date_str.to_owned(),
        },
        None => date_str.to_owned(),
    }
}

/// What `calc_work_days` returns: the inclusive count between the two dates
/// written, and 0 where a text is empty or not read as a date.
pub open spec fn calc_work_days_text(start: Seq<char>, end: Seq<char>, calendar: CalendarView) -> int {
    if start.len() == 0 || end.len() == 0 {
        0
    } else {
        match (parse_date_spec(start), parse_date_spec(end)) {
            (Some(a), Some(b)) => count_work_days_spec(calendar, a.day as int, b.day as int),
            _ => 0,
        }
    }
}

/// Counts the working days between the two dates written, both included and
/// in either order. The count is at least 1 for two readable dates and 0
/// otherwise.
pub fn calc_work_days(start_str: &str, end_str: &str, calendar: &Calendar) -> (r: i32)
    ensures
        r == calc_work_days_text(start_str@, end_str@, calendar@),
{
    if start_str.is_empty() || end_str.is_empty() {
        return 0;
    }
    let start = match parse_date(start_str) {
        Some(date) => date,
        None => {
            return 0;
        },
    };
    let end = match parse_date(end_str) {
        Some(date) => date,
        None => {
            return 0;
        },
    };
    count_work_days(start, end, calendar)
}

/// What `calc_work_days_difference` returns: the signed count between the two
/// dates written, and 0 where a text is empty or not read as a date.
pub open spec fn calc_work_days_difference_text(
    start: Seq<char>,
    end: Seq<char>,
    calendar: CalendarView,
) -> int {
    if start.len() == 0 || end.len() == 0 {
        0
    } else {
        match (parse_date_spec(start), parse_date_spec(end)) {
            (Some(a), Some(b)) => work_days_signed_spec(calendar, a.day as int, b.day as int),
            _ => 0,
        }
    }
}

/// The signed count of working days from the first date written to the
/// second: positive when the second is later, negative when it is earlier.
pub fn calc_work_days_difference(start_str: &str, end_str: &str, calendar: &Calendar) -> (r: i32)
    ensures
        r == calc_work_days_difference_text(start_str@, end_str@, calendar@),
{
    if start_str.is_empty() || end_str.is_empty() {
        return 0;
    }
    let start = match parse_date(start_str) {
        Some(date) => date,
        None => {
            return 0;
        },
    };
    let end = match parse_date(end_str) {
        Some(date) => date,
        None => {
            return 0;
        },
    };
    work_days_signed(start, end, calendar)
}

/// Reads the system clock through `chrono::Utc::now` and hands back the day
/// number of the current date in UTC. Trusted, and nothing is claimed of the
/// number: it differs from call to call.
#[verifier::external_body]
fn clock_day_number() -> i32 {
    chrono::Datelike::num_days_from_ce(&chrono::Utc::now().date_naive())
}

/// Today's date in UTC, where the system clock shows a date in the handled
/// range.
pub fn today_date() -> (r: Option<Date>)
    ensures
        r matches Some(date) ==> day_in_range(date.day as int),
{
    let day = clock_day_number();
    date_from_day_number(day)
}

/// Today's date in UTC as `YYYY-MM-DD`; the empty text where the system
/// clock shows no date in the handled range.
///
/// The clock decides the day; `format_date` says what text each day number
/// gets, and `date_from_day_number` what date. Two calls may read different
/// days.
pub fn today() -> (r: String)
    ensures
        r@.len() == 0 || exists|day: int| day_in_range(day) && r@ == iso_text(day),
{
    let day = clock_day_number();
    format_date(&Date { day })
}

/// The date with the day number `day`: a date exactly when the number lies
/// in the handled range.
pub open spec fn date_with_number(day: i32) -> Option<Date> {
    if day_in_range(day as int) {
        Some(Date { day })
    } else {
        None
    }
}

/// Makes a date of a day number, where the number lies in the handled range.
pub fn date_from_day_number(day: i32) -> (r: Option<Date>)
    ensures
        r == date_with_number(day),
{
    if MIN_DAY <= day && day <= MAX_DAY {
        Some(Date { day })
    } else {
        None
    }
}

/// A day at or after the day that lies `days` working days from `from` is at
/// least `days` working days from `from`, counted with sign.
pub proof fn lemma_signed_after_shift(calendar: CalendarView, from: int, days: int, later: int)
    requires
        add_work_days_spec(calendar, from, days) is Some,
        add_work_days_spec(calendar, from, days)->0 <= later,
        day_in_range(later),
    ensures
        work_days_signed_spec(calendar, from, later) >= days,
{
    let found = add_work_days_spec(calendar, from, days)->0;
    if days > 0 {
        lemma_walk_forward(calendar, from, days as nat);
        lemma_work_days_in_monotonic(calendar, from + 1, found + 1, from + 1, later + 1);
    } else if days == 0 {
        lemma_first_work_day_from(calendar, from);
        if later > from {
            lemma_work_days_in_bounds(calendar, from + 1, later + 1);
        }
    } else {
        lemma_walk_backward(calendar, from, (-days) as nat);
        if later > from {
            lemma_work_days_in_bounds(calendar, from + 1, later + 1);
        } else if later < from {
            lemma_work_days_in_monotonic(calendar, later, from, found, from);
        }
    }
}

/// A span from any day to the first working day at or after it counts one
/// working day.
pub proof fn lemma_span_to_first_work_day(calendar: CalendarView, day: int)
    requires
        day_in_range(day),
    ensures
        first_work_day_from(calendar, day) matches Some(found) ==> count_work_days_spec(
            calendar,
            day,
            found,
        ) == 1,
{
    lemma_first_work_day_from(calendar, day);
    match first_work_day_from(calendar, day) {
        Some(found) => {
        },
        None => {},
    }
}

/// A span that ends on a working day and starts `days` working days
/// earlier counts `days + 1` working days.
pub proof fn lemma_span_of_shift_back(calendar: CalendarView, day: int, days: int)
    requires
        days >= 0,
        is_work_day_spec(calendar, day),
    ensures
        add_work_days_spec(calendar, day, -days) matches Some(found) ==> count_work_days_spec(
            calendar,
            day,
            found,
        ) == days + 1 && (days == 0 ==> found == day),
{
    assert(work_days_in(calendar, day, day + 1) == 1) by {
        assert(work_days_in(calendar, day, day) == 0);
    }
    if days != 0 {
        lemma_walk_backward(calendar, day, days as nat);
        match walk_backward(calendar, day, days as nat) {
            Some(found) => {
                lemma_work_days_in_split(calendar, found, day, day + 1);
            },
            None => {},
        }
    }
}

} // verus!
