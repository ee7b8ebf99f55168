use crate::decimal::{padded, push_padded};
use vstd::prelude::*;

verus! {

/// A calendar date of the proleptic Gregorian calendar, with a year of at
/// most four digits.
#[derive(Clone, Copy, Debug, PartialEq, Eq, Structural)]
pub struct Day {
    pub year: i32,
    pub month: u8,
    pub day: u8,
}

pub open spec fn is_leap(year: int) -> bool {
    (year % 4 == 0 && year % 100 != 0) || year % 400 == 0
}

pub open spec fn days_in_month(year: int, month: int) -> int {
    if month == 2 {
        if is_leap(year) { 29 } else { 28 }
    } else if month == 4 || month == 6 || month == 9 || month == 11 {
        30
    } else {
        31
    }
}

pub open spec fn days_in_year(year: int) -> int {
    if is_leap(year) { 366 } else { 365 }
}

/// Whether `year`-`month`-`day` names a date of the calendar, with `0 <= year <= 9999`.
pub open spec fn is_valid_date(year: int, month: int, day: int) -> bool {
    &&& 0 <= year <= 9999
    &&& 1 <= month <= 12
    &&& 1 <= day <= days_in_month(year, month)
}

/// Days from the first of January of year 0 to the first of January of `year`.
pub open spec fn days_before_year(year: int) -> int
    decreases year,
{
    if year <= 0 { 0 } else { days_before_year(year - 1) + days_in_year(year - 1) }
}

/// Days from the first of January to the first of `month` in `year`.
pub open spec fn days_before_month(year: int, month: int) -> int {
    let leap: int = if is_leap(year) { 1 } else { 0 };
    if month <= 1 { 0 }
    else if month == 2 { 31 }
    else if month == 3 { 59 + leap }
    else if month == 4 { 90 + leap }
    else if month == 5 { 120 + leap }
    else if month == 6 { 151 + leap }
    else if month == 7 { 181 + leap }
    else if month == 8 { 212 + leap }
    else if month == 9 { 243 + leap }
    else if month == 10 { 273 + leap }
    else if month == 11 { 304 + leap }
    else { 334 + leap }
}

impl Day {
    pub open spec fn valid(self) -> bool {
        is_valid_date(self.year as int, self.month as int, self.day as int)
    }

    /// The number of days from 0000-01-01 to this date.
    pub open spec fn ordinal(self) -> int {
        days_before_year(self.year as int) + days_before_month(self.year as int, self.month as int)
            + self.day - 1
    }

    /// The order of dates: by year, then month, then day.
    pub open spec fn precedes(self, other: Day) -> bool {
        ||| self.year < other.year
        ||| self.year == other.year && self.month < other.month
        ||| self.year == other.year && self.month == other.month && self.day < other.day
    }

    /// The last date this type can hold, 9999-12-31.
    pub open spec fn is_last(self) -> bool {
        self.year == 9999 && self.month == 12 && self.day == 31
    }

    /// The date that follows this one.
    pub open spec fn following(self) -> Day {
        if (self.day as int) < days_in_month(self.year as int, self.month as int) {
            Day { year: self.year, month: self.month, day: (self.day + 1) as u8 }
        } else if self.month < 12 {
            Day { year: self.year, month: (self.month + 1) as u8, day: 1 }
        } else {
            Day { year: (self.year + 1) as i32, month: 1, day: 1 }
        }
    }

    /// The date `year`-`month`-`day`, or `None` where that is no date of the calendar.
    pub fn new(year: i32, month: u8, day: u8) -> (r: Option<Day>)
        ensures
            r is Some <==> is_valid_date(year as int, month as int, day as int),
            r is Some ==> r->0 == (Day { year, month, day }),
    {
        if year < 0 || year > 9999 || month < 1 || month > 12 || day < 1 {
            return None;
        }
        if day > month_length(year, month) {
            return None;
        }
        Some(Day { year, month, day })
    }

    /// The eight-digit text `YYYYMMDD` of this date.
    pub open spec fn text(self) -> Seq<char> {
        padded(self.year as int, 4) + padded(self.month as int, 2) + padded(self.day as int, 2)
    }

    /// The eight-digit text `YYYYMMDD` of this date.
    pub fn day_string(&self) -> (r: String)
        requires
            self.valid(),
        ensures
            r@ == self.text(),
    {
        let mut s = String::new();
        push_padded(&mut s, self.year as u32, 4);
        push_padded(&mut s, self.month as u32, 2);
        push_padded(&mut s, self.day as u32, 2);
        assert(s@ =~= self.text());
        s
    }

    /// Whether this date comes strictly before `other`.
    pub fn before(&self, other: &Day) -> (r: bool)
        ensures
            r == self.precedes(*other),
    {
        self.year < other.year || (self.year == other.year && (self.month < other.month || (
        self.month == other.month && self.day < other.day)))
    }
}

fn leap_year(year: i32) -> (r: bool)
    requires
        0 <= year,
    ensures
        r == is_leap(year as int),
{
    (year % 4 == 0 && year % 100 != 0) || year % 400 == 0
}

fn month_length(year: i32, month: u8) -> (r: u8)
    requires
        0 <= year,
        1 <= month <= 12,
    ensures
        r as int == days_in_month(year as int, month as int),
{
    if month == 2 {
        if leap_year(year) { 29 } else { 28 }
    } else if month == 4 || month == 6 || month == 9 || month == 11 {
        30
    } else {
        31
    }
}

/// Relies on time's `Month::try_from`, `Date::from_calendar_date` and
/// `Date::next_day`: the calendar date after `d`, with `Date`'s own fields
/// read back by `year`, `month` and `day`.
#[verifier::external_body]
fn next_calendar_day(d: &Day) -> (r: Option<Day>)
    requires
        d.valid(),
    ensures
        !d.is_last() ==> r == Some(d.following()),
{
    let month = time::Month::try_from(d.month).ok()?;
    let date = time::Date::from_calendar_date(d.year, month, d.day).ok()?;
    date.next_day().map(|n| Day { year: n.year(), month: u8::from(n.month()), day: n.day() })
}

/// The first `n` dates from `start` on, one day apart.
pub open spec fn walk(start: Day, n: nat) -> Seq<Day>
    decreases n,
{
    if n == 0 {
        Seq::empty()
    } else {
        seq![start] + walk(start.following(), (n - 1) as nat)
    }
}

/// The number of dates from `start` up to, and not including, `end`.
pub open spec fn day_count(start: Day, end: Day) -> nat {
    if start.ordinal() < end.ordinal() {
        (end.ordinal() - start.ordinal()) as nat
    } else {
        0
    }
}

/// The dates from `start` up to, and not including, `end`.
pub open spec fn days_between(start: Day, end: Day) -> Seq<Day> {
    walk(start, day_count(start, end))
}

proof fn lemma_years_monotone(a: int, b: int)
    requires
        0 <= a <= b,
    ensures
        days_before_year(a) <= days_before_year(b),
    decreases b - a,
{
    if a < b {
        lemma_years_monotone(a, b - 1);
    }
}

proof fn lemma_following(d: Day)
    requires
        d.valid(),
        !d.is_last(),
    ensures
        d.following().valid(),
        d.following().ordinal() == d.ordinal() + 1,
{
    let y = d.year as int;
    if d.month == 12 && d.day == 31 {
        assert(days_before_year(y + 1) == days_before_year(y) + days_in_year(y));
    }
}

/// On valid dates, the order by year, month and day is the order of ordinals.
proof fn lemma_order(a: Day, b: Day)
    requires
        a.valid(),
        b.valid(),
    ensures
        a.precedes(b) <==> a.ordinal() < b.ordinal(),
{
    if a.precedes(b) {
        lemma_precedes(a, b);
    } else if b.precedes(a) {
        lemma_precedes(b, a);
    }
}

proof fn lemma_precedes(a: Day, b: Day)
    requires
        a.valid(),
        b.valid(),
        a.precedes(b),
    ensures
        a.ordinal() < b.ordinal(),
{
    let (ya, yb) = (a.year as int, b.year as int);
    if ya < yb {
        assert(days_before_year(ya + 1) == days_before_year(ya) + days_in_year(ya));
        lemma_years_monotone(ya + 1, yb);
    }
}

proof fn lemma_walk(start: Day, n: nat, end: Day)
    requires
        start.valid(),
        end.valid(),
        start.ordinal() + n <= end.ordinal(),
    ensures
        walk(start, n).len() == n,
        forall|i: int|
            0 <= i < n ==> (#[trigger] walk(start, n)[i]).valid() && walk(start, n)[i].ordinal()
                == start.ordinal() + i,
    decreases n,
{
    if n > 0 {
        lemma_order(start, end);
        lemma_following(start);
        let next = start.following();
        lemma_walk(next, (n - 1) as nat, end);
        let w = walk(start, n);
        assert forall|i: int| 0 <= i < n implies (#[trigger] w[i]).valid() && w[i].ordinal()
            == start.ordinal() + i by {
            if i == 0 {
                assert(w[0] == start);
            } else {
                let v = walk(next, (n - 1) as nat)[i - 1];
                assert(w[i] == v);
            }
        }
    }
}

/// From `start` to `end`, with `start` before `end`, the walk gives exactly as
/// many dates as lie between them: the first is `start`, the `i`-th lies `i`
/// days after it (so no date is skipped or repeated), each is a valid date
/// before `end`, and each comes strictly before the next.
pub proof fn lemma_days_between(start: Day, end: Day)
    requires
        start.valid(),
        end.valid(),
        start.precedes(end),
    ensures
        days_between(start, end).len() == end.ordinal() - start.ordinal(),
        days_between(start, end)[0] == start,
        forall|i: int|
            0 <= i < days_between(start, end).len() ==> {
                &&& #[trigger] days_between(start, end)[i].valid()
                &&& days_between(start, end)[i].ordinal() == start.ordinal() + i
                &&& days_between(start, end)[i].precedes(end)
            },
        forall|i: int, j: int|
            0 <= i < j < days_between(start, end).len() ==> #[trigger] days_between(
                start,
                end,
            )[i].precedes(#[trigger] days_between(start, end)[j]),
{
    lemma_order(start, end);
    let n = day_count(start, end);
    let s = days_between(start, end);
    lemma_walk(start, n, end);
    assert(s[0] == start);
    assert forall|i: int| 0 <= i < s.len() implies #[trigger] s[i].precedes(end) by {
        let d = s[i];
        lemma_order(d, end);
    }
    assert forall|i: int, j: int| 0 <= i < j < s.len() implies #[trigger] s[i].precedes(
        #[trigger] s[j],
    ) by {
        let (a, b) = (s[i], s[j]);
        lemma_order(a, b);
    }
}

/// The dates from a start date up to, and not including, an end date, one at a time.
pub struct DayRange {
    pub cur: Day,
    pub end: Day,
}

impl DayRange {
    pub open spec fn wf(self) -> bool {
        self.cur.valid() && self.end.valid()
    }

    /// The dates still to come.
    pub open spec fn remaining(self) -> Seq<Day> {
        days_between(self.cur, self.end)
    }

    /// The dates from `start` up to, and not including, `end`.
    pub fn new(start: Day, end: Day) -> (r: DayRange)
        requires
            start.valid(),
            end.valid(),
        ensures
            r.wf(),
            r.cur == start,
            r.end == end,
            r.remaining() == days_between(start, end),
    {
        DayRange { cur: start, end }
    }

    /// The next date, or `None` once the current date is no longer before the end.
    pub fn next(&mut self) -> (r: Option<Day>)
        requires
            old(self).wf(),
        ensures
            final(self).wf(),
            final(self).end == old(self).end,
            old(self).remaining().len() == 0 ==> r is None && *final(self) == *old(self),
            old(self).remaining().len() > 0 ==> r == Some(old(self).remaining()[0])
                && final(self).remaining() == old(self).remaining().drop_first(),
    {
        let d = self.cur;
        proof {
            lemma_order(d, self.end);
        }
        if !d.before(&self.end) {
            return None;
        }
        proof {
            lemma_following(d);
            let k = day_count(d, self.end);
            assert(walk(d, k).drop_first() =~= walk(d.following(), (k - 1) as nat));
        }
        match next_calendar_day(&d) {
            Some(n) => {
                self.cur = n;
                Some(d)
            },
            None => None,
        }
    }
}

} // verus!
