//! Proleptic-Gregorian calendar arithmetic over day numbers since 1970-01-01.

use vstd::prelude::*;

verus! {

/// A calendar date.
#[derive(Clone, Copy, Debug, PartialEq, Eq, Structural)]
pub struct Date {
    pub year: u64,
    pub month: u64,
    pub day: u64,
}

pub open spec fn spec_is_leap(y: int) -> bool {
    y % 4 == 0 && (y % 100 != 0 || y % 400 == 0)
}

pub open spec fn spec_days_in_month(y: int, m: int) -> int {
    if m == 2 {
        if spec_is_leap(y) {
            29
        } else {
            28
        }
    } else if m == 4 || m == 6 || m == 9 || m == 11 {
        30
    } else {
        31
    }
}

impl Date {
    pub open spec fn wf(&self) -> bool {
        &&& 1970 <= self.year
        &&& 1 <= self.month <= 12
        &&& 1 <= self.day <= spec_days_in_month(self.year as int, self.month as int)
    }
}

/// The date immediately after `d`.
pub open spec fn spec_next_date(d: Date) -> Date {
    if d.day < spec_days_in_month(d.year as int, d.month as int) {
        Date { year: d.year, month: d.month, day: (d.day + 1) as u64 }
    } else if d.month < 12 {
        Date { year: d.year, month: (d.month + 1) as u64, day: 1 }
    } else {
        Date { year: (d.year + 1) as u64, month: 1, day: 1 }
    }
}

/// The date `n` days after 1970-01-01.
pub open spec fn date_of_days(n: nat) -> Date
    decreases n,
{
    if n == 0 {
        Date { year: 1970, month: 1, day: 1 }
    } else {
        spec_next_date(date_of_days((n - 1) as nat))
    }
}

/// Day of week of day number `n`, with 0 denoting Sunday.
/// Day number 0 (1970-01-01) was a Thursday.
pub open spec fn spec_weekday_of_day(n: int) -> int {
    (n + 4) % 7
}

pub proof fn lemma_date_of_days_wf(n: nat)
    requires
        n <= 0x1000_0000,
    ensures
        date_of_days(n).wf(),
        date_of_days(n).year <= 1970 + n,
    decreases n,
{
    if n > 0 {
        lemma_date_of_days_wf((n - 1) as nat);
    }
}

pub fn is_leap(y: u64) -> (r: bool)
    ensures
        r == spec_is_leap(y as int),
{
    y % 4 == 0 && (y % 100 != 0 || y % 400 == 0)
}

pub fn days_in_month(y: u64, m: u64) -> (r: u64)
    requires
        1 <= m <= 12,
    ensures
        r == spec_days_in_month(y as int, m as int),
{
    if m == 2 {
        if is_leap(y) {
            29
        } else {
            28
        }
    } else if m == 4 || m == 6 || m == 9 || m == 11 {
        30
    } else {
        31
    }
}

pub fn next_date(d: &Date) -> (r: Date)
    requires
        d.wf(),
        d.year < 100_000_000,
    ensures
        r == spec_next_date(*d),
{
    let dim = days_in_month(d.year, d.month);
    if d.day < dim {
        Date { year: d.year, month: d.month, day: d.day + 1 }
    } else if d.month < 12 {
        Date { year: d.year, month: d.month + 1, day: 1 }
    } else {
        Date { year: d.year + 1, month: 1, day: 1 }
    }
}

/// The calendar date of day number `n`.
pub fn date_of_day_number(n: u64) -> (r: Date)
    requires
        n <= 4_000_000,
    ensures
        r == date_of_days(n as nat),
        r.wf(),
{
    let mut d = Date { year: 1970, month: 1, day: 1 };
    let mut i: u64 = 0;
    while i < n
        invariant
            i <= n,
            n <= 4_000_000,
            d == date_of_days(i as nat),
        decreases n - i,
    {
        proof {
            lemma_date_of_days_wf(i as nat);
        }
        d = next_date(&d);
        i += 1;
    }
    proof {
        lemma_date_of_days_wf(n as nat);
    }
    d
}

} // verus!
