//! The matcher: does an instant satisfy a pattern?

use vstd::prelude::*;
use crate::calendar::{date_of_days, date_of_day_number, spec_weekday_of_day, Date};
use crate::types::{Pattern, PatternModel};
use crate::MAX_INSTANT;

verus! {

/// Whether the time-of-day part of the pattern accepts second-of-day `sod`.
/// A pattern without a seconds field matches only at second 0 of a minute.
pub open spec fn spec_time_ok(m: PatternModel, sod: int) -> bool {
    &&& match m.secs {
        Some(s) => s.contains(sod % 60),
        None => sod % 60 == 0,
    }
    &&& m.mins.contains((sod % 3600) / 60)
    &&& m.hours.contains(sod / 3600)
}

/// The day-of-month/day-of-week combination rule: with both fields
/// restricted the day matches if EITHER accepts it; a wildcard on one side
/// leaves the decision to the other; two wildcards accept every day.
pub open spec fn spec_day_ok(m: PatternModel, dom: int, dow: int) -> bool {
    if m.dom_star && m.dow_star {
        true
    } else if m.dom_star {
        m.dows.contains(dow)
    } else if m.dow_star {
        m.doms.contains(dom)
    } else {
        m.doms.contains(dom) || m.dows.contains(dow)
    }
}

/// Whether the date part of the pattern accepts day number `day`.
pub open spec fn spec_date_ok(m: PatternModel, day: int) -> bool {
    &&& m.months.contains(date_of_days(day as nat).month as int)
    &&& spec_day_ok(m, date_of_days(day as nat).day as int, spec_weekday_of_day(day))
}

/// Whether instant `t` (UTC epoch seconds) satisfies the pattern.
pub open spec fn spec_matches(m: PatternModel, t: int) -> bool {
    spec_time_ok(m, t % 86400) && spec_date_ok(m, t / 86400)
}

/// Time-of-day test for second-of-day `sod`.
pub(crate) fn time_ok(p: &Pattern, sod: u64) -> (r: bool)
    requires
        sod < 86400,
    ensures
        r == spec_time_ok(p@, sod as int),
{
    let sec_ok = match &p.seconds {
        Some(c) => c.contains(sod % 60),
        None => sod % 60 == 0,
    };
    sec_ok && p.minutes.contains((sod % 3600) / 60) && p.hours.contains(sod / 3600)
}

/// Date test for a day whose calendar date is `dt` and whose weekday is `wd`.
pub(crate) fn date_ok(p: &Pattern, dt: &Date, wd: u64) -> (r: bool)
    ensures
        r == (p@.months.contains(dt.month as int) && spec_day_ok(p@, dt.day as int, wd as int)),
{
    let month_ok = p.months.contains(dt.month);
    let day_ok = if p.days_of_month.wildcard && p.days_of_week.wildcard {
        true
    } else if p.days_of_month.wildcard {
        p.days_of_week.contains(wd)
    } else if p.days_of_week.wildcard {
        p.days_of_month.contains(dt.day)
    } else {
        p.days_of_month.contains(dt.day) || p.days_of_week.contains(wd)
    };
    month_ok && day_ok
}

impl Pattern {
    /// Whether instant `t` satisfies this pattern.
    pub fn is_match(&self, t: u64) -> (r: bool)
        requires
            t <= MAX_INSTANT,
        ensures
            r == spec_matches(self@, t as int),
    {
        let day = t / 86400;
        let sod = t % 86400;
        proof {
            vstd::arithmetic::div_mod::lemma_div_is_ordered(
                t as int,
                MAX_INSTANT as int,
                86400,
            );
        }
        let dt = date_of_day_number(day);
        let wd = (day + 4) % 7;
        time_ok(self, sod) && date_ok(self, &dt, wd)
    }
}

} // verus!
