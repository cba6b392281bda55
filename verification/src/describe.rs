//! The describer: a deterministic natural-language rendering of a pattern.
//!
//! Shapes are recognized most specific first: every-second and every-minute
//! wildcard patterns, fixed-time daily patterns, weekly-on-weekday patterns,
//! monthly-on-day patterns; anything else falls back to a templated sentence
//! enumerating each restricted field's values.

use vstd::prelude::*;
use vstd::string::{StringExecFns, StrSliceExecFns};
use crate::render::{append_list, digit_str, spec_digit_str, spec_render_prefix};
use crate::types::{FieldConstraint, Pattern};

verus! {

pub open spec fn spec_pad2(v: int) -> Seq<char> {
    spec_digit_str(v / 10) + spec_digit_str(v % 10)
}

pub open spec fn weekday_name(v: int) -> Seq<char> {
    if v == 0 {
        "Sunday"@
    } else if v == 1 {
        "Monday"@
    } else if v == 2 {
        "Tuesday"@
    } else if v == 3 {
        "Wednesday"@
    } else if v == 4 {
        "Thursday"@
    } else if v == 5 {
        "Friday"@
    } else {
        "Saturday"@
    }
}

/// The first `i` weekday values rendered as names joined by commas.
pub open spec fn spec_dow_names(vs: Seq<u64>, i: int) -> Seq<char>
    decreases i,
{
    if i <= 0 {
        Seq::empty()
    } else if i == 1 {
        weekday_name(vs[0] as int)
    } else {
        spec_dow_names(vs, i - 1) + ", "@ + weekday_name(vs[i - 1] as int)
    }
}

pub open spec fn all_time_star(p: Pattern) -> bool {
    p.minutes.wildcard && p.hours.wildcard && p.days_of_month.wildcard && p.months.wildcard
        && p.days_of_week.wildcard
}

pub open spec fn is_every_second(p: Pattern) -> bool {
    p.seconds matches Some(c) && c.wildcard && all_time_star(p)
}

pub open spec fn is_every_minute(p: Pattern) -> bool {
    p.seconds is None && all_time_star(p)
}

pub open spec fn is_fixed_daily_time(p: Pattern) -> bool {
    &&& p.seconds is None
    &&& p.minutes.values@.len() == 1 && !p.minutes.wildcard
    &&& p.hours.values@.len() == 1 && !p.hours.wildcard
    &&& p.days_of_month.wildcard && p.months.wildcard
}

pub open spec fn is_monthly_on_day(p: Pattern) -> bool {
    &&& p.seconds is None
    &&& p.minutes.values@.len() == 1 && !p.minutes.wildcard
    &&& p.hours.values@.len() == 1 && !p.hours.wildcard
    &&& !p.days_of_month.wildcard
    &&& p.months.wildcard && p.days_of_week.wildcard
}

pub open spec fn spec_hhmm(p: Pattern) -> Seq<char> {
    spec_pad2(p.hours.values@[0] as int) + ":"@ + spec_pad2(p.minutes.values@[0] as int)
}

/// A field's part of the fallback sentence.
pub open spec fn spec_field_part(c: FieldConstraint, every: Seq<char>, one: Seq<char>) -> Seq<
    char,
> {
    if c.wildcard {
        every
    } else {
        one + spec_render_prefix(c.values@, c.values@.len() as int)
    }
}

pub open spec fn spec_day_part(p: Pattern) -> Seq<char> {
    if p.days_of_month.wildcard && p.days_of_week.wildcard {
        "every day"@
    } else if p.days_of_month.wildcard {
        "day-of-week "@ + spec_render_prefix(
            p.days_of_week.values@,
            p.days_of_week.values@.len() as int,
        )
    } else if p.days_of_week.wildcard {
        "day-of-month "@ + spec_render_prefix(
            p.days_of_month.values@,
            p.days_of_month.values@.len() as int,
        )
    } else {
        "day-of-month "@ + spec_render_prefix(
            p.days_of_month.values@,
            p.days_of_month.values@.len() as int,
        ) + " or day-of-week "@ + spec_render_prefix(
            p.days_of_week.values@,
            p.days_of_week.values@.len() as int,
        )
    }
}

pub open spec fn spec_sec_part(p: Pattern) -> Seq<char> {
    match p.seconds {
        None => "second 0"@,
        Some(c) => spec_field_part(c, "every second"@, "second "@),
    }
}

/// The fallback sentence enumerating each restricted field.
pub open spec fn spec_generic(p: Pattern) -> Seq<char> {
    "At "@ + spec_sec_part(p) + ", "@ + spec_field_part(p.minutes, "every minute"@, "minute "@)
        + ", "@ + spec_field_part(p.hours, "every hour"@, "hour "@) + ", "@ + spec_day_part(p)
        + ", "@ + spec_field_part(p.months, "every month"@, "month "@)
}

/// What `describe` returns.
pub open spec fn spec_describe(p: Pattern) -> Seq<char> {
    if is_every_second(p) {
        "Every second"@
    } else if is_every_minute(p) {
        "Every minute"@
    } else if is_fixed_daily_time(p) {
        if p.days_of_week.wildcard {
            "At "@ + spec_hhmm(p) + " every day"@
        } else {
            "At "@ + spec_hhmm(p) + " on "@ + spec_dow_names(
                p.days_of_week.values@,
                p.days_of_week.values@.len() as int,
            )
        }
    } else if is_monthly_on_day(p) {
        "At "@ + spec_hhmm(p) + " on day-of-month "@ + spec_render_prefix(
            p.days_of_month.values@,
            p.days_of_month.values@.len() as int,
        )
    } else {
        spec_generic(p)
    }
}

fn weekday_name_exec(v: u64) -> (r: &'static str)
    ensures
        r@ == weekday_name(v as int),
{
    if v == 0 {
        "Sunday"
    } else if v == 1 {
        "Monday"
    } else if v == 2 {
        "Tuesday"
    } else if v == 3 {
        "Wednesday"
    } else if v == 4 {
        "Thursday"
    } else if v == 5 {
        "Friday"
    } else {
        "Saturday"
    }
}

fn append_dow_names(s: &mut String, vs: &Vec<u64>)
    ensures
        final(s)@ == old(s)@ + spec_dow_names(vs@, vs@.len() as int),
{
    let mut i: usize = 0;
    while i < vs.len()
        invariant
            i <= vs@.len(),
            s@ == old(s)@ + spec_dow_names(vs@, i as int),
        decreases vs@.len() - i,
    {
        if i > 0 {
            s.append(", ");
        }
        s.append(weekday_name_exec(vs[i]));
        proof {
            assert(s@ =~= old(s)@ + spec_dow_names(vs@, i as int + 1));
        }
        i += 1;
    }
}

fn append_pad2(s: &mut String, v: u64)
    requires
        v <= 99,
    ensures
        final(s)@ == old(s)@ + spec_pad2(v as int),
{
    s.append(digit_str(v / 10));
    s.append(digit_str(v % 10));
    proof {
        assert(s@ =~= old(s)@ + spec_pad2(v as int));
    }
}

fn append_field_part(s: &mut String, c: &FieldConstraint, every: &str, one: &str)
    requires
        forall|i: int| 0 <= i < c.values@.len() ==> #[trigger] c.values@[i] <= 99,
    ensures
        final(s)@ == old(s)@ + spec_field_part(*c, every@, one@),
{
    if c.wildcard {
        s.append(every);
    } else {
        s.append(one);
        append_list(s, &c.values);
        proof {
            assert(s@ =~= old(s)@ + spec_field_part(*c, every@, one@));
        }
    }
}

impl Pattern {
    /// A deterministic human-readable description of the pattern.
    pub fn describe(&self) -> (r: String)
        requires
            self.wf(),
        ensures
            r@ == spec_describe(*self),
    {
        let sec_star = match &self.seconds {
            Some(c) => c.wildcard,
            None => false,
        };
        let all_star = self.minutes.wildcard && self.hours.wildcard
            && self.days_of_month.wildcard && self.months.wildcard && self.days_of_week.wildcard;
        if sec_star && all_star {
            return "Every second".to_owned();
        }
        let no_secs = match &self.seconds {
            Some(_) => false,
            None => true,
        };
        if no_secs && all_star {
            return "Every minute".to_owned();
        }
        if no_secs && self.minutes.values.len() == 1 && !self.minutes.wildcard
            && self.hours.values.len() == 1 && !self.hours.wildcard && self.days_of_month.wildcard
            && self.months.wildcard {
            let mut out = "At ".to_owned();
            append_pad2(&mut out, self.hours.values[0]);
            out.append(":");
            append_pad2(&mut out, self.minutes.values[0]);
            if self.days_of_week.wildcard {
                out.append(" every day");
            } else {
                out.append(" on ");
                append_dow_names(&mut out, &self.days_of_week.values);
            }
            proof {
                assert(out@ =~= spec_describe(*self));
            }
            return out;
        }
        if no_secs && self.minutes.values.len() == 1 && !self.minutes.wildcard
            && self.hours.values.len() == 1 && !self.hours.wildcard
            && !self.days_of_month.wildcard && self.months.wildcard
            && self.days_of_week.wildcard {
            let mut out = "At ".to_owned();
            append_pad2(&mut out, self.hours.values[0]);
            out.append(":");
            append_pad2(&mut out, self.minutes.values[0]);
            out.append(" on day-of-month ");
            append_list(&mut out, &self.days_of_month.values);
            proof {
                assert(out@ =~= spec_describe(*self));
            }
            return out;
        }
        let mut out = "At ".to_owned();
        match &self.seconds {
            None => {
                out.append("second 0");
            },
            Some(c) => {
                append_field_part(&mut out, c, "every second", "second ");
            },
        }
        out.append(", ");
        append_field_part(&mut out, &self.minutes, "every minute", "minute ");
        out.append(", ");
        append_field_part(&mut out, &self.hours, "every hour", "hour ");
        out.append(", ");
        if self.days_of_month.wildcard && self.days_of_week.wildcard {
            out.append("every day");
        } else if self.days_of_month.wildcard {
            out.append("day-of-week ");
            append_list(&mut out, &self.days_of_week.values);
        } else if self.days_of_week.wildcard {
            out.append("day-of-month ");
            append_list(&mut out, &self.days_of_month.values);
        } else {
            out.append("day-of-month ");
            append_list(&mut out, &self.days_of_month.values);
            out.append(" or day-of-week ");
            append_list(&mut out, &self.days_of_week.values);
        }
        proof {
            assert(out@ =~= "At "@ + spec_sec_part(*self) + ", "@ + spec_field_part(
                self.minutes,
                "every minute"@,
                "minute "@,
            ) + ", "@ + spec_field_part(self.hours, "every hour"@, "hour "@) + ", "@
                + spec_day_part(*self));
        }
        out.append(", ");
        append_field_part(&mut out, &self.months, "every month", "month ");
        proof {
            assert(out@ =~= spec_describe(*self));
        }
        out
    }
}

} // verus!
