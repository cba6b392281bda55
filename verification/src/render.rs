//! Canonical text: the pattern rendered as fields joined by single spaces.
//!
//! A wildcard field renders as `*`; any other field renders as its full
//! value list in increasing order, comma-separated, in decimal (aliases and
//! steps are expanded; a `*/1` renders as the full list). This canonical
//! form is stable: it depends only on the constraint sets and wildcard tags.

use vstd::prelude::*;
use vstd::string::{StringExecFns, StrSliceExecFns};
use crate::types::{FieldConstraint, Pattern};

verus! {

pub open spec fn spec_digit_str(d: int) -> Seq<char> {
    if d == 0 {
        "0"@
    } else if d == 1 {
        "1"@
    } else if d == 2 {
        "2"@
    } else if d == 3 {
        "3"@
    } else if d == 4 {
        "4"@
    } else if d == 5 {
        "5"@
    } else if d == 6 {
        "6"@
    } else if d == 7 {
        "7"@
    } else if d == 8 {
        "8"@
    } else {
        "9"@
    }
}

/// A value rendered in decimal without leading zeros (domain values are at
/// most two digits).
pub open spec fn spec_render_value(v: int) -> Seq<char> {
    if v < 10 {
        spec_digit_str(v)
    } else {
        spec_digit_str(v / 10) + spec_digit_str(v % 10)
    }
}

/// The first `i` values rendered as a comma-separated list.
pub open spec fn spec_render_prefix(vs: Seq<u64>, i: int) -> Seq<char>
    decreases i,
{
    if i <= 0 {
        Seq::empty()
    } else if i == 1 {
        spec_render_value(vs[0] as int)
    } else {
        spec_render_prefix(vs, i - 1) + ","@ + spec_render_value(vs[i - 1] as int)
    }
}

pub open spec fn spec_render_field(c: FieldConstraint) -> Seq<char> {
    if c.wildcard {
        "*"@
    } else {
        spec_render_prefix(c.values@, c.values@.len() as int)
    }
}

/// The canonical text: `[seconds] minute hour day-of-month month day-of-week`.
pub open spec fn spec_canonical(p: Pattern) -> Seq<char> {
    (match p.seconds {
        Some(c) => spec_render_field(c) + " "@,
        None => Seq::empty(),
    }) + spec_render_field(p.minutes) + " "@ + spec_render_field(p.hours) + " "@
        + spec_render_field(p.days_of_month) + " "@ + spec_render_field(p.months) + " "@
        + spec_render_field(p.days_of_week)
}

pub(crate) fn digit_str(d: u64) -> (r: &'static str)
    requires
        d <= 9,
    ensures
        r@ == spec_digit_str(d as int),
{
    if d == 0 {
        "0"
    } else if d == 1 {
        "1"
    } else if d == 2 {
        "2"
    } else if d == 3 {
        "3"
    } else if d == 4 {
        "4"
    } else if d == 5 {
        "5"
    } else if d == 6 {
        "6"
    } else if d == 7 {
        "7"
    } else if d == 8 {
        "8"
    } else {
        "9"
    }
}

pub(crate) fn append_value(s: &mut String, v: u64)
    requires
        v <= 99,
    ensures
        final(s)@ == old(s)@ + spec_render_value(v as int),
{
    if v < 10 {
        s.append(digit_str(v));
    } else {
        s.append(digit_str(v / 10));
        s.append(digit_str(v % 10));
        proof {
            assert(s@ =~= old(s)@ + spec_render_value(v as int));
        }
    }
}

pub(crate) fn append_list(s: &mut String, vs: &Vec<u64>)
    requires
        forall|i: int| 0 <= i < vs@.len() ==> #[trigger] vs@[i] <= 99,
    ensures
        final(s)@ == old(s)@ + spec_render_prefix(vs@, vs@.len() as int),
{
    let mut i: usize = 0;
    while i < vs.len()
        invariant
            i <= vs@.len(),
            forall|j: int| 0 <= j < vs@.len() ==> #[trigger] vs@[j] <= 99,
            s@ == old(s)@ + spec_render_prefix(vs@, i as int),
        decreases vs@.len() - i,
    {
        if i > 0 {
            s.append(",");
        }
        append_value(s, vs[i]);
        proof {
            assert(s@ =~= old(s)@ + spec_render_prefix(vs@, i as int + 1));
        }
        i += 1;
    }
}

pub(crate) fn append_field(s: &mut String, c: &FieldConstraint)
    requires
        forall|i: int| 0 <= i < c.values@.len() ==> #[trigger] c.values@[i] <= 99,
    ensures
        final(s)@ == old(s)@ + spec_render_field(*c),
{
    if c.wildcard {
        s.append("*");
    } else {
        append_list(s, &c.values);
    }
}

impl Pattern {
    /// The canonical textual form of the pattern.
    pub fn canonical_text(&self) -> (r: String)
        requires
            self.wf(),
        ensures
            r@ == spec_canonical(*self),
    {
        let mut out = String::new();
        match &self.seconds {
            Some(c) => {
                append_field(&mut out, c);
                out.append(" ");
            },
            None => {},
        }
        append_field(&mut out, &self.minutes);
        out.append(" ");
        append_field(&mut out, &self.hours);
        out.append(" ");
        append_field(&mut out, &self.days_of_month);
        out.append(" ");
        append_field(&mut out, &self.months);
        out.append(" ");
        append_field(&mut out, &self.days_of_week);
        proof {
            assert(out@ =~= spec_canonical(*self));
        }
        out
    }
}

} // verus!
