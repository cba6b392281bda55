//! Occurrence search: the next (or next N) matching instant from a start.

use vstd::prelude::*;
use vstd::arithmetic::div_mod::{
    lemma_div_is_ordered, lemma_fundamental_div_mod, lemma_fundamental_div_mod_converse_div,
    lemma_fundamental_div_mod_converse_mod, lemma_mod_multiples_vanish,
};
use crate::calendar::{date_of_day_number, next_date, lemma_date_of_days_wf};
use crate::matching::{date_ok, spec_matches, spec_time_ok};
use crate::types::{Pattern, PatternModel};
use crate::MAX_INSTANT;

verus! {

/// How far past the effective start the search looks before declaring
/// exhaustion: five calendar years (1827 days) of seconds.
pub const SEARCH_HORIZON: u64 = 157_852_800;

/// The first instant the search considers: the start itself when inclusive,
/// otherwise the start advanced by the pattern's finest granularity (the
/// next second with seconds present, else the next minute boundary).
pub open spec fn spec_eff_start(m: PatternModel, start: int, inclusive: bool) -> int {
    if inclusive {
        start
    } else if m.secs is Some {
        start + 1
    } else {
        start + 60 - start % 60
    }
}

/// One past the last instant the search considers: the horizon past the
/// effective start, capped at the end of the supported range.
pub open spec fn spec_search_end(m: PatternModel, start: int, inclusive: bool) -> int {
    let e = spec_eff_start(m, start, inclusive) + SEARCH_HORIZON;
    if e > MAX_INSTANT + 1 {
        MAX_INSTANT + 1
    } else {
        e
    }
}

/// `t2` is the first matching instant in the searched window.
pub open spec fn spec_is_first_match(m: PatternModel, start: int, inclusive: bool, t2: int) -> bool {
    &&& spec_eff_start(m, start, inclusive) <= t2 < spec_search_end(m, start, inclusive)
    &&& spec_matches(m, t2)
    &&& forall|s: int|
        spec_eff_start(m, start, inclusive) <= s < t2 ==> !spec_matches(m, s)
}

/// No instant in the searched window matches.
pub open spec fn spec_exhausted(m: PatternModel, start: int, inclusive: bool) -> bool {
    forall|s: int|
        spec_eff_start(m, start, inclusive) <= s < spec_search_end(m, start, inclusive)
            ==> !spec_matches(m, s)
}

/// Nothing strictly between the start and the effective start can match:
/// the gap is empty with seconds present, and contains no minute boundary
/// (hence no instant a five-field pattern could match) without them.
proof fn lemma_gap_has_no_match(m: PatternModel, start: int, inclusive: bool)
    requires
        0 <= start,
    ensures
        forall|s: int| start < s < spec_eff_start(m, start, inclusive) ==> !spec_matches(m, s),
{
    if !inclusive && m.secs is None {
        assert forall|s: int| start < s < spec_eff_start(m, start, inclusive) implies !spec_matches(
            m,
            s,
        ) by {
            let q = start / 60;
            lemma_fundamental_div_mod(start, 60);
            lemma_fundamental_div_mod_converse_mod(s, 60, q, s - q * 60);
            assert(s % 60 != 0);
            lemma_fundamental_div_mod(s, 86400);
            lemma_mod_multiples_vanish(1440 * (s / 86400), s % 86400, 60);
            assert((s % 86400) % 60 == s % 60);
        }
    }
}

/// The first second-of-day at or after `sod0` whose time-of-day parts all
/// satisfy the pattern, if any.
fn find_time_in_day(p: &Pattern, sod0: u64) -> (r: Option<u64>)
    requires
        sod0 < 86400,
    ensures
        match r {
            Some(sod) => {
                &&& sod0 <= sod < 86400
                &&& spec_time_ok(p@, sod as int)
                &&& forall|x: int| sod0 <= x < sod ==> !spec_time_ok(p@, x)
            },
            None => forall|x: int| sod0 <= x < 86400 ==> !spec_time_ok(p@, x),
        },
{
    let mut x: u64 = sod0;
    while x < 86400
        invariant
            sod0 <= x <= 86400,
            forall|y: int| sod0 <= y < x ==> !spec_time_ok(p@, y),
        decreases 86400 - x,
    {
        let h = x / 3600;
        let rem = x % 3600;
        let m = rem / 60;
        proof {
            lemma_fundamental_div_mod(x as int, 3600);
            lemma_fundamental_div_mod(rem as int, 60);
            lemma_div_is_ordered(x as int, 86399, 3600);
            lemma_div_is_ordered(rem as int, 3599, 60);
        }
        if !p.hours.contains(h) {
            let nx = (h + 1) * 3600;
            assert forall|y: int| x <= y < nx implies !spec_time_ok(p@, y) by {
                lemma_fundamental_div_mod_converse_div(y, 3600, h as int, y - h * 3600);
            }
            x = nx;
        } else if !p.minutes.contains(m) {
            let nx = h * 3600 + (m + 1) * 60;
            assert forall|y: int| x <= y < nx implies !spec_time_ok(p@, y) by {
                lemma_fundamental_div_mod_converse_div(y, 3600, h as int, y - h * 3600);
                lemma_fundamental_div_mod_converse_mod(y, 3600, h as int, y - h * 3600);
                lemma_fundamental_div_mod_converse_div(
                    y - h * 3600,
                    60,
                    m as int,
                    y - h * 3600 - m * 60,
                );
            }
            x = nx;
        } else {
            match &p.seconds {
                Some(c) => {
                    if c.contains(x % 60) {
                        return Some(x);
                    }
                    x = x + 1;
                },
                None => {
                    if x % 60 == 0 {
                        return Some(x);
                    }
                    let q = x / 60;
                    proof {
                        lemma_fundamental_div_mod(x as int, 60);
                        lemma_div_is_ordered(x as int, 86399, 60);
                    }
                    let nx = (q + 1) * 60;
                    assert forall|y: int| x <= y < nx implies !spec_time_ok(p@, y) by {
                        lemma_fundamental_div_mod_converse_mod(y, 60, q as int, y - q * 60);
                    }
                    x = nx;
                },
            }
        }
    }
    None
}

impl Pattern {
    /// The next instant satisfying the pattern, searching from `start`
    /// (itself a candidate only when `inclusive` is true) up to the bounded
    /// horizon; `None` reports exhaustion. When a result exists it is the
    /// unique first match: nothing strictly between `start` and the result
    /// satisfies the pattern.
    pub fn next_occurrence(&self, start: u64, inclusive: bool) -> (r: Option<u64>)
        requires
            start <= MAX_INSTANT,
        ensures
            match r {
                Some(t2) => {
                    &&& spec_is_first_match(self@, start as int, inclusive, t2 as int)
                    &&& t2 <= MAX_INSTANT
                    &&& (inclusive ==> start <= t2)
                    &&& (!inclusive ==> start < t2)
                    &&& forall|s: int| start < s < t2 ==> !spec_matches(self@, s)
                },
                None => {
                    &&& spec_exhausted(self@, start as int, inclusive)
                    &&& forall|s: int|
                        start < s < spec_search_end(self@, start as int, inclusive)
                            ==> !spec_matches(self@, s)
                },
            },
    {
        proof {
            lemma_gap_has_no_match(self@, start as int, inclusive);
        }
        let eff: u64 = if inclusive {
            start
        } else if self.has_seconds() {
            start + 1
        } else {
            start + (60 - start % 60)
        };
        assert(eff as int == spec_eff_start(self@, start as int, inclusive));
        let raw_end: u64 = eff + SEARCH_HORIZON;
        let end: u64 = if raw_end > MAX_INSTANT + 1 {
            MAX_INSTANT + 1
        } else {
            raw_end
        };
        assert(end as int == spec_search_end(self@, start as int, inclusive));
        let mut day: u64 = eff / 86400;
        proof {
            lemma_div_is_ordered(eff as int, MAX_INSTANT as int + 60, 86400);
            lemma_fundamental_div_mod(eff as int, 86400);
        }
        let mut date = date_of_day_number(day);
        let mut cur: u64 = eff;
        while cur < end
            invariant
                eff as int == spec_eff_start(self@, start as int, inclusive),
                end as int == spec_search_end(self@, start as int, inclusive),
                end <= MAX_INSTANT + 1,
                eff <= cur,
                day == cur / 86400,
                date == crate::calendar::date_of_days(day as nat),
                forall|s: int| eff <= s < cur ==> !spec_matches(self@, s),
                forall|s: int| start < s < eff ==> !spec_matches(self@, s),
            decreases end / 86400 + 2 - day,
        {
            proof {
                lemma_fundamental_div_mod(cur as int, 86400);
                lemma_div_is_ordered(cur as int, MAX_INSTANT as int, 86400);
                lemma_div_is_ordered(cur as int, end as int - 1, 86400);
                lemma_div_is_ordered(end as int - 1, end as int, 86400);
                lemma_date_of_days_wf(day as nat);
            }
            let wd = (day + 4) % 7;
            if date_ok(self, &date, wd) {
                let sod0 = cur % 86400;
                match find_time_in_day(self, sod0) {
                    Some(sod) => {
                        let t = day * 86400 + sod;
                        proof {
                            lemma_fundamental_div_mod_converse_div(
                                t as int,
                                86400,
                                day as int,
                                sod as int,
                            );
                            lemma_fundamental_div_mod_converse_mod(
                                t as int,
                                86400,
                                day as int,
                                sod as int,
                            );
                            assert(spec_matches(self@, t as int));
                            assert forall|s: int| cur <= s < t implies !spec_matches(
                                self@,
                                s,
                            ) by {
                                lemma_fundamental_div_mod_converse_div(
                                    s,
                                    86400,
                                    day as int,
                                    s - day * 86400,
                                );
                                lemma_fundamental_div_mod_converse_mod(
                                    s,
                                    86400,
                                    day as int,
                                    s - day * 86400,
                                );
                            }
                        }
                        if t < end {
                            return Some(t);
                        } else {
                            return None;
                        }
                    },
                    None => {
                        proof {
                            assert forall|s: int| cur <= s < (day + 1) * 86400
                                implies !spec_matches(self@, s) by {
                                lemma_fundamental_div_mod_converse_div(
                                    s,
                                    86400,
                                    day as int,
                                    s - day * 86400,
                                );
                                lemma_fundamental_div_mod_converse_mod(
                                    s,
                                    86400,
                                    day as int,
                                    s - day * 86400,
                                );
                            }
                        }
                    },
                }
            } else {
                proof {
                    assert forall|s: int| cur <= s < (day + 1) * 86400 implies !spec_matches(
                        self@,
                        s,
                    ) by {
                        lemma_fundamental_div_mod_converse_div(
                            s,
                            86400,
                            day as int,
                            s - day * 86400,
                        );
                    }
                }
            }
            day = day + 1;
            date = next_date(&date);
            cur = day * 86400;
            proof {
                lemma_fundamental_div_mod_converse_div(cur as int, 86400, day as int, 0);
            }
        }
        None
    }
}


impl Pattern {
    /// The next `count` occurrences strictly after `start`, each found by an
    /// exclusive next-occurrence search from the previous result; stops early
    /// (returning fewer) on exhaustion.
    pub fn next_n_occurrences(&self, start: u64, count: usize) -> (r: Vec<u64>)
        requires
            start <= MAX_INSTANT,
        ensures
            crate::laws::spec_is_occurrence_chain(
                self@,
                start as int,
                r@.map_values(|t: u64| t as int),
                count as int,
            ),
            forall|i: int| 0 <= i < r@.len() ==> #[trigger] r@[i] <= MAX_INSTANT,
            forall|i: int|
                0 <= i < r@.len() ==> (if i == 0 {
                    start
                } else {
                    r@[i - 1]
                }) < #[trigger] r@[i],
    {
        let ghost m = self@;
        let mut out: Vec<u64> = Vec::new();
        let mut cur: u64 = start;
        let mut exhausted = false;
        while out.len() < count && !exhausted
            invariant
                start <= MAX_INSTANT,
                cur <= MAX_INSTANT,
                m == self@,
                out@.len() <= count,
                cur == if out@.len() == 0 {
                    start
                } else {
                    out@[out@.len() - 1]
                },
                forall|i: int|
                    0 <= i < out@.len() ==> spec_is_first_match(
                        m,
                        if i == 0 {
                            start as int
                        } else {
                            out@[i - 1] as int
                        },
                        false,
                        #[trigger] out@[i] as int,
                    ),
                forall|i: int| 0 <= i < out@.len() ==> #[trigger] out@[i] <= MAX_INSTANT,
                forall|i: int|
                    0 <= i < out@.len() ==> (if i == 0 {
                        start
                    } else {
                        out@[i - 1]
                    }) < #[trigger] out@[i],
                exhausted ==> spec_exhausted(m, cur as int, false),
            decreases count - out@.len(), (if exhausted { 0int } else { 1int }),
        {
            match self.next_occurrence(cur, false) {
                Some(t) => {
                    out.push(t);
                    cur = t;
                },
                None => {
                    exhausted = true;
                },
            }
        }
        proof {
            let xs = out@.map_values(|t: u64| t as int);
            assert(xs.len() == out@.len());
            assert forall|i: int| 0 <= i < xs.len() implies spec_is_first_match(
                m,
                if i == 0 {
                    start as int
                } else {
                    xs[i - 1]
                },
                false,
                #[trigger] xs[i],
            ) by {
                assert(out@[i] as int == xs[i]);
            }
        }
        out
    }
}

} // verus!
