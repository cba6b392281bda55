//! Data model: seconds policy, parse errors, field constraints, patterns.

use vstd::prelude::*;

verus! {

/// Governs whether a five-field (no seconds) or six-field (with seconds)
/// textual pattern is accepted: `Optional` accepts either, `Required`
/// rejects five-field input, `Disallowed` rejects six-field input.
#[derive(Clone, Copy, Debug, PartialEq, Eq, Structural)]
pub enum SecondsPolicy {
    Optional,
    Required,
    Disallowed,
}

/// The distinct kinds of parse failure.
#[derive(Clone, Copy, Debug, PartialEq, Eq, Structural)]
pub enum ParseErrorKind {
    /// Wrong number of whitespace-separated fields for the active policy.
    FieldCountMismatch,
    /// An unrecognized name stood in place of a numeric value.
    UnknownAlias,
    /// A numeric value outside the field's domain.
    ValueOutOfDomain,
    /// A range `A-B` with `A > B`.
    InvertedRange,
    /// A step of zero.
    NonPositiveStep,
    /// Any other unparsable syntax.
    MalformedToken,
}

/// Mathematical form of a parse error: the kind, the index of the failing
/// field, and the offending substring.
pub struct ErrorModel {
    pub kind: ParseErrorKind,
    pub field: int,
    pub token: Seq<char>,
}

/// A parse error, carrying the failing field's index and its text.
/// For a field-count mismatch the index is the number of fields found
/// and the text is empty.
#[derive(Clone, Debug)]
pub struct ParseError {
    pub kind: ParseErrorKind,
    pub field_index: usize,
    pub token: String,
}

impl View for ParseError {
    type V = ErrorModel;

    open spec fn view(&self) -> ErrorModel {
        ErrorModel { kind: self.kind, field: self.field_index as int, token: self.token@ }
    }
}

/// The parsed form of one field: a finite, non-empty set of allowed values,
/// kept as a strictly increasing vector, tagged with whether the field was
/// written as the unrestricted wildcard (its whole text was exactly `*`).
#[derive(Clone, Debug)]
pub struct FieldConstraint {
    pub values: Vec<u64>,
    pub wildcard: bool,
}

/// Whether `x` occurs in `vs`.
pub open spec fn seq_contains_u64(vs: Seq<u64>, x: int) -> bool {
    exists|i: int| 0 <= i < vs.len() && vs[i] == x
}

impl FieldConstraint {
    /// Whether `v` is among the allowed values.
    pub open spec fn spec_contains(&self, v: int) -> bool {
        seq_contains_u64(self.values@, v)
    }

    /// The set of allowed values.
    pub open spec fn set(&self) -> Set<int> {
        Set::new(|v: int| self.spec_contains(v))
    }

    /// Strictly increasing, within the field's domain `[lo, hi]`, non-empty;
    /// a wildcard carries every value of the domain.
    pub open spec fn wf(&self, lo: int, hi: int) -> bool {
        &&& self.values@.len() > 0
        &&& (forall|i: int| 0 <= i < self.values@.len() ==> lo <= #[trigger] self.values@[i] <= hi)
        &&& (forall|i: int, j: int|
            0 <= i < j < self.values@.len() ==> #[trigger] self.values@[i] < #[trigger] self.values@[j])
        &&& (self.wildcard ==> forall|v: int| lo <= v <= hi ==> self.spec_contains(v))
    }

    /// Membership test.
    pub fn contains(&self, v: u64) -> (r: bool)
        ensures
            r == self.spec_contains(v as int),
    {
        let mut i: usize = 0;
        while i < self.values.len()
            invariant
                0 <= i <= self.values.len(),
                forall|j: int| 0 <= j < i ==> self.values@[j] != v,
            decreases self.values.len() - i,
        {
            if self.values[i] == v {
                assert(self.spec_contains(v as int));
                return true;
            }
            i += 1;
        }
        false
    }
}

/// Mathematical form of a pattern: the per-field value sets, the wildcard
/// tags of the two day fields, and the policy the pattern was parsed under.
#[verifier::ext_equal]
pub struct PatternModel {
    pub secs: Option<Set<int>>,
    pub mins: Set<int>,
    pub hours: Set<int>,
    pub doms: Set<int>,
    pub months: Set<int>,
    pub dows: Set<int>,
    pub dom_star: bool,
    pub dow_star: bool,
    pub policy: SecondsPolicy,
}

/// An immutable parsed cron pattern: six field constraints (the seconds
/// constraint present only when the text had six fields) and the seconds
/// policy used to parse it.
#[derive(Clone, Debug)]
pub struct Pattern {
    pub seconds: Option<FieldConstraint>,
    pub minutes: FieldConstraint,
    pub hours: FieldConstraint,
    pub days_of_month: FieldConstraint,
    pub months: FieldConstraint,
    pub days_of_week: FieldConstraint,
    pub policy: SecondsPolicy,
}

impl View for Pattern {
    type V = PatternModel;

    open spec fn view(&self) -> PatternModel {
        PatternModel {
            secs: match self.seconds {
                Some(c) => Some(c.set()),
                None => None,
            },
            mins: self.minutes.set(),
            hours: self.hours.set(),
            doms: self.days_of_month.set(),
            months: self.months.set(),
            dows: self.days_of_week.set(),
            dom_star: self.days_of_month.wildcard,
            dow_star: self.days_of_week.wildcard,
            policy: self.policy,
        }
    }
}

impl Pattern {
    /// Every constraint lies in its field's domain and the seconds constraint
    /// agrees with the policy. Day-of-week values are canonicalized to 0..=6
    /// (0 is Sunday; a textual 7 also denotes Sunday).
    pub open spec fn wf(&self) -> bool {
        &&& match self.seconds {
            Some(c) => c.wf(0, 59),
            None => true,
        }
        &&& self.minutes.wf(0, 59)
        &&& self.hours.wf(0, 23)
        &&& self.days_of_month.wf(1, 31)
        &&& self.months.wf(1, 12)
        &&& self.days_of_week.wf(0, 6)
        &&& (self.policy == SecondsPolicy::Required ==> self.seconds is Some)
        &&& (self.policy == SecondsPolicy::Disallowed ==> self.seconds is None)
    }

    pub open spec fn spec_has_seconds(&self) -> bool {
        self.seconds is Some
    }

    /// Whether the pattern carries a seconds field (was written with six fields).
    pub fn has_seconds(&self) -> (r: bool)
        ensures
            r == self.spec_has_seconds(),
    {
        self.seconds.is_some()
    }

    /// The policy the pattern was parsed under.
    pub fn seconds_policy(&self) -> (r: SecondsPolicy)
        ensures
            r == self.policy,
    {
        self.policy
    }
}

} // verus!
