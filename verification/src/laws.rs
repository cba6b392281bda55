//! Properties relating the matcher and the occurrence search.

use vstd::prelude::*;
use crate::matching::spec_matches;
use crate::search::{spec_eff_start, spec_exhausted, spec_is_first_match, spec_search_end};
use crate::types::PatternModel;

verus! {

/// The first match from a given start is unique.
pub proof fn lemma_next_occurrence_unique(
    m: PatternModel,
    start: int,
    inclusive: bool,
    t1: int,
    t2: int,
)
    requires
        spec_is_first_match(m, start, inclusive, t1),
        spec_is_first_match(m, start, inclusive, t2),
    ensures
        t1 == t2,
{
    if t1 < t2 {
        assert(!spec_matches(m, t1));
    }
    if t2 < t1 {
        assert(!spec_matches(m, t2));
    }
}

/// Inclusive versus exclusive: an instant that itself satisfies the pattern
/// is its own inclusive next occurrence, while its exclusive next occurrence
/// lies strictly after it.
pub proof fn lemma_inclusive_vs_exclusive(
    m: PatternModel,
    t: int,
    t_inc: int,
    t_exc: int,
)
    requires
        0 <= t,
        spec_matches(m, t),
        spec_is_first_match(m, t, true, t_inc),
        spec_is_first_match(m, t, false, t_exc),
    ensures
        t_inc == t,
        t_exc > t,
{
    if t_inc > t {
        assert(!spec_matches(m, t));
    }
}

/// `xs` is the sequence the search produces when asked for `count`
/// occurrences after `start`: each element is the first match strictly after
/// the previous one, and the sequence stops short of `count` only on
/// exhaustion.
pub open spec fn spec_is_occurrence_chain(
    m: PatternModel,
    start: int,
    xs: Seq<int>,
    count: int,
) -> bool {
    &&& xs.len() <= count
    &&& (forall|i: int|
        0 <= i < xs.len() ==> spec_is_first_match(
            m,
            if i == 0 {
                start
            } else {
                xs[i - 1]
            },
            false,
            #[trigger] xs[i],
        ))
    &&& (xs.len() < count ==> spec_exhausted(
        m,
        if xs.len() == 0 {
            start
        } else {
            xs[xs.len() - 1]
        },
        false,
    ))
}

proof fn lemma_chain_prefix_eq(
    m: PatternModel,
    start: int,
    xs: Seq<int>,
    ys: Seq<int>,
    count: int,
    i: int,
)
    requires
        spec_is_occurrence_chain(m, start, xs, count),
        spec_is_occurrence_chain(m, start, ys, count),
        0 <= i < xs.len(),
        i < ys.len(),
    ensures
        xs[i] == ys[i],
    decreases i,
{
    if i > 0 {
        lemma_chain_prefix_eq(m, start, xs, ys, count, i - 1);
    }
    lemma_next_occurrence_unique(
        m,
        if i == 0 {
            start
        } else {
            xs[i - 1]
        },
        false,
        xs[i],
        ys[i],
    );
}

/// Idempotent chaining: asking for `count` occurrences yields exactly the
/// sequence obtained by `count` sequential exclusive next-occurrence calls,
/// each feeding its result back as the new start. Formally: any two
/// occurrence chains for the same pattern, start and count are equal.
pub proof fn lemma_chaining_deterministic(
    m: PatternModel,
    start: int,
    xs: Seq<int>,
    ys: Seq<int>,
    count: int,
)
    requires
        spec_is_occurrence_chain(m, start, xs, count),
        spec_is_occurrence_chain(m, start, ys, count),
    ensures
        xs =~= ys,
{
    assert forall|i: int| 0 <= i < xs.len() && i < ys.len() implies xs[i] == ys[i] by {
        lemma_chain_prefix_eq(m, start, xs, ys, count, i);
    }
    if xs.len() < ys.len() {
        let j = xs.len() as int;
        assert(spec_is_first_match(
            m,
            if j == 0 {
                start
            } else {
                ys[j - 1]
            },
            false,
            ys[j],
        ));
        assert(!spec_matches(m, ys[j]));
    }
    if ys.len() < xs.len() {
        let j = ys.len() as int;
        assert(spec_is_first_match(
            m,
            if j == 0 {
                start
            } else {
                xs[j - 1]
            },
            false,
            xs[j],
        ));
        assert(!spec_matches(m, xs[j]));
    }
}

} // verus!
