//! Round-trip: parsing a pattern's canonical text under its own policy
//! reproduces the pattern's constraint sets, wildcard tags and policy.

use vstd::prelude::*;
use crate::parser::{
    all_digits, digits_val, find_from, is_digit_char, is_space_char, kind_cmax, kind_min,
    kind_pmax, spec_field_member, spec_parse, spec_parse_field, spec_parse_part, spec_parts,
    split_commas_from, spec_split_ws_from, tok_end, covers, ok_parts, FieldKind,
};
use crate::render::{spec_canonical, spec_digit_str, spec_render_field, spec_render_prefix,
    spec_render_value};
use crate::types::{seq_contains_u64, FieldConstraint, Pattern, PatternModel, SecondsPolicy};

verus! {

/// The rendered list from index `j` on: values joined by commas, head first.
pub open spec fn spec_render_suffix(vs: Seq<u64>, j: int) -> Seq<char>
    decreases vs.len() - j,
{
    if j < 0 || j >= vs.len() {
        Seq::empty()
    } else if j == vs.len() - 1 {
        spec_render_value(vs[j] as int)
    } else {
        spec_render_value(vs[j] as int) + ","@ + spec_render_suffix(vs, j + 1)
    }
}

proof fn lemma_digit_str_facts(d: int)
    requires
        0 <= d <= 9,
    ensures
        spec_digit_str(d).len() == 1,
        is_digit_char(spec_digit_str(d)[0]),
        digits_val(spec_digit_str(d)) == d,
{
    reveal_strlit("0");
    reveal_strlit("1");
    reveal_strlit("2");
    reveal_strlit("3");
    reveal_strlit("4");
    reveal_strlit("5");
    reveal_strlit("6");
    reveal_strlit("7");
    reveal_strlit("8");
    reveal_strlit("9");
    let s = spec_digit_str(d);
    assert(s.drop_last() =~= Seq::<char>::empty());
    assert(digits_val(Seq::<char>::empty()) == 0);
}

proof fn lemma_render_value_facts(v: int)
    requires
        0 <= v <= 99,
    ensures
        all_digits(spec_render_value(v)),
        1 <= spec_render_value(v).len() <= 2,
        digits_val(spec_render_value(v)) == v,
{
    if v < 10 {
        lemma_digit_str_facts(v);
    } else {
        lemma_digit_str_facts(v / 10);
        lemma_digit_str_facts(v % 10);
        let s = spec_render_value(v);
        assert(s.len() == 2);
        assert(s.drop_last() =~= spec_digit_str(v / 10));
        assert(s.last() == spec_digit_str(v % 10)[0]);
        vstd::arithmetic::div_mod::lemma_fundamental_div_mod(v, 10);
    }
}

/// `find_from` lands exactly after a run of `l` non-`c` characters followed
/// by `c` or the end.
proof fn lemma_find_run(s: Seq<char>, c: char, i: int, l: int)
    requires
        0 <= i,
        0 <= l,
        i + l <= s.len(),
        forall|j: int| i <= j < i + l ==> s[j] != c,
        i + l < s.len() ==> s[i + l] == c,
    ensures
        find_from(s, c, i) == if i + l < s.len() {
            i + l
        } else {
            s.len() as int
        },
    decreases l,
{
    if l > 0 {
        lemma_find_run(s, c, i + 1, l - 1);
    }
}

/// `tok_end` lands exactly after a run of `l` non-space characters followed
/// by a space or the end.
proof fn lemma_tok_run(s: Seq<char>, i: int, l: int)
    requires
        0 <= i,
        0 <= l,
        i + l <= s.len(),
        forall|j: int| i <= j < i + l ==> !is_space_char(s[j]),
        i + l < s.len() ==> is_space_char(s[i + l]),
    ensures
        tok_end(s, i) == i + l,
    decreases l,
{
    if l > 0 {
        lemma_tok_run(s, i + 1, l - 1);
    }
}

/// Rendering head-first and rendering tail-first agree.
proof fn lemma_prefix_suffix_glue(vs: Seq<u64>, j: int)
    requires
        1 <= j < vs.len(),
    ensures
        spec_render_prefix(vs, j) + ","@ + spec_render_suffix(vs, j) =~= spec_render_prefix(
            vs,
            vs.len() as int,
        ),
    decreases vs.len() - j,
{
    if j == vs.len() - 1 {
        assert(spec_render_prefix(vs, j) + ","@ + spec_render_suffix(vs, j) =~= spec_render_prefix(
            vs,
            vs.len() as int,
        ));
    } else {
        lemma_prefix_suffix_glue(vs, j + 1);
        assert(spec_render_prefix(vs, j + 1) =~= spec_render_prefix(vs, j) + ","@
            + spec_render_value(vs[j] as int));
        assert(spec_render_prefix(vs, j) + ","@ + spec_render_suffix(vs, j) =~= (
        spec_render_prefix(vs, j) + ","@ + spec_render_value(vs[j] as int)) + ","@
            + spec_render_suffix(vs, j + 1));
    }
}

proof fn lemma_prefix_is_suffix(vs: Seq<u64>)
    requires
        vs.len() >= 1,
    ensures
        spec_render_prefix(vs, vs.len() as int) =~= spec_render_suffix(vs, 0),
{
    if vs.len() == 1 {
    } else {
        lemma_prefix_suffix_glue(vs, 1);
        assert(spec_render_prefix(vs, 1) =~= spec_render_value(vs[0] as int));
    }
}

/// Splitting the rendered list on commas yields exactly the rendered values.
proof fn lemma_split_commas_suffix(s: Seq<char>, vs: Seq<u64>, i: int, j: int)
    requires
        0 <= j < vs.len(),
        0 <= i <= s.len(),
        forall|q: int| 0 <= q < vs.len() ==> #[trigger] vs[q] <= 99,
        s.subrange(i, s.len() as int) =~= spec_render_suffix(vs, j),
    ensures
        split_commas_from(s, i) =~= Seq::new((vs.len() - j) as nat, |q: int| spec_render_value(vs[j + q] as int)),
    decreases vs.len() - j,
{
    reveal_strlit(",");
    let v = vs[j] as int;
    lemma_render_value_facts(v);
    let vlen = spec_render_value(v).len() as int;
    if j < vs.len() - 1 {
        lemma_render_value_facts(vs[j + 1] as int);
        assert(spec_render_suffix(vs, j + 1).len() >= 1);
        assert(spec_render_suffix(vs, j).len() == vlen + 1 + spec_render_suffix(vs, j + 1).len());
    }
    assert forall|q: int| i <= q < i + vlen implies s[q] != ',' by {
        assert(s[q] == spec_render_suffix(vs, j)[q - i]);
        assert(spec_render_suffix(vs, j)[q - i] == spec_render_value(v)[q - i]);
        assert(is_digit_char(spec_render_value(v)[q - i]));
    }
    if j == vs.len() - 1 {
        assert(i + vlen == s.len());
        lemma_find_run(s, ',', i, vlen);
        assert(split_commas_from(s, i) =~= seq![s.subrange(i, s.len() as int)]);
        assert(s.subrange(i, s.len() as int) =~= spec_render_value(v));
        assert(split_commas_from(s, i) =~= Seq::new((vs.len() - j) as nat, |q: int| spec_render_value(
            vs[j + q] as int,
        )));
    } else {
        assert(s[i + vlen] == spec_render_suffix(vs, j)[vlen]);
        assert(spec_render_suffix(vs, j)[vlen] == ',');
        lemma_find_run(s, ',', i, vlen);
        assert(find_from(s, ',', i) == i + vlen);
        assert(s.subrange(i, i + vlen) =~= spec_render_value(v));
        assert forall|x: int| 0 <= x < spec_render_suffix(vs, j + 1).len() implies #[trigger] spec_render_suffix(
            vs,
            j + 1,
        )[x] == s[i + vlen + 1 + x] by {
            assert(s[i + vlen + 1 + x] == spec_render_suffix(vs, j)[vlen + 1 + x]);
            assert(spec_render_suffix(vs, j)[vlen + 1 + x] == spec_render_suffix(vs, j + 1)[x]);
        }
        assert(s.subrange(i + vlen + 1, s.len() as int) =~= spec_render_suffix(vs, j + 1));
        lemma_split_commas_suffix(s, vs, i + vlen + 1, j + 1);
        assert(split_commas_from(s, i) =~= seq![s.subrange(i, i + vlen)] + split_commas_from(
            s,
            i + vlen + 1,
        ));
        assert(split_commas_from(s, i) =~= Seq::new((vs.len() - j) as nat, |q: int| spec_render_value(
            vs[j + q] as int,
        )));
    }
}

/// A rendered value parses back as the single sub-expression (v, v, 1).
proof fn lemma_value_part(v: u64, k: FieldKind)
    requires
        kind_min(k) <= v <= kind_pmax(k),
    ensures
        spec_parse_part(spec_render_value(v as int), k) == Ok::<(int, int, int), crate::types::ParseErrorKind>((v as int, v as int, 1int)),
{
    let s = spec_render_value(v as int);
    lemma_render_value_facts(v as int);
    lemma_find_run(s, '/', 0, s.len() as int);
    lemma_find_run(s, '-', 0, s.len() as int);
    assert(s[0] != '*');
}

/// The rendered values parse back as exactly the singleton sub-expressions.
proof fn lemma_parts_values(parts: Seq<Seq<char>>, vs: Seq<u64>, k: FieldKind, j: int)
    requires
        0 <= j <= vs.len(),
        parts.len() == vs.len(),
        forall|q: int| 0 <= q < vs.len() ==> kind_min(k) <= #[trigger] vs[q] <= kind_pmax(k),
        forall|q: int| 0 <= q < vs.len() ==> #[trigger] parts[q] =~= spec_render_value(vs[q] as int),
    ensures
        spec_parts(parts, k, j) matches Ok(ts) && ts =~= Seq::new((vs.len() - j) as nat, |q: int| (
        vs[j + q] as int, vs[j + q] as int, 1int)),
    decreases vs.len() - j,
{
    if j < vs.len() {
        lemma_value_part(vs[j], k);
        assert(spec_parse_part(parts[j], k) == spec_parse_part(spec_render_value(vs[j] as int), k));
        lemma_parts_values(parts, vs, k, j + 1);
        let ts = match spec_parts(parts, k, j) {
            Ok(ts) => ts,
            Err(_) => Seq::empty(),
        };
        assert(ts =~= Seq::new((vs.len() - j) as nat, |q: int| (vs[j + q] as int, vs[j + q] as int, 1int)));
    } else {
        assert(spec_parts(parts, k, j) matches Ok(ts) && ts =~= Seq::new(0, |q: int| (
        vs[j + q] as int, vs[j + q] as int, 1int)));
    }
}

/// A well-formed field constraint round-trips through its rendering.
pub proof fn lemma_field_round_trip(c: FieldConstraint, k: FieldKind)
    requires
        c.wf(kind_min(k), kind_cmax(k)),
    ensures
        spec_parse_field(spec_render_field(c), k) matches Ok(pr) && {
            &&& pr.1 == c.wildcard
            &&& forall|v: int| spec_field_member(k, pr.0, v) <==> c.spec_contains(v)
        },
{
    let s = spec_render_field(c);
    if c.wildcard {
        reveal_strlit("*");
        assert(s.len() == 1 && s[0] == '*');
        lemma_find_run(s, ',', 0, 1);
        assert(split_commas_from(s, 0) =~= seq![s.subrange(0, 1)]);
        assert(s.subrange(0, 1) =~= s);
        lemma_find_run(s, '/', 0, 1);
        assert(spec_parse_part(s, k) == Ok::<(int, int, int), crate::types::ParseErrorKind>((kind_min(k), kind_pmax(k), 1int)));
        let pd = split_commas_from(s, 0);
        assert(spec_parts(pd, k, 1) matches Ok(e) && e =~= Seq::<(int, int, int)>::empty());
        assert(spec_parts(pd, k, 0) matches Ok(ts) && ts =~= seq![(kind_min(k), kind_pmax(k), 1int)]);
        let ts = ok_parts(spec_parse_field(s, k));
        assert(ts =~= seq![(kind_min(k), kind_pmax(k), 1int)]);
        assert forall|v: int| spec_field_member(k, ts, v) <==> c.spec_contains(v) by {
            if spec_field_member(k, ts, v) {
                assert(c.spec_contains(v));
            }
            if c.spec_contains(v) {
                let i = choose|i: int| 0 <= i < c.values@.len() && c.values@[i] == v;
                assert(kind_min(k) <= v <= kind_cmax(k));
                vstd::arithmetic::div_mod::lemma_fundamental_div_mod_converse_mod(
                    v - kind_min(k),
                    1,
                    v - kind_min(k),
                    0,
                );
                assert(covers(ts[0], v));
            }
        }
    } else {
        let vs = c.values@;
        assert(vs.len() >= 1);
        assert forall|q: int| 0 <= q < vs.len() implies #[trigger] vs[q] <= 99 by {
            assert(kind_min(k) <= vs[q] <= kind_cmax(k));
        }
        lemma_prefix_is_suffix(vs);
        assert(s =~= spec_render_suffix(vs, 0));
        assert(s.subrange(0, s.len() as int) =~= spec_render_suffix(vs, 0));
        lemma_split_commas_suffix(s, vs, 0, 0);
        let pd = split_commas_from(s, 0);
        assert(pd =~= Seq::new(vs.len(), |q: int| spec_render_value(vs[q] as int)));
        lemma_parts_values(pd, vs, k, 0);
        let ts = ok_parts(spec_parse_field(s, k));
        assert(ts =~= Seq::new(vs.len(), |q: int| (vs[q] as int, vs[q] as int, 1int)));
        // the rendering of a non-wildcard field is not `*`
        lemma_render_value_facts(vs[0] as int);
        if s.len() == 1 {
            assert(s[0] == spec_render_suffix(vs, 0)[0]);
            assert(is_digit_char(s[0]));
        }
        assert(!(s.len() == 1 && s[0] == '*'));
        assert forall|v: int| spec_field_member(k, ts, v) <==> c.spec_contains(v) by {
            if spec_field_member(k, ts, v) {
                if exists|i: int| 0 <= i < ts.len() && covers(#[trigger] ts[i], v) {
                    let i2 = choose|i2: int| 0 <= i2 < ts.len() && covers(#[trigger] ts[i2], v);
                    assert(v == vs[i2]);
                    assert(seq_contains_u64(vs, v));
                } else {
                    // day-of-week: no rendered value is 7, so 7 is never covered
                    let i3 = choose|i3: int| 0 <= i3 < ts.len() && covers(#[trigger] ts[i3], 7);
                    assert(vs[i3] <= kind_cmax(k));
                    assert(false);
                }
            }
            if c.spec_contains(v) {
                let i = choose|i: int| 0 <= i < vs.len() && vs[i] == v;
                assert(ts[i] == (vs[i] as int, vs[i] as int, 1int));
                vstd::arithmetic::div_mod::lemma_fundamental_div_mod_converse_mod(0, 1, 0, 0);
                assert(covers(ts[i], v));
                assert(kind_min(k) <= v <= kind_cmax(k));
            }
        }
    }
}


/// The fields from index `j` on, joined by single spaces.
pub open spec fn join_ws(fields: Seq<Seq<char>>, j: int) -> Seq<char>
    decreases fields.len() - j,
{
    if j < 0 || j >= fields.len() {
        Seq::empty()
    } else if j == fields.len() - 1 {
        fields[j]
    } else {
        fields[j] + " "@ + join_ws(fields, j + 1)
    }
}

proof fn lemma_suffix_no_space(vs: Seq<u64>, j: int)
    requires
        0 <= j < vs.len(),
        forall|q: int| 0 <= q < vs.len() ==> #[trigger] vs[q] <= 99,
    ensures
        spec_render_suffix(vs, j).len() >= 1,
        forall|x: int|
            0 <= x < spec_render_suffix(vs, j).len() ==> !is_space_char(
                #[trigger] spec_render_suffix(vs, j)[x],
            ),
    decreases vs.len() - j,
{
    reveal_strlit(",");
    lemma_render_value_facts(vs[j] as int);
    let f = spec_render_suffix(vs, j);
    let vlen = spec_render_value(vs[j] as int).len() as int;
    if j == vs.len() - 1 {
        assert forall|x: int| 0 <= x < f.len() implies !is_space_char(#[trigger] f[x]) by {
            assert(is_digit_char(spec_render_value(vs[j] as int)[x]));
        }
    } else {
        lemma_suffix_no_space(vs, j + 1);
        assert forall|x: int| 0 <= x < f.len() implies !is_space_char(#[trigger] f[x]) by {
            if x < vlen {
                assert(f[x] == spec_render_value(vs[j] as int)[x]);
                assert(is_digit_char(spec_render_value(vs[j] as int)[x]));
            } else if x == vlen {
                assert(f[x] == ',');
            } else {
                assert(f[x] == spec_render_suffix(vs, j + 1)[x - vlen - 1]);
            }
        }
    }
}

proof fn lemma_field_no_space(c: FieldConstraint, lo: int, hi: int)
    requires
        c.wf(lo, hi),
        0 <= lo,
        hi <= 99,
    ensures
        spec_render_field(c).len() >= 1,
        forall|x: int|
            0 <= x < spec_render_field(c).len() ==> !is_space_char(
                #[trigger] spec_render_field(c)[x],
            ),
{
    if c.wildcard {
        reveal_strlit("*");
        assert(spec_render_field(c).len() == 1);
        assert(spec_render_field(c)[0] == '*');
    } else {
        assert forall|q: int| 0 <= q < c.values@.len() implies #[trigger] c.values@[q] <= 99 by {
            assert(lo <= c.values@[q] <= hi);
        }
        lemma_prefix_is_suffix(c.values@);
        lemma_suffix_no_space(c.values@, 0);
    }
}

/// Splitting the joined fields on whitespace recovers exactly the fields.
proof fn lemma_split_ws_fields(s: Seq<char>, fields: Seq<Seq<char>>, i: int, j: int)
    requires
        0 <= j < fields.len(),
        0 <= i <= s.len(),
        forall|q: int| 0 <= q < fields.len() ==> (#[trigger] fields[q]).len() >= 1,
        forall|q: int, x: int|
            0 <= q < fields.len() && 0 <= x < fields[q].len() ==> !is_space_char(
                #[trigger] fields[q][x],
            ),
        s.subrange(i, s.len() as int) =~= join_ws(fields, j),
    ensures
        spec_split_ws_from(s, i) =~= Seq::new((fields.len() - j) as nat, |q: int| fields[j + q]),
    decreases fields.len() - j,
{
    reveal_strlit(" ");
    let f = fields[j];
    let flen = f.len() as int;
    if j < fields.len() - 1 {
        assert(join_ws(fields, j + 1).len() >= 1);
        assert(join_ws(fields, j).len() == flen + 1 + join_ws(fields, j + 1).len());
    }
    assert forall|q: int| i <= q < i + flen implies !is_space_char(s[q]) by {
        assert(s[q] == join_ws(fields, j)[q - i]);
        assert(join_ws(fields, j)[q - i] == f[q - i]);
    }
    assert(!is_space_char(s[i]));
    if j == fields.len() - 1 {
        assert(i + flen == s.len());
        lemma_tok_run(s, i, flen);
        assert(spec_split_ws_from(s, i) =~= seq![s.subrange(i, i + flen)] + spec_split_ws_from(
            s,
            i + flen,
        ));
        assert(s.subrange(i, i + flen) =~= f);
        assert(spec_split_ws_from(s, i + flen) =~= Seq::<Seq<char>>::empty());
        assert(spec_split_ws_from(s, i) =~= Seq::new((fields.len() - j) as nat, |q: int| fields[j
            + q]));
    } else {
        assert(s[i + flen] == join_ws(fields, j)[flen]);
        assert(join_ws(fields, j)[flen] == ' ');
        lemma_tok_run(s, i, flen);
        assert(s.subrange(i, i + flen) =~= f);
        assert forall|x: int| 0 <= x < join_ws(fields, j + 1).len() implies #[trigger] join_ws(
            fields,
            j + 1,
        )[x] == s[i + flen + 1 + x] by {
            assert(s[i + flen + 1 + x] == join_ws(fields, j)[flen + 1 + x]);
            assert(join_ws(fields, j)[flen + 1 + x] == join_ws(fields, j + 1)[x]);
        }
        assert(s.subrange(i + flen + 1, s.len() as int) =~= join_ws(fields, j + 1));
        lemma_split_ws_fields(s, fields, i + flen + 1, j + 1);
        assert(spec_split_ws_from(s, i) =~= seq![s.subrange(i, i + flen)] + spec_split_ws_from(
            s,
            i + flen,
        ));
        assert(spec_split_ws_from(s, i + flen) =~= spec_split_ws_from(s, i + flen + 1));
        assert(spec_split_ws_from(s, i) =~= Seq::new((fields.len() - j) as nat, |q: int| fields[j
            + q]));
    }
}

/// Round-trip: parsing the canonical text under the pattern's own policy
/// reproduces the pattern's model exactly (same value sets, same wildcard
/// tags, same policy), hence a pattern equal in matching behavior.
#[verifier::rlimit(100)]
pub proof fn lemma_canonical_round_trip(p: Pattern)
    requires
        p.wf(),
    ensures
        spec_parse(spec_canonical(p), p.policy) matches Ok(m) && m =~~= p@,
{
    let s = spec_canonical(p);
    let fields: Seq<Seq<char>> = match p.seconds {
        Some(c) => seq![
            spec_render_field(c),
            spec_render_field(p.minutes),
            spec_render_field(p.hours),
            spec_render_field(p.days_of_month),
            spec_render_field(p.months),
            spec_render_field(p.days_of_week),
        ],
        None => seq![
            spec_render_field(p.minutes),
            spec_render_field(p.hours),
            spec_render_field(p.days_of_month),
            spec_render_field(p.months),
            spec_render_field(p.days_of_week),
        ],
    };
    match p.seconds {
        Some(c) => {
            lemma_field_no_space(c, 0, 59);
        },
        None => {},
    }
    lemma_field_no_space(p.minutes, 0, 59);
    lemma_field_no_space(p.hours, 0, 23);
    lemma_field_no_space(p.days_of_month, 1, 31);
    lemma_field_no_space(p.months, 1, 12);
    lemma_field_no_space(p.days_of_week, 0, 6);
    assert forall|q: int, x: int|
        0 <= q < fields.len() && 0 <= x < fields[q].len() implies !is_space_char(
        #[trigger] fields[q][x],
    ) by {}
    reveal_with_fuel(join_ws, 8);
    assert(s =~= join_ws(fields, 0));
    assert(s.subrange(0, s.len() as int) =~= join_ws(fields, 0));
    lemma_split_ws_fields(s, fields, 0, 0);
    let toks = spec_split_ws_from(s, 0);
    assert(toks =~= fields);
    let off: int = if p.seconds is Some {
        1
    } else {
        0
    };
    match p.seconds {
        Some(c) => {
            assert(toks[0] == spec_render_field(c));
            lemma_field_round_trip(c, FieldKind::Second);
        },
        None => {},
    }
    assert(toks[off] == spec_render_field(p.minutes));
    assert(toks[off + 1] == spec_render_field(p.hours));
    assert(toks[off + 2] == spec_render_field(p.days_of_month));
    assert(toks[off + 3] == spec_render_field(p.months));
    assert(toks[off + 4] == spec_render_field(p.days_of_week));
    lemma_field_round_trip(p.minutes, FieldKind::Minute);
    lemma_field_round_trip(p.hours, FieldKind::Hour);
    lemma_field_round_trip(p.days_of_month, FieldKind::DayOfMonth);
    lemma_field_round_trip(p.months, FieldKind::Month);
    lemma_field_round_trip(p.days_of_week, FieldKind::DayOfWeek);
    let sp = spec_parse(s, p.policy);
    assert(sp is Ok);
    let m = match sp {
        Ok(m) => m,
        Err(_) => arbitrary(),
    };
    match p.seconds {
        Some(c) => {
            assert(m.secs matches Some(ss) && ss =~= c.set());
        },
        None => {
            assert(m.secs is None);
        },
    }
    assert(m.mins =~= p.minutes.set());
    assert(m.hours =~= p.hours.set());
    assert(m.doms =~= p.days_of_month.set());
    assert(m.months =~= p.months.set());
    assert(m.dows =~= p.days_of_week.set());
    assert(m =~~= p@);
}

} // verus!
