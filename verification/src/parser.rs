//! The field grammar and pattern parser.
//!
//! The grammar is stated as spec functions over character sequences; the
//! executable parser is proved to return exactly what the spec parser says.
//! Grammar per comma-separated sub-expression: `*`, a value `N` (or a
//! three-letter month/weekday name, case-insensitive), a range `A-B`, a step
//! `A/S` or `*/S`, or a range with step `A-B/S`. Numerals are unsigned and at
//! most three digits. A field is tagged as the unrestricted wildcard exactly
//! when its whole text is `*`. Day-of-week accepts 0..=7, with 7 folded to 0
//! (both denote Sunday).

use vstd::prelude::*;
use vstd::arithmetic::div_mod::{lemma_fundamental_div_mod_converse_mod, lemma_small_mod};
use vstd::string::StrSliceExecFns;
use crate::types::{
    seq_contains_u64, ErrorModel, FieldConstraint, ParseError, ParseErrorKind, Pattern,
    PatternModel, SecondsPolicy,
};

verus! {

/// The six field kinds, each with its numeric domain.
#[derive(Clone, Copy, Debug, PartialEq, Eq, Structural)]
pub enum FieldKind {
    Second,
    Minute,
    Hour,
    DayOfMonth,
    Month,
    DayOfWeek,
}

pub open spec fn kind_min(k: FieldKind) -> int {
    match k {
        FieldKind::DayOfMonth => 1,
        FieldKind::Month => 1,
        _ => 0,
    }
}

/// Largest value accepted by the parser (7 is allowed for day-of-week).
pub open spec fn kind_pmax(k: FieldKind) -> int {
    match k {
        FieldKind::Second => 59,
        FieldKind::Minute => 59,
        FieldKind::Hour => 23,
        FieldKind::DayOfMonth => 31,
        FieldKind::Month => 12,
        FieldKind::DayOfWeek => 7,
    }
}

/// Largest canonical value of the field (day-of-week 7 folds to 0).
pub open spec fn kind_cmax(k: FieldKind) -> int {
    if k == FieldKind::DayOfWeek {
        6
    } else {
        kind_pmax(k)
    }
}

fn kind_min_exec(k: FieldKind) -> (r: u64)
    ensures
        r as int == kind_min(k),
{
    match k {
        FieldKind::DayOfMonth => 1,
        FieldKind::Month => 1,
        _ => 0,
    }
}

fn kind_pmax_exec(k: FieldKind) -> (r: u64)
    ensures
        r as int == kind_pmax(k),
{
    match k {
        FieldKind::Second => 59,
        FieldKind::Minute => 59,
        FieldKind::Hour => 23,
        FieldKind::DayOfMonth => 31,
        FieldKind::Month => 12,
        FieldKind::DayOfWeek => 7,
    }
}

fn kind_cmax_exec(k: FieldKind) -> (r: u64)
    ensures
        r as int == kind_cmax(k),
{
    if k == FieldKind::DayOfWeek {
        6
    } else {
        kind_pmax_exec(k)
    }
}

// ---------------------------------------------------------------------------
// Character classes and numerals
// ---------------------------------------------------------------------------

pub open spec fn is_space_char(c: char) -> bool {
    c == ' ' || c == '\t' || c == '\n' || c == '\r'
}

pub open spec fn is_digit_char(c: char) -> bool {
    48 <= c as int <= 57
}

pub open spec fn digit_val(c: char) -> int {
    c as int - 48
}

pub open spec fn is_alpha_char(c: char) -> bool {
    (65 <= c as int <= 90) || (97 <= c as int <= 122)
}

pub open spec fn all_digits(s: Seq<char>) -> bool {
    s.len() > 0 && forall|i: int| 0 <= i < s.len() ==> is_digit_char(#[trigger] s[i])
}

pub open spec fn all_alpha(s: Seq<char>) -> bool {
    s.len() > 0 && forall|i: int| 0 <= i < s.len() ==> is_alpha_char(#[trigger] s[i])
}

/// The value of a digit string read in base ten.
pub open spec fn digits_val(s: Seq<char>) -> int
    decreases s.len(),
{
    if s.len() == 0 {
        0
    } else {
        digits_val(s.drop_last()) * 10 + digit_val(s.last())
    }
}

pub proof fn lemma_digits_val_bounds(s: Seq<char>)
    requires
        forall|i: int| 0 <= i < s.len() ==> is_digit_char(#[trigger] s[i]),
    ensures
        0 <= digits_val(s),
        s.len() == 0 ==> digits_val(s) == 0,
        s.len() <= 1 ==> digits_val(s) <= 9,
        s.len() <= 2 ==> digits_val(s) <= 99,
        s.len() <= 3 ==> digits_val(s) <= 999,
    decreases s.len(),
{
    if s.len() > 0 {
        assert(forall|i: int|
            0 <= i < s.drop_last().len() ==> is_digit_char(#[trigger] s.drop_last()[i]));
        lemma_digits_val_bounds(s.drop_last());
    }
}

fn is_space(c: char) -> (r: bool)
    ensures
        r == is_space_char(c),
{
    c == ' ' || c == '\t' || c == '\n' || c == '\r'
}

fn is_digit(c: char) -> (r: bool)
    ensures
        r == is_digit_char(c),
{
    let x = c as u32;
    48 <= x && x <= 57
}

fn is_alpha(c: char) -> (r: bool)
    ensures
        r == is_alpha_char(c),
{
    let x = c as u32;
    (65 <= x && x <= 90) || (97 <= x && x <= 122)
}

fn all_digits_exec(cs: &Vec<char>) -> (r: bool)
    ensures
        r == all_digits(cs@),
{
    if cs.len() == 0 {
        return false;
    }
    let mut i: usize = 0;
    while i < cs.len()
        invariant
            i <= cs@.len(),
            forall|j: int| 0 <= j < i ==> is_digit_char(#[trigger] cs@[j]),
        decreases cs@.len() - i,
    {
        if !is_digit(cs[i]) {
            return false;
        }
        i += 1;
    }
    true
}

fn all_alpha_exec(cs: &Vec<char>) -> (r: bool)
    ensures
        r == all_alpha(cs@),
{
    if cs.len() == 0 {
        return false;
    }
    let mut i: usize = 0;
    while i < cs.len()
        invariant
            i <= cs@.len(),
            forall|j: int| 0 <= j < i ==> is_alpha_char(#[trigger] cs@[j]),
        decreases cs@.len() - i,
    {
        if !is_alpha(cs[i]) {
            return false;
        }
        i += 1;
    }
    true
}

fn digits_exec(cs: &Vec<char>) -> (r: u64)
    requires
        all_digits(cs@),
        cs@.len() <= 3,
    ensures
        r as int == digits_val(cs@),
        r <= 999,
{
    let mut acc: u64 = 0;
    let mut i: usize = 0;
    while i < cs.len()
        invariant
            i <= cs@.len() <= 3,
            all_digits(cs@),
            acc as int == digits_val(cs@.take(i as int)),
            acc <= 999,
        decreases cs@.len() - i,
    {
        let d = (cs[i] as u32) - 48;
        proof {
            assert(cs@.take(i as int + 1).drop_last() =~= cs@.take(i as int));
            assert(cs@.take(i as int + 1).last() == cs@[i as int]);
            lemma_digits_val_bounds(cs@.take(i as int));
            lemma_digits_val_bounds(cs@.take(i as int + 1));
        }
        acc = acc * 10 + (d as u64);
        i += 1;
    }
    proof {
        assert(cs@.take(cs@.len() as int) =~= cs@);
    }
    acc
}

// ---------------------------------------------------------------------------
// Scanning: token ends, character search, splitting
// ---------------------------------------------------------------------------

/// The index of the first space at or after `i` (or the length).
pub open spec fn tok_end(s: Seq<char>, i: int) -> int
    decreases s.len() - i,
{
    if i < 0 || i >= s.len() || is_space_char(s[i]) {
        i
    } else {
        tok_end(s, i + 1)
    }
}

pub proof fn lemma_tok_end_props(s: Seq<char>, i: int)
    requires
        0 <= i <= s.len(),
    ensures
        i <= tok_end(s, i) <= s.len(),
        i < s.len() && !is_space_char(s[i]) ==> tok_end(s, i) > i,
        tok_end(s, i) < s.len() ==> is_space_char(s[tok_end(s, i)]),
        forall|j: int| i <= j < tok_end(s, i) ==> !is_space_char(#[trigger] s[j]),
    decreases s.len() - i,
{
    if i < s.len() && !is_space_char(s[i]) {
        lemma_tok_end_props(s, i + 1);
    }
}

/// The index of the first occurrence of `c` at or after `i` (or the length).
pub open spec fn find_from(s: Seq<char>, c: char, i: int) -> int
    decreases s.len() - i,
{
    if i < 0 || i >= s.len() {
        s.len() as int
    } else if s[i] == c {
        i
    } else {
        find_from(s, c, i + 1)
    }
}

pub proof fn lemma_find_from_props(s: Seq<char>, c: char, i: int)
    requires
        0 <= i <= s.len(),
    ensures
        i <= find_from(s, c, i) <= s.len(),
        find_from(s, c, i) < s.len() ==> s[find_from(s, c, i)] == c,
        forall|j: int| i <= j < find_from(s, c, i) ==> s[j] != c,
    decreases s.len() - i,
{
    if i < s.len() && s[i] != c {
        lemma_find_from_props(s, c, i + 1);
    }
}

/// The whitespace-separated tokens of `s`, from position `i` on.
pub open spec fn spec_split_ws_from(s: Seq<char>, i: int) -> Seq<Seq<char>>
    decreases s.len() - i,
    via spec_split_ws_from_decreases
{
    if i < 0 || i >= s.len() {
        Seq::empty()
    } else if is_space_char(s[i]) {
        spec_split_ws_from(s, i + 1)
    } else {
        seq![s.subrange(i, tok_end(s, i))] + spec_split_ws_from(s, tok_end(s, i))
    }
}

#[via_fn]
proof fn spec_split_ws_from_decreases(s: Seq<char>, i: int) {
    if 0 <= i < s.len() && !is_space_char(s[i]) {
        lemma_tok_end_props(s, i);
    }
}

/// The comma-separated parts of `s`, from position `i` on; empty parts are kept.
pub open spec fn split_commas_from(s: Seq<char>, i: int) -> Seq<Seq<char>>
    decreases s.len() - i,
    via split_commas_from_decreases
{
    let e = find_from(s, ',', i);
    if e >= s.len() {
        seq![s.subrange(i, s.len() as int)]
    } else {
        seq![s.subrange(i, e)] + split_commas_from(s, e + 1)
    }
}

#[via_fn]
proof fn split_commas_from_decreases(s: Seq<char>, i: int) {
    if 0 <= i <= s.len() {
        lemma_find_from_props(s, ',', i);
    }
}

/// The tokens denoted by index ranges into `s`.
pub open spec fn ranges_tokens(s: Seq<char>, rs: Seq<(usize, usize)>) -> Seq<Seq<char>> {
    Seq::new(rs.len(), |i: int| s.subrange(rs[i].0 as int, rs[i].1 as int))
}

fn copy_range(cs: &Vec<char>, a: usize, b: usize) -> (r: Vec<char>)
    requires
        a <= b <= cs@.len(),
    ensures
        r@ == cs@.subrange(a as int, b as int),
{
    let mut out: Vec<char> = Vec::new();
    let mut i: usize = a;
    while i < b
        invariant
            a <= i <= b <= cs@.len(),
            out@ =~= cs@.subrange(a as int, i as int),
        decreases b - i,
    {
        out.push(cs[i]);
        proof {
            assert(out@ =~= cs@.subrange(a as int, i as int + 1));
        }
        i += 1;
    }
    out
}

fn find_char(cs: &Vec<char>, c: char, from: usize) -> (r: usize)
    requires
        from <= cs@.len(),
    ensures
        r as int == find_from(cs@, c, from as int),
        from <= r <= cs@.len(),
{
    let mut j = from;
    while j < cs.len()
        invariant
            from <= j <= cs@.len(),
            find_from(cs@, c, from as int) == find_from(cs@, c, j as int),
        decreases cs@.len() - j,
    {
        if cs[j] == c {
            return j;
        }
        j += 1;
    }
    j
}

fn split_ws(cs: &Vec<char>) -> (r: Vec<(usize, usize)>)
    ensures
        ({
            let toks = spec_split_ws_from(cs@, 0);
            &&& r@.len() == toks.len()
            &&& ranges_tokens(cs@, r@) =~= toks
            &&& forall|i: int|
                0 <= i < r@.len() ==> (#[trigger] r@[i]).0 < r@[i].1 && r@[i].1 <= cs@.len()
        }),
{
    let mut out: Vec<(usize, usize)> = Vec::new();
    let mut i: usize = 0;
    while i < cs.len()
        invariant
            i <= cs@.len(),
            spec_split_ws_from(cs@, 0) =~= ranges_tokens(cs@, out@) + spec_split_ws_from(
                cs@,
                i as int,
            ),
            forall|j: int|
                0 <= j < out@.len() ==> (#[trigger] out@[j]).0 < out@[j].1 && out@[j].1
                    <= cs@.len(),
        decreases cs@.len() - i,
    {
        if is_space(cs[i]) {
            i += 1;
        } else {
            proof {
                lemma_tok_end_props(cs@, i as int);
            }
            let mut j = i + 1;
            while j < cs.len() && !is_space(cs[j])
                invariant
                    i < j <= cs@.len(),
                    tok_end(cs@, i as int) == tok_end(cs@, j as int),
                decreases cs@.len() - j,
            {
                j += 1;
            }
            assert(tok_end(cs@, i as int) == j as int);
            let ghost old_out = out@;
            out.push((i, j));
            proof {
                assert(ranges_tokens(cs@, out@) =~= ranges_tokens(cs@, old_out).push(
                    cs@.subrange(i as int, j as int),
                ));
                assert(spec_split_ws_from(cs@, 0) =~= ranges_tokens(cs@, out@)
                    + spec_split_ws_from(cs@, j as int));
            }
            i = j;
        }
    }
    out
}

fn split_commas(cs: &Vec<char>) -> (r: Vec<(usize, usize)>)
    ensures
        ({
            let parts = split_commas_from(cs@, 0);
            &&& r@.len() == parts.len()
            &&& ranges_tokens(cs@, r@) =~= parts
            &&& forall|i: int|
                0 <= i < r@.len() ==> (#[trigger] r@[i]).0 <= r@[i].1 && r@[i].1 <= cs@.len()
        }),
{
    let mut out: Vec<(usize, usize)> = Vec::new();
    let mut i: usize = 0;
    let mut done = false;
    while !done
        invariant
            i <= cs@.len(),
            !done ==> split_commas_from(cs@, 0) =~= ranges_tokens(cs@, out@)
                + split_commas_from(cs@, i as int),
            done ==> split_commas_from(cs@, 0) =~= ranges_tokens(cs@, out@),
            forall|j: int|
                0 <= j < out@.len() ==> (#[trigger] out@[j]).0 <= out@[j].1 && out@[j].1
                    <= cs@.len(),
        decreases (if done { 0int } else { 1int }), cs@.len() - i,
    {
        let e = find_char(cs, ',', i);
        let ghost old_out = out@;
        out.push((i, e));
        proof {
            assert(ranges_tokens(cs@, out@) =~= ranges_tokens(cs@, old_out).push(
                cs@.subrange(i as int, e as int),
            ));
            if (e as int) < cs@.len() {
                assert(split_commas_from(cs@, 0) =~= ranges_tokens(cs@, out@)
                    + split_commas_from(cs@, e as int + 1));
            } else {
                assert(split_commas_from(cs@, 0) =~= ranges_tokens(cs@, out@));
            }
        }
        if e < cs.len() {
            i = e + 1;
        } else {
            done = true;
        }
    }
    out
}

// ---------------------------------------------------------------------------
// Aliases
// ---------------------------------------------------------------------------

/// Case-insensitive match of `c` against an uppercase letter `u`.
pub open spec fn eq_letter(c: char, u: char) -> bool {
    c == u || c as int == u as int + 32
}

pub open spec fn is_name3(s: Seq<char>, a: char, b: char, c: char) -> bool {
    s.len() == 3 && eq_letter(s[0], a) && eq_letter(s[1], b) && eq_letter(s[2], c)
}

pub open spec fn month_alias(s: Seq<char>) -> Option<int> {
    if is_name3(s, 'J', 'A', 'N') {
        Some(1)
    } else if is_name3(s, 'F', 'E', 'B') {
        Some(2)
    } else if is_name3(s, 'M', 'A', 'R') {
        Some(3)
    } else if is_name3(s, 'A', 'P', 'R') {
        Some(4)
    } else if is_name3(s, 'M', 'A', 'Y') {
        Some(5)
    } else if is_name3(s, 'J', 'U', 'N') {
        Some(6)
    } else if is_name3(s, 'J', 'U', 'L') {
        Some(7)
    } else if is_name3(s, 'A', 'U', 'G') {
        Some(8)
    } else if is_name3(s, 'S', 'E', 'P') {
        Some(9)
    } else if is_name3(s, 'O', 'C', 'T') {
        Some(10)
    } else if is_name3(s, 'N', 'O', 'V') {
        Some(11)
    } else if is_name3(s, 'D', 'E', 'C') {
        Some(12)
    } else {
        None
    }
}

pub open spec fn dow_alias(s: Seq<char>) -> Option<int> {
    if is_name3(s, 'S', 'U', 'N') {
        Some(0)
    } else if is_name3(s, 'M', 'O', 'N') {
        Some(1)
    } else if is_name3(s, 'T', 'U', 'E') {
        Some(2)
    } else if is_name3(s, 'W', 'E', 'D') {
        Some(3)
    } else if is_name3(s, 'T', 'H', 'U') {
        Some(4)
    } else if is_name3(s, 'F', 'R', 'I') {
        Some(5)
    } else if is_name3(s, 'S', 'A', 'T') {
        Some(6)
    } else {
        None
    }
}

/// The alias table of a field kind: only months and weekdays have names.
pub open spec fn kind_alias(k: FieldKind, s: Seq<char>) -> Option<int> {
    match k {
        FieldKind::Month => month_alias(s),
        FieldKind::DayOfWeek => dow_alias(s),
        _ => None,
    }
}

fn eqi(c: char, u: char) -> (r: bool)
    ensures
        r == eq_letter(c, u),
{
    c == u || (c as u32) == (u as u32) + 32
}

fn is3(cs: &Vec<char>, a: char, b: char, c: char) -> (r: bool)
    ensures
        r == is_name3(cs@, a, b, c),
{
    cs.len() == 3 && eqi(cs[0], a) && eqi(cs[1], b) && eqi(cs[2], c)
}

fn month_alias_exec(cs: &Vec<char>) -> (r: Option<u64>)
    ensures
        match month_alias(cs@) {
            Some(v) => r matches Some(e) && e as int == v,
            None => r is None,
        },
{
    if is3(cs, 'J', 'A', 'N') {
        Some(1)
    } else if is3(cs, 'F', 'E', 'B') {
        Some(2)
    } else if is3(cs, 'M', 'A', 'R') {
        Some(3)
    } else if is3(cs, 'A', 'P', 'R') {
        Some(4)
    } else if is3(cs, 'M', 'A', 'Y') {
        Some(5)
    } else if is3(cs, 'J', 'U', 'N') {
        Some(6)
    } else if is3(cs, 'J', 'U', 'L') {
        Some(7)
    } else if is3(cs, 'A', 'U', 'G') {
        Some(8)
    } else if is3(cs, 'S', 'E', 'P') {
        Some(9)
    } else if is3(cs, 'O', 'C', 'T') {
        Some(10)
    } else if is3(cs, 'N', 'O', 'V') {
        Some(11)
    } else if is3(cs, 'D', 'E', 'C') {
        Some(12)
    } else {
        None
    }
}

fn dow_alias_exec(cs: &Vec<char>) -> (r: Option<u64>)
    ensures
        match dow_alias(cs@) {
            Some(v) => r matches Some(e) && e as int == v,
            None => r is None,
        },
{
    if is3(cs, 'S', 'U', 'N') {
        Some(0)
    } else if is3(cs, 'M', 'O', 'N') {
        Some(1)
    } else if is3(cs, 'T', 'U', 'E') {
        Some(2)
    } else if is3(cs, 'W', 'E', 'D') {
        Some(3)
    } else if is3(cs, 'T', 'H', 'U') {
        Some(4)
    } else if is3(cs, 'F', 'R', 'I') {
        Some(5)
    } else if is3(cs, 'S', 'A', 'T') {
        Some(6)
    } else {
        None
    }
}

fn kind_alias_exec(cs: &Vec<char>, k: FieldKind) -> (r: Option<u64>)
    ensures
        match kind_alias(k, cs@) {
            Some(v) => r matches Some(e) && e as int == v,
            None => r is None,
        },
{
    match k {
        FieldKind::Month => month_alias_exec(cs),
        FieldKind::DayOfWeek => dow_alias_exec(cs),
        _ => None,
    }
}

// ---------------------------------------------------------------------------
// Values, sub-expressions, fields
// ---------------------------------------------------------------------------

/// A single numeric value or alias, domain-checked.
pub open spec fn spec_value(s: Seq<char>, k: FieldKind) -> Result<int, ParseErrorKind> {
    if s.len() == 0 {
        Err(ParseErrorKind::MalformedToken)
    } else if all_digits(s) {
        if s.len() > 3 {
            Err(ParseErrorKind::ValueOutOfDomain)
        } else if kind_min(k) <= digits_val(s) <= kind_pmax(k) {
            Ok(digits_val(s))
        } else {
            Err(ParseErrorKind::ValueOutOfDomain)
        }
    } else {
        match kind_alias(k, s) {
            Some(v) => Ok(v),
            None => if all_alpha(s) {
                Err(ParseErrorKind::UnknownAlias)
            } else {
                Err(ParseErrorKind::MalformedToken)
            },
        }
    }
}

fn parse_value(cs: &Vec<char>, k: FieldKind) -> (r: Result<u64, ParseErrorKind>)
    ensures
        match spec_value(cs@, k) {
            Ok(v) => r matches Ok(e) && e as int == v,
            Err(e) => r matches Err(ee) && ee == e,
        },
{
    if cs.len() == 0 {
        Err(ParseErrorKind::MalformedToken)
    } else if all_digits_exec(cs) {
        if cs.len() > 3 {
            Err(ParseErrorKind::ValueOutOfDomain)
        } else {
            let v = digits_exec(cs);
            if kind_min_exec(k) <= v && v <= kind_pmax_exec(k) {
                Ok(v)
            } else {
                Err(ParseErrorKind::ValueOutOfDomain)
            }
        }
    } else {
        match kind_alias_exec(cs, k) {
            Some(v) => Ok(v),
            None => if all_alpha_exec(cs) {
                Err(ParseErrorKind::UnknownAlias)
            } else {
                Err(ParseErrorKind::MalformedToken)
            },
        }
    }
}

/// One comma-separated sub-expression, normalized to (first, last, step).
pub open spec fn spec_parse_part(s: Seq<char>, k: FieldKind) -> Result<
    (int, int, int),
    ParseErrorKind,
> {
    let slash = find_from(s, '/', 0);
    let has_step = slash < s.len();
    let base = if has_step {
        s.subrange(0, slash)
    } else {
        s
    };
    let base_r: Result<(int, int), ParseErrorKind> = if base.len() == 1 && base[0] == '*' {
        Ok((kind_min(k), kind_pmax(k)))
    } else {
        let dash = find_from(base, '-', 0);
        if dash < base.len() {
            match spec_value(base.subrange(0, dash), k) {
                Err(e) => Err(e),
                Ok(a) => match spec_value(base.subrange(dash + 1, base.len() as int), k) {
                    Err(e) => Err(e),
                    Ok(b) => if a > b {
                        Err(ParseErrorKind::InvertedRange)
                    } else {
                        Ok((a, b))
                    },
                },
            }
        } else {
            match spec_value(base, k) {
                Err(e) => Err(e),
                Ok(v) => Ok(
                    (
                        v,
                        if has_step {
                            kind_pmax(k)
                        } else {
                            v
                        },
                    ),
                ),
            }
        }
    };
    match base_r {
        Err(e) => Err(e),
        Ok((lo, hi)) => if !has_step {
            Ok((lo, hi, 1))
        } else {
            let st = s.subrange(slash + 1, s.len() as int);
            if !all_digits(st) {
                Err(ParseErrorKind::MalformedToken)
            } else if st.len() > 3 {
                Err(ParseErrorKind::ValueOutOfDomain)
            } else if digits_val(st) == 0 {
                Err(ParseErrorKind::NonPositiveStep)
            } else {
                Ok((lo, hi, digits_val(st)))
            }
        },
    }
}

/// Every successfully parsed sub-expression is ordered and within the domain.
pub proof fn lemma_part_ok_bounds(s: Seq<char>, k: FieldKind)
    ensures
        spec_parse_part(s, k) matches Ok(t) ==> {
            &&& kind_min(k) <= t.0 <= t.1 <= kind_pmax(k)
            &&& t.2 >= 1
        },
{
    let slash = find_from(s, '/', 0);
    if slash < s.len() {
        let st = s.subrange(slash + 1, s.len() as int);
        if all_digits(st) {
            lemma_digits_val_bounds(st);
        }
    }
}

fn parse_part(part: &Vec<char>, k: FieldKind) -> (r: Result<(u64, u64, u64), ParseErrorKind>)
    ensures
        match spec_parse_part(part@, k) {
            Ok(t) => r matches Ok(e) && t.0 == e.0 as int && t.1 == e.1 as int && t.2 == e.2 as int,
            Err(e) => r matches Err(ee) && ee == e,
        },
{
    let n = part.len();
    let slash = find_char(part, '/', 0);
    let has_step = slash < n;
    let base = copy_range(part, 0, slash);
    proof {
        if !(slash < n) {
            assert(base@ =~= part@);
        }
    }
    let base_r: Result<(u64, u64), ParseErrorKind> = if base.len() == 1 && base[0] == '*' {
        Ok((kind_min_exec(k), kind_pmax_exec(k)))
    } else {
        let dash = find_char(&base, '-', 0);
        if dash < base.len() {
            let left = copy_range(&base, 0, dash);
            let right = copy_range(&base, dash + 1, base.len());
            match parse_value(&left, k) {
                Err(e) => Err(e),
                Ok(a) => match parse_value(&right, k) {
                    Err(e) => Err(e),
                    Ok(b) => if a > b {
                        Err(ParseErrorKind::InvertedRange)
                    } else {
                        Ok((a, b))
                    },
                },
            }
        } else {
            match parse_value(&base, k) {
                Err(e) => Err(e),
                Ok(v) => Ok(
                    (
                        v,
                        if has_step {
                            kind_pmax_exec(k)
                        } else {
                            v
                        },
                    ),
                ),
            }
        }
    };
    match base_r {
        Err(e) => Err(e),
        Ok((lo, hi)) => if !has_step {
            Ok((lo, hi, 1))
        } else {
            let st = copy_range(part, slash + 1, n);
            if !all_digits_exec(&st) {
                Err(ParseErrorKind::MalformedToken)
            } else if st.len() > 3 {
                Err(ParseErrorKind::ValueOutOfDomain)
            } else {
                let sv = digits_exec(&st);
                if sv == 0 {
                    Err(ParseErrorKind::NonPositiveStep)
                } else {
                    Ok((lo, hi, sv))
                }
            }
        },
    }
}

// ---------------------------------------------------------------------------
// Field constraints
// ---------------------------------------------------------------------------

/// Whether sub-expression `t` = (first, last, step) covers value `v`.
pub open spec fn covers(t: (int, int, int), v: int) -> bool {
    t.0 <= v <= t.1 && (v - t.0) % t.2 == 0
}

pub open spec fn parts_cover(ts: Seq<(int, int, int)>, v: int) -> bool {
    exists|i: int| 0 <= i < ts.len() && covers(#[trigger] ts[i], v)
}

/// Membership of `v` in the field parsed into sub-expressions `ts`: a
/// canonical domain value covered by some sub-expression, with a textual
/// day-of-week 7 counting as 0.
pub open spec fn spec_field_member(k: FieldKind, ts: Seq<(int, int, int)>, v: int) -> bool {
    &&& kind_min(k) <= v <= kind_cmax(k)
    &&& (parts_cover(ts, v) || (k == FieldKind::DayOfWeek && v == 0 && parts_cover(ts, 7)))
}

/// The sub-expressions of a whole field, left to right; the leftmost error wins.
pub open spec fn spec_parts(pd: Seq<Seq<char>>, k: FieldKind, i: int) -> Result<
    Seq<(int, int, int)>,
    ParseErrorKind,
>
    decreases pd.len() - i,
{
    if i < 0 || i >= pd.len() {
        Ok(Seq::empty())
    } else {
        match spec_parse_part(pd[i], k) {
            Err(e) => Err(e),
            Ok(t) => match spec_parts(pd, k, i + 1) {
                Err(e) => Err(e),
                Ok(ts) => Ok(seq![t] + ts),
            },
        }
    }
}

/// A whole field: its sub-expressions and its wildcard tag.
pub open spec fn spec_parse_field(s: Seq<char>, k: FieldKind) -> Result<
    (Seq<(int, int, int)>, bool),
    ParseErrorKind,
> {
    match spec_parts(split_commas_from(s, 0), k, 0) {
        Err(e) => Err(e),
        Ok(ts) => Ok((ts, s.len() == 1 && s[0] == '*')),
    }
}

pub open spec fn ok_parts(r: Result<(Seq<(int, int, int)>, bool), ParseErrorKind>) -> Seq<
    (int, int, int),
> {
    match r {
        Ok(t) => t.0,
        Err(_) => Seq::empty(),
    }
}

pub open spec fn ok_star(r: Result<(Seq<(int, int, int)>, bool), ParseErrorKind>) -> bool {
    match r {
        Ok(t) => t.1,
        Err(_) => false,
    }
}

pub open spec fn triples_of(s: Seq<(u64, u64, u64)>) -> Seq<(int, int, int)> {
    Seq::new(s.len(), |i: int| (s[i].0 as int, s[i].1 as int, s[i].2 as int))
}

fn covered(ts: &Vec<(u64, u64, u64)>, v: u64) -> (r: bool)
    requires
        forall|i: int| 0 <= i < ts@.len() ==> (#[trigger] ts@[i]).2 >= 1,
    ensures
        r == parts_cover(triples_of(ts@), v as int),
{
    let mut i: usize = 0;
    while i < ts.len()
        invariant
            i <= ts@.len(),
            forall|j: int| 0 <= j < ts@.len() ==> (#[trigger] ts@[j]).2 >= 1,
            forall|j: int| 0 <= j < i ==> !covers(#[trigger] triples_of(ts@)[j], v as int),
        decreases ts@.len() - i,
    {
        let t = ts[i];
        if t.0 <= v && v <= t.1 && (v - t.0) % t.2 == 0 {
            assert(covers(triples_of(ts@)[i as int], v as int));
            return true;
        }
        i += 1;
    }
    false
}

/// Parse every comma-separated sub-expression of a field.
#[verifier::rlimit(100)]
fn parse_parts(tok: &Vec<char>, k: FieldKind) -> (r: Result<Vec<(u64, u64, u64)>, ParseErrorKind>)
    ensures
        ({
            let pd = split_commas_from(tok@, 0);
            match spec_parts(pd, k, 0) {
                Ok(ts) => {
                    &&& r matches Ok(v)
                    &&& (r matches Ok(v) ==> {
                        &&& triples_of(v@) =~= ts
                        &&& v@.len() == pd.len()
                        &&& forall|i: int|
                            0 <= i < v@.len() ==> {
                                &&& kind_min(k) <= (#[trigger] v@[i]).0 <= v@[i].1 <= kind_pmax(k)
                                &&& v@[i].2 >= 1
                            }
                    })
                },
                Err(e) => r matches Err(ee) && ee == e,
            }
        }),
{
    let ranges = split_commas(tok);
    let ghost pd = split_commas_from(tok@, 0);
    let mut res: Result<Vec<(u64, u64, u64)>, ParseErrorKind> = Ok(Vec::new());
    let mut j: usize = ranges.len();
    proof {
        assert(spec_parts(pd, k, j as int) matches Ok(ts) && ts =~= Seq::<(int, int, int)>::empty());
    }
    while j > 0
        invariant
            j <= ranges@.len(),
            ranges@.len() == pd.len(),
            pd == split_commas_from(tok@, 0),
            ranges_tokens(tok@, ranges@) =~= pd,
            forall|i: int|
                0 <= i < ranges@.len() ==> (#[trigger] ranges@[i]).0 <= ranges@[i].1
                    && ranges@[i].1 <= tok@.len(),
            match res {
                Ok(v) => {
                    &&& spec_parts(pd, k, j as int) matches Ok(ts) && triples_of(v@) =~= ts
                    &&& v@.len() == ranges@.len() - j
                    &&& forall|i: int|
                        0 <= i < v@.len() ==> {
                            &&& kind_min(k) <= (#[trigger] v@[i]).0 <= v@[i].1 <= kind_pmax(k)
                            &&& v@[i].2 >= 1
                        }
                },
                Err(e) => spec_parts(pd, k, j as int) matches Err(ee) && ee == e,
            },
        decreases j,
    {
        let idx = j - 1;
        let rg = ranges[idx];
        let part = copy_range(tok, rg.0, rg.1);
        proof {
            assert(part@ == pd[idx as int]);
            lemma_part_ok_bounds(part@, k);
        }
        let pr = parse_part(&part, k);
        res = match (pr, res) {
            (Err(e), _) => Err(e),
            (Ok(t), Err(e)) => Err(e),
            (Ok(t), Ok(mut v)) => {
                let ghost old_v = v@;
                v.insert(0, t);
                proof {
                    assert(triples_of(v@) =~= seq![
                        (t.0 as int, t.1 as int, t.2 as int),
                    ] + triples_of(old_v));
                }
                Ok(v)
            },
        };
        j = idx;
    }
    res
}

/// Collect the canonical domain values that the sub-expressions cover, in
/// increasing order.
#[verifier::rlimit(100)]
fn build_values(ts_vec: &Vec<(u64, u64, u64)>, k: FieldKind) -> (values: Vec<u64>)
    requires
        forall|i: int|
            0 <= i < ts_vec@.len() ==> {
                &&& kind_min(k) <= (#[trigger] ts_vec@[i]).0 <= ts_vec@[i].1 <= kind_pmax(k)
                &&& ts_vec@[i].2 >= 1
            },
        ts_vec@.len() >= 1,
    ensures
        forall|x: int|
            #[trigger] seq_contains_u64(values@, x) <==> spec_field_member(
                k,
                triples_of(ts_vec@),
                x,
            ),
        forall|i: int| 0 <= i < values@.len() ==> kind_min(k) <= #[trigger] values@[i] <= kind_cmax(k),
        forall|i: int, j: int|
            0 <= i < j < values@.len() ==> #[trigger] values@[i] < #[trigger] values@[j],
        values@.len() > 0,
{
    let ghost ts = triples_of(ts_vec@);
    let lo = kind_min_exec(k);
    let chi = kind_cmax_exec(k);
    let mut values: Vec<u64> = Vec::new();
    let mut w: u64 = lo;
    while w <= chi
        invariant
            lo as int == kind_min(k),
            chi as int == kind_cmax(k),
            lo <= w <= chi + 1,
            ts == triples_of(ts_vec@),
            forall|i: int|
                0 <= i < ts_vec@.len() ==> {
                    &&& kind_min(k) <= (#[trigger] ts_vec@[i]).0 <= ts_vec@[i].1 <= kind_pmax(k)
                    &&& ts_vec@[i].2 >= 1
                },
            forall|i: int| 0 <= i < values@.len() ==> lo <= #[trigger] values@[i] < w,
            forall|i: int, i2: int|
                0 <= i < i2 < values@.len() ==> #[trigger] values@[i] < #[trigger] values@[i2],
            forall|x: int|
                #[trigger] seq_contains_u64(values@, x) <==> (lo <= x < w && spec_field_member(
                    k,
                    ts,
                    x,
                )),
        decreases chi + 1 - w,
    {
        let c1 = covered(ts_vec, w);
        let c2 = if k == FieldKind::DayOfWeek && w == 0 {
            covered(ts_vec, 7)
        } else {
            false
        };
        if c1 || c2 {
            let ghost old_values = values@;
            values.push(w);
            proof {
                assert(spec_field_member(k, ts, w as int));
                assert(values@ =~= old_values.push(w));
                assert forall|x: int|
                    #[trigger] seq_contains_u64(values@, x) <==> (lo <= x < w + 1
                        && spec_field_member(k, ts, x)) by {
                    if seq_contains_u64(values@, x) {
                        let i = choose|i: int| 0 <= i < values@.len() && values@[i] == x;
                        if i < old_values.len() {
                            assert(old_values[i] == x);
                            assert(seq_contains_u64(old_values, x));
                        } else {
                            assert(x == w);
                        }
                    }
                    if lo <= x < w + 1 && spec_field_member(k, ts, x) {
                        if x == w {
                            assert(values@[values@.len() - 1] == x);
                            assert(seq_contains_u64(values@, x));
                        } else {
                            assert(seq_contains_u64(old_values, x));
                            let i = choose|i: int|
                                0 <= i < old_values.len() && old_values[i] == x;
                            assert(values@[i] == x);
                            assert(seq_contains_u64(values@, x));
                        }
                    }
                }
            }
        } else {
            proof {
                assert(!spec_field_member(k, ts, w as int));
                assert forall|x: int|
                    #[trigger] seq_contains_u64(values@, x) <==> (lo <= x < w + 1
                        && spec_field_member(k, ts, x)) by {
                    if x == w {
                        if seq_contains_u64(values@, x) {
                            let i = choose|i: int| 0 <= i < values@.len() && values@[i] == x;
                            assert(values@[i] < w);
                        }
                    }
                }
            }
        }
        w += 1;
    }
    proof {
        // non-emptiness: the first sub-expression covers its own first value
        let t0 = ts[0];
        assert(t0.2 >= 1 && kind_min(k) <= t0.0 <= t0.1 <= kind_pmax(k));
        lemma_small_mod(0, t0.2 as nat);
        assert(covers(t0, t0.0));
        let m0: int = if k == FieldKind::DayOfWeek && t0.0 == 7 {
            0
        } else {
            t0.0
        };
        assert(kind_min(k) <= m0 <= kind_cmax(k) && spec_field_member(k, ts, m0));
        assert(seq_contains_u64(values@, m0));
        assert(values@.len() > 0);
    }
    values
}

/// Parse one field's text into a constraint whose value set is exactly what
/// the spec grammar says.
#[verifier::rlimit(100)]
fn parse_field(tok: &Vec<char>, k: FieldKind) -> (r: Result<FieldConstraint, ParseErrorKind>)
    ensures
        ({
            let sp = spec_parse_field(tok@, k);
            match r {
                Ok(c) => {
                    &&& sp matches Ok(pr)
                    &&& c.wildcard == (tok@.len() == 1 && tok@[0] == '*')
                    &&& c.wf(kind_min(k), kind_cmax(k))
                    &&& forall|v: int|
                        c.spec_contains(v) <==> spec_field_member(k, ok_parts(sp), v)
                },
                Err(e) => sp matches Err(ee) && ee == e,
            }
        }),
{
    let ghost pd = split_commas_from(tok@, 0);
    let ts_vec = match parse_parts(tok, k) {
        Err(e) => {
            return Err(e);
        },
        Ok(v) => v,
    };
    let ghost ts = ok_parts(spec_parse_field(tok@, k));
    proof {
        assert(pd.len() >= 1);
        assert(ts =~= triples_of(ts_vec@));
    }
    let values = build_values(&ts_vec, k);
    let star = tok.len() == 1 && {
        let c0 = tok[0];
        c0 == '*'
    };
    proof {
        // the wildcard carries every value of the domain
        if star {
            assert(find_from(tok@, ',', 1) == 1);
            assert(find_from(tok@, ',', 0) == 1);
            assert(split_commas_from(tok@, 0) =~= seq![tok@.subrange(0, 1)]);
            assert(tok@.subrange(0, 1) =~= tok@);
            assert(find_from(tok@, '/', 1) == 1);
            assert(find_from(tok@, '/', 0) == 1);
            assert(spec_parse_part(tok@, k) matches Ok(t) && t == (
                kind_min(k),
                kind_pmax(k),
                1int,
            ));
            assert(spec_parts(pd, k, 1) matches Ok(e) && e =~= Seq::<(int, int, int)>::empty());
            assert(ts =~= seq![(kind_min(k), kind_pmax(k), 1int)]);
            assert forall|x: int| kind_min(k) <= x <= kind_cmax(k) implies #[trigger] seq_contains_u64(
                values@,
                x,
            ) by {
                lemma_fundamental_div_mod_converse_mod(x - kind_min(k), 1, x - kind_min(k), 0);
                assert(covers(ts[0], x));
                assert(spec_field_member(k, ts, x));
            }
        }
    }
    let fc = FieldConstraint { values, wildcard: star };
    Ok(fc)
}

// ---------------------------------------------------------------------------
// The pattern parser
// ---------------------------------------------------------------------------

pub open spec fn field_set(tok: Seq<char>, k: FieldKind) -> Set<int> {
    Set::new(|v: int| spec_field_member(k, ok_parts(spec_parse_field(tok, k)), v))
}

pub open spec fn field_err_kind(r: Result<(Seq<(int, int, int)>, bool), ParseErrorKind>) -> ParseErrorKind {
    match r {
        Ok(_) => ParseErrorKind::MalformedToken,
        Err(e) => e,
    }
}

/// What parsing yields: splits on whitespace, applies the seconds policy to
/// the field count, parses each field left to right (the first failing field
/// reports its error), and assembles the model.
pub open spec fn spec_parse(s: Seq<char>, pol: SecondsPolicy) -> Result<PatternModel, ErrorModel> {
    let toks = spec_split_ws_from(s, 0);
    if !((toks.len() == 5 && pol != SecondsPolicy::Required) || (toks.len() == 6 && pol
        != SecondsPolicy::Disallowed)) {
        Err(ErrorModel {
            kind: ParseErrorKind::FieldCountMismatch,
            field: toks.len() as int,
            token: Seq::empty(),
        })
    } else {
        let off: int = if toks.len() == 6 {
            1
        } else {
            0
        };
        let rsec = spec_parse_field(toks[0], FieldKind::Second);
        let rmin = spec_parse_field(toks[off], FieldKind::Minute);
        let rhour = spec_parse_field(toks[off + 1], FieldKind::Hour);
        let rdom = spec_parse_field(toks[off + 2], FieldKind::DayOfMonth);
        let rmon = spec_parse_field(toks[off + 3], FieldKind::Month);
        let rdow = spec_parse_field(toks[off + 4], FieldKind::DayOfWeek);
        if toks.len() == 6 && rsec is Err {
            Err(ErrorModel { kind: field_err_kind(rsec), field: 0, token: toks[0] })
        } else if rmin is Err {
            Err(ErrorModel { kind: field_err_kind(rmin), field: off, token: toks[off] })
        } else if rhour is Err {
            Err(ErrorModel { kind: field_err_kind(rhour), field: off + 1, token: toks[off + 1] })
        } else if rdom is Err {
            Err(ErrorModel { kind: field_err_kind(rdom), field: off + 2, token: toks[off + 2] })
        } else if rmon is Err {
            Err(ErrorModel { kind: field_err_kind(rmon), field: off + 3, token: toks[off + 3] })
        } else if rdow is Err {
            Err(ErrorModel { kind: field_err_kind(rdow), field: off + 4, token: toks[off + 4] })
        } else {
            Ok(PatternModel {
                secs: if toks.len() == 6 {
                    Some(field_set(toks[0], FieldKind::Second))
                } else {
                    None
                },
                mins: field_set(toks[off], FieldKind::Minute),
                hours: field_set(toks[off + 1], FieldKind::Hour),
                doms: field_set(toks[off + 2], FieldKind::DayOfMonth),
                months: field_set(toks[off + 3], FieldKind::Month),
                dows: field_set(toks[off + 4], FieldKind::DayOfWeek),
                dom_star: ok_star(rdom),
                dow_star: ok_star(rdow),
                policy: pol,
            })
        }
    }
}

fn mk_err(text: &str, kind: ParseErrorKind, idx: usize, a: usize, b: usize) -> (e: ParseError)
    requires
        a <= b <= text@.len(),
    ensures
        e@.kind == kind,
        e@.field == idx as int,
        e@.token == text@.subrange(a as int, b as int),
{
    ParseError { kind, field_index: idx, token: text.substring_char(a, b).to_owned() }
}

fn chars_of(s: &str) -> (r: Vec<char>)
    ensures
        r@ == s@,
{
    let n = s.unicode_len();
    let mut cs: Vec<char> = Vec::new();
    let mut i: usize = 0;
    while i < n
        invariant
            i <= n,
            n == s@.len(),
            cs@ =~= s@.take(i as int),
        decreases n - i,
    {
        let c = s.get_char(i);
        cs.push(c);
        proof {
            assert(cs@ =~= s@.take(i as int + 1));
        }
        i += 1;
    }
    proof {
        assert(cs@ =~= s@);
    }
    cs
}

/// Parse a textual cron pattern under the given seconds policy.
#[verifier::rlimit(100)]
pub fn parse(text: &str, policy: SecondsPolicy) -> (r: Result<Pattern, ParseError>)
    ensures
        ({
            let sp = spec_parse(text@, policy);
            match r {
                Ok(p) => sp matches Ok(m) && p@ =~~= m && p.wf() && p.policy == policy,
                Err(e) => sp matches Err(em) && em == e@,
            }
        }),
{
    let cs = chars_of(text);
    let toks = split_ws(&cs);
    let ghost stoks = spec_split_ws_from(text@, 0);
    let n = toks.len();
    if !((n == 5 && policy != SecondsPolicy::Required) || (n == 6 && policy
        != SecondsPolicy::Disallowed)) {
        let e = ParseError {
            kind: ParseErrorKind::FieldCountMismatch,
            field_index: n,
            token: String::new(),
        };
        proof {
            assert(e@.token =~= Seq::<char>::empty());
        }
        return Err(e);
    }
    let off: usize = if n == 6 {
        1
    } else {
        0
    };
    let seconds: Option<FieldConstraint> = if n == 6 {
        let rg = toks[0];
        let t = copy_range(&cs, rg.0, rg.1);
        proof {
            assert(t@ == stoks[0]);
        }
        match parse_field(&t, FieldKind::Second) {
            Ok(c) => Some(c),
            Err(e) => {
                return Err(mk_err(text, e, 0, rg.0, rg.1));
            },
        }
    } else {
        None
    };
    let rg1 = toks[off];
    let t1 = copy_range(&cs, rg1.0, rg1.1);
    proof {
        assert(t1@ == stoks[off as int]);
    }
    let minutes = match parse_field(&t1, FieldKind::Minute) {
        Ok(c) => c,
        Err(e) => {
            return Err(mk_err(text, e, off, rg1.0, rg1.1));
        },
    };
    let rg2 = toks[off + 1];
    let t2 = copy_range(&cs, rg2.0, rg2.1);
    proof {
        assert(t2@ == stoks[off as int + 1]);
    }
    let hours = match parse_field(&t2, FieldKind::Hour) {
        Ok(c) => c,
        Err(e) => {
            return Err(mk_err(text, e, off + 1, rg2.0, rg2.1));
        },
    };
    let rg3 = toks[off + 2];
    let t3 = copy_range(&cs, rg3.0, rg3.1);
    proof {
        assert(t3@ == stoks[off as int + 2]);
    }
    let days_of_month = match parse_field(&t3, FieldKind::DayOfMonth) {
        Ok(c) => c,
        Err(e) => {
            return Err(mk_err(text, e, off + 2, rg3.0, rg3.1));
        },
    };
    let rg4 = toks[off + 3];
    let t4 = copy_range(&cs, rg4.0, rg4.1);
    proof {
        assert(t4@ == stoks[off as int + 3]);
    }
    let months = match parse_field(&t4, FieldKind::Month) {
        Ok(c) => c,
        Err(e) => {
            return Err(mk_err(text, e, off + 3, rg4.0, rg4.1));
        },
    };
    let rg5 = toks[off + 4];
    let t5 = copy_range(&cs, rg5.0, rg5.1);
    proof {
        assert(t5@ == stoks[off as int + 4]);
    }
    let days_of_week = match parse_field(&t5, FieldKind::DayOfWeek) {
        Ok(c) => c,
        Err(e) => {
            return Err(mk_err(text, e, off + 4, rg5.0, rg5.1));
        },
    };
    let p = Pattern { seconds, minutes, hours, days_of_month, months, days_of_week, policy };
    proof {
        let sp = spec_parse(text@, policy);
        let m = match sp {
            Ok(m) => m,
            Err(_) => arbitrary(),
        };
        assert(sp is Ok);
        if n == 6 {
            assert(p.seconds matches Some(c) && c.set() =~= field_set(stoks[0], FieldKind::Second));
        }
        assert(p.minutes.set() =~= field_set(stoks[off as int], FieldKind::Minute));
        assert(p.hours.set() =~= field_set(stoks[off as int + 1], FieldKind::Hour));
        assert(p.days_of_month.set() =~= field_set(stoks[off as int + 2], FieldKind::DayOfMonth));
        assert(p.months.set() =~= field_set(stoks[off as int + 3], FieldKind::Month));
        assert(p.days_of_week.set() =~= field_set(stoks[off as int + 4], FieldKind::DayOfWeek));
        assert(p@ =~~= m);
    }
    Ok(p)
}

/// Whether the text is a valid cron pattern under the policy.
pub fn validate(text: &str, policy: SecondsPolicy) -> (r: bool)
    ensures
        r == (spec_parse(text@, policy) is Ok),
{
    match parse(text, policy) {
        Ok(_) => true,
        Err(_) => false,
    }
}

} // verus!
