use cronexpr::{parse, validate, ParseErrorKind, SecondsPolicy};

// 2024-01-01T00:00:00Z
const JAN1_2024: u64 = 1704067200;
const DAY: u64 = 86400;

#[test]
fn day_rule_unrestricted_dow() {
    // "0 0 1,15 * *" matches both the 1st and 15th of every month at
    // midnight, independent of day-of-week (wildcard there).
    let p = parse("0 0 1,15 * *", SecondsPolicy::Optional).unwrap();
    assert!(p.is_match(JAN1_2024)); // 2024-01-01 (Monday)
    assert!(p.is_match(JAN1_2024 + 14 * DAY)); // 2024-01-15 (Monday)
    assert!(p.is_match(JAN1_2024 + 31 * DAY)); // 2024-02-01 (Thursday)
    assert!(!p.is_match(JAN1_2024 + DAY)); // 2024-01-02
    assert!(!p.is_match(JAN1_2024 + 60)); // wrong minute
}

#[test]
fn or_rule_both_restricted() {
    // "0 0 13 * FRI" matches every Friday AND every 13th of the month.
    let p = parse("0 0 13 * FRI", SecondsPolicy::Optional).unwrap();
    let feb13 = JAN1_2024 + 43 * DAY; // 2024-02-13, a Tuesday
    let feb16 = JAN1_2024 + 46 * DAY; // 2024-02-16, a Friday
    let feb14 = JAN1_2024 + 44 * DAY; // 2024-02-14, a Wednesday
    assert!(p.is_match(feb13));
    assert!(p.is_match(feb16));
    assert!(!p.is_match(feb14));
}

#[test]
fn seconds_policy() {
    assert!(validate("0 * * * *", SecondsPolicy::Disallowed));
    assert!(!validate("0 * * * * *", SecondsPolicy::Disallowed));
    assert!(!validate("0 * * * *", SecondsPolicy::Required));
    assert!(validate("0 * * * * *", SecondsPolicy::Required));
    assert!(validate("0 * * * *", SecondsPolicy::Optional));
    assert!(validate("0 * * * * *", SecondsPolicy::Optional));
}

#[test]
fn exhaustion_april_31() {
    // Day-of-month 31 in April (30 days) never matches; the search reports
    // exhaustion instead of hanging.
    let p = parse("0 0 31 4 *", SecondsPolicy::Optional).unwrap();
    assert_eq!(p.next_occurrence(JAN1_2024, false), None);
}

#[test]
fn example_scenario_every_15_minutes() {
    // From 2024-01-01T00:07:00Z (exclusive) the next occurrence is 00:15,
    // and five occurrences are :15, :30, :45, 01:00, 01:15.
    let p = parse("*/15 * * * *", SecondsPolicy::Optional).unwrap();
    let start = JAN1_2024 + 7 * 60;
    let t15 = JAN1_2024 + 15 * 60;
    assert_eq!(p.next_occurrence(start, false), Some(t15));
    let runs = p.next_n_occurrences(start, 5);
    assert_eq!(
        runs,
        vec![t15, JAN1_2024 + 30 * 60, JAN1_2024 + 45 * 60, JAN1_2024 + 60 * 60, JAN1_2024
            + 75 * 60]
    );
}

#[test]
fn inclusive_vs_exclusive() {
    let p = parse("*/15 * * * *", SecondsPolicy::Optional).unwrap();
    let t = JAN1_2024 + 15 * 60;
    assert!(p.is_match(t));
    assert_eq!(p.next_occurrence(t, true), Some(t));
    assert_eq!(p.next_occurrence(t, false), Some(JAN1_2024 + 30 * 60));
}

#[test]
fn chaining_matches_sequential_calls() {
    let p = parse("0 12 * * *", SecondsPolicy::Optional).unwrap();
    let chained = p.next_n_occurrences(JAN1_2024, 3);
    let mut manual = Vec::new();
    let mut cur = JAN1_2024;
    for _ in 0..3 {
        match p.next_occurrence(cur, false) {
            Some(t) => {
                manual.push(t);
                cur = t;
            }
            None => break,
        }
    }
    assert_eq!(chained, manual);
    assert_eq!(chained.len(), 3);
    assert_eq!(chained[0], JAN1_2024 + 12 * 3600);
}

#[test]
fn monotonic_and_strictly_increasing() {
    let p = parse("30 */2 * * *", SecondsPolicy::Optional).unwrap();
    let runs = p.next_n_occurrences(JAN1_2024, 4);
    assert_eq!(runs.len(), 4);
    let mut prev = JAN1_2024;
    for t in runs {
        assert!(t > prev);
        assert!(p.is_match(t));
        prev = t;
    }
}

#[test]
fn five_field_pattern_matches_only_at_second_zero() {
    let p = parse("* * * * *", SecondsPolicy::Optional).unwrap();
    assert!(p.is_match(JAN1_2024));
    assert!(p.is_match(JAN1_2024 + 60));
    assert!(!p.is_match(JAN1_2024 + 30));
}

#[test]
fn six_field_pattern_seconds() {
    let p = parse("30 * * * * *", SecondsPolicy::Optional).unwrap();
    assert!(p.has_seconds());
    assert!(p.is_match(JAN1_2024 + 30));
    assert!(!p.is_match(JAN1_2024));
    assert_eq!(p.next_occurrence(JAN1_2024, false), Some(JAN1_2024 + 30));
}

#[test]
fn leap_year_february_29() {
    let p = parse("0 0 29 2 *", SecondsPolicy::Optional).unwrap();
    let start = 1672531200; // 2023-01-01T00:00:00Z
    let feb29_2024 = JAN1_2024 + 59 * DAY; // 2024-02-29T00:00:00Z
    assert_eq!(p.next_occurrence(start, false), Some(feb29_2024));
}

#[test]
fn month_boundary_rollover() {
    let p = parse("0 0 1 * *", SecondsPolicy::Optional).unwrap();
    let jan31 = JAN1_2024 + 30 * DAY;
    assert_eq!(p.next_occurrence(jan31, false), Some(JAN1_2024 + 31 * DAY));
}

#[test]
fn exclusive_advances_to_next_minute_boundary() {
    // From 00:07:30 exclusive, a five-field pattern first considers 00:08:00.
    let p = parse("8 0 * * *", SecondsPolicy::Optional).unwrap();
    let start = JAN1_2024 + 7 * 60 + 30;
    assert_eq!(p.next_occurrence(start, false), Some(JAN1_2024 + 8 * 60));
}

#[test]
fn dow_seven_means_sunday() {
    let p7 = parse("0 0 * * 7", SecondsPolicy::Optional).unwrap();
    let p0 = parse("0 0 * * 0", SecondsPolicy::Optional).unwrap();
    let sunday = JAN1_2024 + 6 * DAY; // 2024-01-07
    assert!(p7.is_match(sunday));
    assert!(p0.is_match(sunday));
    assert!(!p7.is_match(JAN1_2024)); // a Monday
    assert_eq!(p7.canonical_text(), "0 0 * * 0");
}

#[test]
fn error_value_out_of_domain() {
    let e = parse("0 0 32 * *", SecondsPolicy::Optional).unwrap_err();
    assert_eq!(e.kind, ParseErrorKind::ValueOutOfDomain);
    assert_eq!(e.field_index, 2);
    assert_eq!(e.token, "32");
}

#[test]
fn error_inverted_range() {
    let e = parse("0 0 5-2 * *", SecondsPolicy::Optional).unwrap_err();
    assert_eq!(e.kind, ParseErrorKind::InvertedRange);
    assert_eq!(e.field_index, 2);
}

#[test]
fn error_non_positive_step() {
    let e = parse("*/0 * * * *", SecondsPolicy::Optional).unwrap_err();
    assert_eq!(e.kind, ParseErrorKind::NonPositiveStep);
    assert_eq!(e.field_index, 0);
}

#[test]
fn error_unknown_alias() {
    let e = parse("0 0 * * FOO", SecondsPolicy::Optional).unwrap_err();
    assert_eq!(e.kind, ParseErrorKind::UnknownAlias);
    assert_eq!(e.field_index, 4);
    assert_eq!(e.token, "FOO");
}

#[test]
fn error_malformed_token() {
    let e = parse("0 0 * * 1-", SecondsPolicy::Optional).unwrap_err();
    assert_eq!(e.kind, ParseErrorKind::MalformedToken);
    let e2 = parse("0 0 * * ,", SecondsPolicy::Optional).unwrap_err();
    assert_eq!(e2.kind, ParseErrorKind::MalformedToken);
}

#[test]
fn error_field_count() {
    let e = parse("a b", SecondsPolicy::Optional).unwrap_err();
    assert_eq!(e.kind, ParseErrorKind::FieldCountMismatch);
    assert_eq!(e.field_index, 2);
    assert_eq!(e.token, "");
}

#[test]
fn canonical_text_expands_steps_and_aliases() {
    let p = parse("*/15 * * * *", SecondsPolicy::Optional).unwrap();
    assert_eq!(p.canonical_text(), "0,15,30,45 * * * *");
    let q = parse("0 9 * * MON-FRI", SecondsPolicy::Optional).unwrap();
    assert_eq!(q.canonical_text(), "0 9 * * 1,2,3,4,5");
    let r = parse("30 0 0 1 JAN *", SecondsPolicy::Optional).unwrap();
    assert!(r.has_seconds());
    assert_eq!(r.canonical_text(), "30 0 0 1 1 *");
}

#[test]
fn canonical_round_trip_preserves_matching() {
    for pat in ["*/15 * * * *", "0 0 13 * FRI", "30 0 0 1 JAN *", "0 0 1,15 * *"] {
        let p = parse(pat, SecondsPolicy::Optional).unwrap();
        let text = p.canonical_text();
        let q = parse(&text, SecondsPolicy::Optional).unwrap();
        assert_eq!(q.canonical_text(), text);
        assert_eq!(p.has_seconds(), q.has_seconds());
        for t in (0..600).map(|k| JAN1_2024 + k * 61) {
            assert_eq!(p.is_match(t), q.is_match(t));
        }
    }
}

#[test]
fn describe_shapes() {
    let every_min = parse("* * * * *", SecondsPolicy::Optional).unwrap();
    assert_eq!(every_min.describe(), "Every minute");
    let every_sec = parse("* * * * * *", SecondsPolicy::Optional).unwrap();
    assert_eq!(every_sec.describe(), "Every second");
    let daily = parse("30 8 * * *", SecondsPolicy::Optional).unwrap();
    assert_eq!(daily.describe(), "At 08:30 every day");
    let weekly = parse("30 8 * * MON", SecondsPolicy::Optional).unwrap();
    assert_eq!(weekly.describe(), "At 08:30 on Monday");
    let monthly = parse("30 8 15 * *", SecondsPolicy::Optional).unwrap();
    assert_eq!(monthly.describe(), "At 08:30 on day-of-month 15");
    let generic = parse("*/15 * * * *", SecondsPolicy::Optional).unwrap();
    assert_eq!(
        generic.describe(),
        "At second 0, minute 0,15,30,45, every hour, every day, every month"
    );
    let or_day = parse("0 0 13 * FRI", SecondsPolicy::Optional).unwrap();
    assert_eq!(
        or_day.describe(),
        "At second 0, minute 0, hour 0, day-of-month 13 or day-of-week 5, every month"
    );
}

#[test]
fn wildcard_step_day_of_month_is_restricted() {
    // "*/1" on day-of-month carries every day but is not the wildcard tag,
    // so the day rule treats it as restricted (OR with day-of-week).
    let p = parse("0 0 */1 * FRI", SecondsPolicy::Optional).unwrap();
    assert!(p.is_match(JAN1_2024)); // a Monday: day-of-month side matches
    let q = parse("0 0 * * FRI", SecondsPolicy::Optional).unwrap();
    assert!(!q.is_match(JAN1_2024)); // bare wildcard defers to FRI
}

#[test]
fn single_value_with_step_runs_to_domain_max() {
    let p = parse("0 20/3 * * *", SecondsPolicy::Optional).unwrap();
    assert_eq!(p.canonical_text(), "0 20,23 * * *");
}

#[test]
fn seconds_policy_getter_and_whitespace() {
    let p = parse("  0  *  * * *  ", SecondsPolicy::Disallowed).unwrap();
    assert_eq!(p.seconds_policy(), SecondsPolicy::Disallowed);
    assert!(!p.has_seconds());
}
