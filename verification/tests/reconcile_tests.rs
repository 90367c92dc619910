use nba_hub::reconcile::{count_mismatches, summarize_checks, CheckResult, MetricRow};

// metric values are carried in nanounits, so the default tolerance of
// one ten-thousandth is 100_000 units
const EPS_NANOS: i64 = 100_000;

fn row(player: i64, season: i64, values: Vec<Option<i64>>) -> MetricRow {
    MetricRow { key_a: player, key_b: season, values }
}

#[test]
fn difference_of_exactly_epsilon_is_accepted() {
    let left = vec![row(1, 2020, vec![Some(1_000_000_000)])];
    let right = vec![row(1, 2020, vec![Some(1_000_000_000 + EPS_NANOS)])];
    assert_eq!(count_mismatches(&left, &right, EPS_NANOS), 0);
}

#[test]
fn difference_just_over_epsilon_is_flagged() {
    let left = vec![row(1, 2020, vec![Some(1_000_000_000)])];
    let right = vec![row(1, 2020, vec![Some(1_000_000_000 + EPS_NANOS + 1)])];
    assert_eq!(count_mismatches(&left, &right, EPS_NANOS), 1);
}

#[test]
fn missing_counterparts_count_on_both_sides() {
    let left = vec![row(1, 2020, vec![Some(5)]), row(2, 2020, vec![Some(7)])];
    let right = vec![row(2, 2020, vec![Some(7)]), row(3, 2020, vec![Some(9)])];
    // player 1 is missing on the right, player 3 on the left
    assert_eq!(count_mismatches(&left, &right, EPS_NANOS), 2);
}

#[test]
fn absent_fields_compare_as_zero() {
    let left = vec![row(1, 2020, vec![None, Some(3)])];
    let right = vec![row(1, 2020, vec![Some(0), Some(3)])];
    assert_eq!(count_mismatches(&left, &right, EPS_NANOS), 0);
    let right2 = vec![row(1, 2020, vec![Some(EPS_NANOS + 1), Some(3)])];
    assert_eq!(count_mismatches(&left, &right2, EPS_NANOS), 1);
}

#[test]
fn equal_sides_have_no_mismatches() {
    let left = vec![
        row(1, 2020, vec![Some(10), Some(20)]),
        row(2, 2021, vec![Some(30), None]),
    ];
    let right = vec![
        row(1, 2020, vec![Some(10), Some(20)]),
        row(2, 2021, vec![Some(30), None]),
    ];
    assert_eq!(count_mismatches(&left, &right, EPS_NANOS), 0);
}

#[test]
fn summary_names_every_failing_check() {
    let results = vec![
        CheckResult { id: "V-001".to_string(), mismatches: 0 },
        CheckResult { id: "V-002".to_string(), mismatches: 3 },
        CheckResult { id: "V-003".to_string(), mismatches: 0 },
        CheckResult { id: "V-004".to_string(), mismatches: 1 },
    ];
    let outcome = summarize_checks(&results);
    assert!(!outcome.passed);
    assert_eq!(outcome.failing_ids, vec!["V-002".to_string(), "V-004".to_string()]);
}

#[test]
fn summary_passes_when_no_check_fails() {
    let results = vec![
        CheckResult { id: "V-001".to_string(), mismatches: 0 },
        CheckResult { id: "V-005".to_string(), mismatches: 0 },
    ];
    let outcome = summarize_checks(&results);
    assert!(outcome.passed);
    assert!(outcome.failing_ids.is_empty());
}
