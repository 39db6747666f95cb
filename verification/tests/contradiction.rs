//! Contradiction checking over named constraint groups.

use telos::contradiction::{check_contradictions, Contradiction, NamedConstraints};
use telos::ir::{Constraint, Linear, Relation};

fn ge(var: &str, bound: i64) -> Constraint {
    Constraint(
        Linear::var(var).sub(&Linear::constant_only(bound)),
        Relation::Ge,
    )
}

fn le(var: &str, bound: i64) -> Constraint {
    Constraint(
        Linear::var(var).sub(&Linear::constant_only(bound)),
        Relation::Le,
    )
}

#[test]
fn no_contradiction_among_consistent_groups() {
    let groups = vec![
        NamedConstraints {
            label: "a".to_string(),
            constraints: vec![ge("x", 0)],
        },
        NamedConstraints {
            label: "b".to_string(),
            constraints: vec![le("x", 100)],
        },
    ];
    let report = check_contradictions(&groups);
    assert_eq!(report.overall_unsat, Some(false));
    assert!(report.pairs.is_empty());
}

#[test]
fn flags_pairwise_contradiction() {
    let groups = vec![
        NamedConstraints {
            label: "too_low".to_string(),
            constraints: vec![le("x", 0)],
        },
        NamedConstraints {
            label: "too_high".to_string(),
            constraints: vec![ge("x", 1)],
        },
    ];
    let report = check_contradictions(&groups);
    assert_eq!(report.overall_unsat, Some(true));
    assert_eq!(
        report.pairs,
        vec![Contradiction {
            a: "too_low".to_string(),
            b: "too_high".to_string(),
        }]
    );
}

#[test]
fn only_conflicting_pair_is_reported_among_three() {
    // "low" (x <= 0) and "high" (x >= 1) conflict; "wide" (x >= -100) is
    // consistent with both individually.
    let groups = vec![
        NamedConstraints {
            label: "low".to_string(),
            constraints: vec![le("x", 0)],
        },
        NamedConstraints {
            label: "high".to_string(),
            constraints: vec![ge("x", 1)],
        },
        NamedConstraints {
            label: "wide".to_string(),
            constraints: vec![ge("x", -100)],
        },
    ];
    let report = check_contradictions(&groups);
    // The full set is unsatisfiable (low and high alone already conflict).
    assert_eq!(report.overall_unsat, Some(true));
    assert_eq!(
        report.pairs,
        vec![Contradiction {
            a: "low".to_string(),
            b: "high".to_string(),
        }]
    );
}

#[test]
fn empty_groups_are_trivially_consistent() {
    let report = check_contradictions(&[]);
    assert_eq!(report.overall_unsat, Some(false));
    assert!(report.pairs.is_empty());
}

#[test]
fn check_contradictions_doc_threshold_rules() {
    // value <= 200 vs value >= 500 can never both hold.
    let low = NamedConstraints {
        label: "latency_ok".to_string(),
        constraints: vec![le("value", 200)],
    };
    let high = NamedConstraints {
        label: "latency_critical".to_string(),
        constraints: vec![ge("value", 500)],
    };
    let report = check_contradictions(&[low, high]);
    assert_eq!(report.overall_unsat, Some(true));
    assert_eq!(report.pairs.len(), 1);
    assert_eq!(report.pairs[0].a, "latency_ok");
    assert_eq!(report.pairs[0].b, "latency_critical");
}

#[test]
fn check_contradictions_overlapping_thresholds_are_consistent() {
    let above = NamedConstraints {
        label: "above".to_string(),
        constraints: vec![ge("value", 201)],
    };
    let at_least = NamedConstraints {
        label: "at_least".to_string(),
        constraints: vec![ge("value", 200)],
    };
    let report = check_contradictions(&[above, at_least]);
    assert_eq!(report.overall_unsat, Some(false));
    assert!(report.pairs.is_empty());
}
