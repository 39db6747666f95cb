//! Tests of the readable verification hints.

use telos::agent::transpile_module;
use telos::hint::{format_hint, format_outcome_hints};
use telos::parser::parse;
use telos::solver::Model;
use telos::static_agent::StaticAgent;
use telos::extract::extract;
use telos::verify::{verify, CheckResult};

fn failed_check() -> CheckResult {
    let mut model = Model::new();
    model.insert("from.balance'", 5);
    model.insert("from.balance", 1);
    CheckResult {
        description: "ensures from.balance == old(from.balance) - amount".to_string(),
        passed: false,
        is_ensures: true,
        is_approximation: false,
        counterexample: Some(model),
        or_group: None,
        location: None,
    }
}

#[test]
fn hint_reports_failure_and_post_state() {
    let hint = format_hint(&failed_check());
    assert!(hint.contains("FAILED"));
    assert!(hint.contains("counterexample"));
    assert!(hint.contains("from.balance (post-state)=5"));
    assert!(hint.contains("from.balance=1"));
}

#[test]
fn hint_notes_approximation_and_disjunction() {
    let mut c = failed_check();
    c.is_approximation = true;
    c.or_group = Some(2);
    let hint = format_hint(&c);
    assert!(hint.contains("interval-bounded approximation"));
    assert!(hint.contains("disjunction group 2"));
}

#[test]
fn passing_check_has_no_counterexample_line() {
    let mut c = failed_check();
    c.passed = true;
    c.counterexample = None;
    let hint = format_hint(&c);
    assert!(!hint.contains("FAILED"));
    assert!(!hint.contains("counterexample"));
}

#[test]
fn hint_exact_text_sorts_bindings() {
    let hint = format_hint(&failed_check());
    assert_eq!(
        hint,
        "[ensures] ensures from.balance == old(from.balance) - amount \u{2014} FAILED\n    counterexample: from.balance=1, from.balance (post-state)=5"
    );
}

#[test]
fn hint_for_post_state_model_key() {
    let mut model = Model::new();
    model.insert("c.v'", 5);
    let check = CheckResult {
        description: "ensures c.v == 0".to_string(),
        passed: false,
        is_ensures: true,
        is_approximation: false,
        counterexample: Some(model),
        or_group: None,
        location: None,
    };
    let hint = format_hint(&check);
    assert!(hint.contains("FAILED"));
    assert!(hint.contains("c.v (post-state)=5"));
}

#[test]
fn outcome_hints_cover_every_check() {
    let src = r#"
        module Bank {
            invariant Wallet { balance >= 0 }
            func deposit(w: Wallet, amount: PositiveInt)
                ensures w.balance == old(w.balance) + amount
            ;
        }
    "#;
    let modules = parse(src).unwrap();
    let outcomes: Vec<_> = modules.iter().flat_map(|m| transpile_module(m, &StaticAgent::new()).unwrap()).collect();
    let hints = format_outcome_hints(&outcomes[0]);
    assert!(hints.contains("ensures"));
    assert!(!hints.contains("FAILED"));
    assert_eq!(hints.lines().count(), outcomes[0].result.checks.len());
}

#[test]
fn verify_attaches_counterexample_to_failed_check() {
    let src = r#"
        module M {
            func f(c: Counter) ensures c.v == 0 { mutate state { c.v = 5; } }
        }
    "#;
    let modules = parse(src).unwrap();
    let problems = extract(&modules).unwrap();
    let result = verify(&problems[0]);
    assert!(!result.all_passed);
    let check = &result.checks[0];
    assert!(!check.passed);
    assert!(check.counterexample.is_some());
    assert!(format_hint(check).contains("c.v (post-state)=5"));
}
