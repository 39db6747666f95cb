//! The terminal verification report.

use telos::extract::extract;
use telos::parser::parse;
use telos::report::{overall_passed, report_for, verify_all};
use telos::solver::Model;
use telos::span::Span;
use telos::verify::{CheckResult, VerificationResult};

fn check(desc: &str, passed: bool, group: Option<usize>, loc: Option<Span>, ce: Option<Model>) -> CheckResult {
    CheckResult {
        description: desc.to_string(),
        passed,
        is_ensures: true,
        is_approximation: false,
        counterexample: ce,
        or_group: group,
        location: loc,
    }
}

#[test]
fn report_all_passing_plain() {
    let results = vec![VerificationResult {
        func_name: "f".to_string(),
        checks: vec![check("x >= 0", true, None, None, None)],
        all_passed: true,
    }];
    let (text, ok) = report_for("a.telos", "", &results, false);
    assert!(ok);
    assert_eq!(
        text,
        "Verifying a.telos\n\n  function f:\n    [PASS] ensures x >= 0\n    => PASS\n\nRESULT: all constraints satisfied.\n"
    );
}

#[test]
fn report_failure_shows_counterexample_and_caret() {
    let mut m = Model::new();
    m.set(&"x".to_string(), -1);
    let results = vec![VerificationResult {
        func_name: "g".to_string(),
        checks: vec![check("x > 0", false, None, Some(Span { line: 2, col: 5 }), Some(m))],
        all_passed: false,
    }];
    let (text, ok) = report_for("b.telos", "line one\n    ensures x > 0\n", &results, false);
    assert!(!ok);
    let expected = "Verifying b.telos\n\n  function g:\n    [FAIL] ensures x > 0\n      counterexample: {x=-1}\n\
--> b.telos:2:5\n  |\n2 |     ensures x > 0\n  |     ^\n    => FAIL\n\n\
RESULT: verification failed (see FAIL above).\n\n\
hint: some failures may be solver limitations (FM solver is incomplete for nonlinear arithmetic); try --solver z3 for exact results\n";
    assert_eq!(text, expected);
}

#[test]
fn report_groups_pass_when_one_member_passes() {
    let results = vec![VerificationResult {
        func_name: "h".to_string(),
        checks: vec![
            check("a", false, Some(3), None, None),
            check("b", true, Some(3), None, None),
            check("c", true, Some(1), None, None),
        ],
        all_passed: true,
    }];
    let (text, ok) = report_for("c.telos", "", &results, false);
    assert!(ok);
    assert_eq!(
        text,
        "Verifying c.telos\n\n  function h:\n    [PASS] disjunction group 1:\n      [PASS] ensures c\n    [PASS] disjunction group 3:\n      [FAIL] ensures a\n      [PASS] ensures b\n    => PASS\n\nRESULT: all constraints satisfied.\n"
    );
}

#[test]
fn report_caret_out_of_range_is_omitted_and_colors_apply() {
    let results = vec![VerificationResult {
        func_name: "k".to_string(),
        checks: vec![check("y == 1", false, None, Some(Span { line: 9, col: 1 }), None)],
        all_passed: false,
    }];
    let (text, ok) = report_for("d.telos", "one line\n", &results, true);
    assert!(!ok);
    assert!(text.contains("    [\x1b[31mFAIL\x1b[0m] ensures y == 1\n    => \x1b[31mFAIL\x1b[0m\n"));
    assert!(!text.contains("-->"));
    assert!(text.contains("\x1b[31mRESULT: verification failed (see FAIL above).\x1b[0m\n"));
}

#[test]
fn verify_all_follows_problem_order() {
    let src = r#"
        module Bank {
            invariant Wallet { balance >= 0 }
            func deposit(w: Wallet, amount: PositiveInt)
                requires amount > 0
                ensures w.balance == old(w.balance) + amount
            { mutate state { w.balance += amount } }
            func withdraw(w: Wallet, amount: PositiveInt)
            { mutate state { w.balance -= amount } }
        }
    "#;
    let modules = parse(src).unwrap();
    let problems = extract(&modules).unwrap();
    let results = verify_all(&problems);
    assert_eq!(results.len(), 2);
    assert_eq!(results[0].func_name, "deposit");
    assert!(results[0].all_passed);
    assert_eq!(results[1].func_name, "withdraw");
    assert!(!results[1].all_passed);
    assert!(!overall_passed(&results));
    assert!(overall_passed(&results[..1].to_vec()));
}
