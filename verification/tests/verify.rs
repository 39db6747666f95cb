//! End-to-end verification: parse, extract, and discharge every conclusion.

use telos::extract::extract;
use telos::ir::{Constraint, Linear, Relation};
use telos::parser::parse;
use telos::verify::{is_unsat, verify};

#[test]
fn verify_deposit_passes() {
    let src = r#"
        module Bank {
            invariant Wallet { balance >= 0 }
            func deposit(w: Wallet, amount: PositiveInt)
                requires amount > 0
                ensures w.balance == old(w.balance) + amount
            { mutate state { w.balance += amount } }
        }
    "#;
    let modules = parse(src).unwrap();
    let problems = extract(&modules).unwrap();
    let result = verify(&problems[0]);
    assert_eq!(result.func_name, "deposit");
    assert!(result.all_passed);
    assert!(result.checks.iter().all(|c| c.passed));
}

#[test]
fn verify_withdraw_without_guard_fails() {
    // Nothing stops the balance from going negative.
    let src = r#"
        module Bank {
            invariant Wallet { balance >= 0 }
            func withdraw(w: Wallet, amount: PositiveInt)
            { mutate state { w.balance -= amount } }
        }
    "#;
    let problems = extract(&parse(src).unwrap()).unwrap();
    let result = verify(&problems[0]);
    assert!(!result.all_passed);
    assert!(result.checks.iter().any(|c| !c.passed && !c.is_ensures));
}

#[test]
fn verify_withdraw_with_guard_passes() {
    let src = r#"
        module Bank {
            invariant Wallet { balance >= 0 }
            func withdraw(w: Wallet, amount: PositiveInt)
                requires w.balance >= amount
                ensures w.balance == old(w.balance) - amount
            { mutate state { w.balance -= amount } }
        }
    "#;
    let problems = extract(&parse(src).unwrap()).unwrap();
    let result = verify(&problems[0]);
    assert!(result.all_passed);
    assert_eq!(result.checks.len(), 2);
}

#[test]
fn verify_disjunctive_ensures_needs_one_branch() {
    // x >= 5 entails x > 0 but not x < 0: the group passes on one branch.
    let src = "module M { func f(x: Int) requires x >= 5 ensures x > 0 || x < 0 { } }";
    let problems = extract(&parse(src).unwrap()).unwrap();
    let result = verify(&problems[0]);
    assert!(result.all_passed);
    assert_eq!(result.checks.len(), 2);
    assert!(result.checks[0].passed);
    assert!(!result.checks[1].passed);
}

#[test]
fn verify_disjunctive_ensures_fails_when_no_branch_holds() {
    let src = "module M { func f(x: Int) ensures x > 0 || x < 0 { } }";
    let problems = extract(&parse(src).unwrap()).unwrap();
    let result = verify(&problems[0]);
    assert!(!result.all_passed);
}

#[test]
fn is_unsat_detects_contradictory_bounds() {
    let ge1 = Constraint(Linear::var("x").sub(&Linear::constant_only(1)), Relation::Ge);
    let le0 = Constraint(Linear::var("x"), Relation::Le);
    assert!(is_unsat(&[ge1, le0]));
    let ge0 = Constraint(Linear::var("x"), Relation::Ge);
    assert!(!is_unsat(&[ge0]));
}

#[test]
fn verify_disjunction_needs_a_whole_branch() {
    // (x > 0 && x < 3) || x > 1 under x >= 5: the second branch holds whole.
    let ok = "module M { func f(x: Int) requires x >= 5 ensures (x > 0 && x < 3) || x > 1 { } }";
    let problems = extract(&parse(ok).unwrap()).unwrap();
    assert!(verify(&problems[0]).all_passed);
    // (x > 0 && x < 3) || x < 0 under x >= 5: x > 0 holds, but no branch does.
    let bad = "module M { func f(x: Int) requires x >= 5 ensures (x > 0 && x < 3) || x < 0 { } }";
    let problems = extract(&parse(bad).unwrap()).unwrap();
    let result = verify(&problems[0]);
    assert!(result.checks.iter().any(|c| c.passed));
    assert!(!result.all_passed);
}

#[test]
fn verify_if_expression_takes_the_else_branch_only_when_the_condition_fails() {
    // Under x == 6, `if x > 5 { x > 100 } else { x >= 0 }` cannot hold: the
    // else branch applies only where x <= 5. Every premise branch is
    // contradictory, so any conclusion follows.
    let src = "module M { func f(x: Int) requires x == 6 requires if x > 5 { x > 100 } else { x >= 0 } ensures x < 0 { } }";
    let problems = extract(&parse(src).unwrap()).unwrap();
    assert_eq!(problems.len(), 2);
    assert!(problems.iter().all(|p| verify(p).all_passed));
    // Under x == 3 the else branch holds, and x < 0 does not follow.
    let src = "module M { func f(x: Int) requires x == 3 requires if x > 5 { x > 100 } else { x >= 0 } ensures x < 0 { } }";
    let problems = extract(&parse(src).unwrap()).unwrap();
    assert!(!problems.iter().all(|p| verify(p).all_passed));
}
