//! Symbolic byte sizes: linearity, linear forms, evaluation; memory budgets.

use telos::memory::{MemoryLimits, ProofResult, ScopeInfo};
use telos::size::{LinearizeError, SizeExpr};
use telos::solver::Model;

fn coeff(terms: &[(String, i64)], name: &str) -> Option<i64> {
    terms.iter().find(|(n, _)| n == name).map(|(_, c)| *c)
}

fn b(e: SizeExpr) -> Box<SizeExpr> {
    Box::new(e)
}

#[test]
fn linear_detection() {
    let linear = SizeExpr::Scale(
        4,
        b(SizeExpr::Mul(b(SizeExpr::Var("n".to_string())), b(SizeExpr::Const(8)))),
    );
    assert!(linear.is_linear());
    let (coeffs, c) = linear.linearize();
    assert_eq!(coeff(&coeffs, "n"), Some(32));
    assert_eq!(c, 0);

    let nonlinear = SizeExpr::Mul(b(SizeExpr::Var("a".to_string())), b(SizeExpr::Var("b".to_string())));
    assert!(!nonlinear.is_linear());
    assert!(nonlinear.try_linearize().is_err());
}

#[test]
fn eval_matches_linearize() {
    let e = SizeExpr::Add(
        b(SizeExpr::Scale(2, b(SizeExpr::Var("x".to_string())))),
        b(SizeExpr::Const(5)),
    );
    let mut m = Model::new();
    m.insert("x", 10);
    assert_eq!(e.eval(&m), 25);
}

#[test]
fn linear_form_evaluates_like_the_expression() {
    // 3 * (x + 2*y) + (4 * (x + 1)) = 7x + 6y + 4
    let e = SizeExpr::Add(
        b(SizeExpr::Scale(
            3,
            b(SizeExpr::Add(
                b(SizeExpr::var("x")),
                b(SizeExpr::Scale(2, b(SizeExpr::var("y")))),
            )),
        )),
        b(SizeExpr::Mul(
            b(SizeExpr::const_(4)),
            b(SizeExpr::Add(b(SizeExpr::var("x")), b(SizeExpr::const_(1)))),
        )),
    );
    let (terms, c) = e.try_linearize().unwrap();
    assert_eq!(terms, vec![("x".to_string(), 7), ("y".to_string(), 6)]);
    assert_eq!(c, 4);
    let mut m = Model::new();
    m.insert("x", 5);
    m.insert("y", -2);
    let by_form: i64 = terms
        .iter()
        .map(|(n, k)| k * m.get(n).copied().unwrap_or(0))
        .sum::<i64>()
        + c;
    assert_eq!(by_form, e.eval(&m));
    assert_eq!(by_form, 7 * 5 + 6 * -2 + 4);
}

#[test]
fn constant_factor_need_not_be_a_literal() {
    // (1 + 2) * n is linear although neither factor is a literal.
    let e = SizeExpr::Mul(
        b(SizeExpr::Add(b(SizeExpr::const_(1)), b(SizeExpr::const_(2)))),
        b(SizeExpr::var("n")),
    );
    assert!(e.is_linear());
    let (terms, c) = e.try_linearize().unwrap();
    assert_eq!(terms, vec![("n".to_string(), 3)]);
    assert_eq!(c, 0);
}

#[test]
fn cancelled_variable_still_makes_a_product_nonlinear() {
    // (x - x) * y: the left factor keeps a zero term for x.
    let e = SizeExpr::Mul(
        b(SizeExpr::Add(b(SizeExpr::var("x")), b(SizeExpr::Scale(-1, b(SizeExpr::var("x")))))),
        b(SizeExpr::var("y")),
    );
    assert_eq!(e.try_linearize(), Err(LinearizeError::Nonlinear));
    assert!(!e.is_linear());
}

#[test]
fn unbound_variable_evaluates_to_zero() {
    let e = SizeExpr::Add(b(SizeExpr::var("missing")), b(SizeExpr::const_(7)));
    assert_eq!(e.eval(&Model::new()), 7);
}

#[test]
fn memory_limits_pick_scope_budget_or_default() {
    let limits = MemoryLimits::with_default(4096).with_scope("l1", 1024).with_scope("l1", 2048);
    assert_eq!(limits.limit_for("l1"), 2048);
    assert_eq!(limits.limit_for("l2"), 4096);
    assert_eq!(limits.per_scope.len(), 1);
    let unbounded = MemoryLimits::unbounded();
    assert_eq!(unbounded.default, i64::MAX);
    assert_eq!(MemoryLimits::default().limit_for("any"), i64::MAX);
}

#[test]
fn proof_results_and_scopes_carry_their_fields() {
    let r = ProofResult::Counterexample {
        scope: "l1".to_string(),
        model: Model::new(),
        total_bytes: 10,
        limit_bytes: 5,
    };
    assert!(matches!(r, ProofResult::Counterexample { total_bytes: 10, limit_bytes: 5, .. }));
    let s = ScopeInfo { lifetime: "l1".to_string(), begins: 1, ends: 1 };
    assert_eq!(s.clone(), s);
}
