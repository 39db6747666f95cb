//! Tests of the agentic loop and the offline agent: synthesis from
//! `ensures`, counter-example guided repair, and the loop's retry limit.

use std::cell::Cell;

use telos::agent::{render_candidate, transpile_func, transpile_module, Candidate, CodeAgent, FuncSpec};
use telos::ast::{
    Assign, AssignOp, BinOp, Expr, Func, IfStmt, Item, LetBinding, MatchArm, MatchStmt, Module, Param,
    ParamMutability, Pattern, Stmt, Type,
};
use telos::parser::parse;
use telos::solver::Model;
use telos::span::Span;
use telos::static_agent::{synthesize_from_ensures, StaticAgent};

// ---- AST builders ---------------------------------------------------------

fn var(v: &str) -> Expr {
    Expr::Var(v.to_string())
}
fn lit(n: i64) -> Expr {
    Expr::Int(n)
}
fn field(base: &str, f: &str) -> Expr {
    Expr::Field {
        base: base.to_string(),
        field: f.to_string(),
    }
}
fn pre(e: Expr) -> Expr {
    Expr::Old(Box::new(e))
}
fn bin(op: BinOp, l: Expr, r: Expr) -> Expr {
    Expr::Bin {
        op,
        lhs: Box::new(l),
        rhs: Box::new(r),
    }
}
fn assign(target: Expr, op: AssignOp, value: Expr) -> Assign {
    Assign { target, op, value }
}

fn func_with(
    name: &str,
    params: Vec<Param>,
    requires: Vec<Expr>,
    ensures: Vec<Expr>,
    body: Vec<Stmt>,
    elided: bool,
) -> Func {
    Func {
        attributes: vec![],
        name: name.to_string(),
        params,
        return_ty: None,
        requires,
        ensures,
        body,
        elided,
        span: Span::default(),
        requires_spans: vec![],
        ensures_spans: vec![],
    }
}

// ---- synthesize_from_ensures ---------------------------------------------

#[test]
fn synthesize_field_and_scalar_from_ensures() {
    // ensures c.v == old(c.v) + by   ;   ensures out == c.v
    let func = func_with(
        "f",
        vec![
            Param {
                name: "c".into(),
                ty: Type::Named("Counter".into()),
                mutability: ParamMutability::Immutable,
            },
            Param {
                name: "by".into(),
                ty: Type::Named("PositiveInt".into()),
                mutability: ParamMutability::Immutable,
            },
        ],
        vec![],
        vec![
            bin(
                BinOp::Eq,
                field("c", "v"),
                bin(BinOp::Add, pre(field("c", "v")), var("by")),
            ),
            bin(BinOp::Eq, var("out"), field("c", "v")),
        ],
        vec![],
        true,
    );
    let spec = FuncSpec::new(vec![], func);
    let cand = synthesize_from_ensures(&spec);

    let text = render_candidate(&cand);
    // `old(...)` must be resolved away in the synthesized body.
    assert!(!text.contains("old("), "old() should be resolved: {text}");
    // Field assignment uses the current state, not the pre-state.
    assert!(
        text.contains("c.v = c.v + by"),
        "missing field assign: {text}"
    );
    // Scalar output is bound as a return value.
    assert!(text.contains("out = c.v"), "missing scalar assign: {text}");
}

#[test]
fn synthesize_resolves_nested_old_arithmetic() {
    // ensures c.v == old(c.v) * 2  =>  c.v = c.v * 2
    let func = func_with(
        "f",
        vec![Param {
            name: "c".into(),
            ty: Type::Named("Counter".into()),
            mutability: ParamMutability::Immutable,
        }],
        vec![],
        vec![bin(
            BinOp::Eq,
            field("c", "v"),
            bin(BinOp::Mul, pre(field("c", "v")), lit(2)),
        )],
        vec![],
        true,
    );
    let spec = FuncSpec::new(vec![], func);
    let cand = synthesize_from_ensures(&spec);
    let text = render_candidate(&cand);
    assert!(text.contains("c.v = c.v * 2"), "missing mul assign: {text}");
}

#[test]
fn synthesize_ignores_non_equality_clause() {
    // A `>=` clause cannot be synthesized into an assignment; it is skipped.
    let func = func_with(
        "f",
        vec![Param {
            name: "x".into(),
            ty: Type::Named("i64".into()),
            mutability: ParamMutability::Immutable,
        }],
        vec![],
        vec![bin(BinOp::Ge, var("x"), lit(0))],
        vec![],
        true,
    );
    let spec = FuncSpec::new(vec![], func);
    let cand = synthesize_from_ensures(&spec);
    assert!(
        cand.stmts.is_empty(),
        "non-equality clause must yield no body"
    );
}

// ---- StaticAgent::generate / rewrite -------------------------------------

#[test]
fn generate_returns_developer_body_when_present() {
    let body = vec![Stmt::MutateState(vec![assign(
        field("c", "v"),
        AssignOp::Plain,
        bin(BinOp::Add, field("c", "v"), lit(1)),
    )])];
    let func = func_with(
        "f",
        vec![Param {
            name: "c".into(),
            ty: Type::Named("Counter".into()),
            mutability: ParamMutability::Immutable,
        }],
        vec![],
        vec![],
        body.clone(),
        false,
    );
    let spec = FuncSpec::new(vec![], func);
    let agent = StaticAgent::new();
    let cand = agent.generate(&spec).unwrap();
    assert_eq!(cand.stmts, body);
}

#[test]
fn generate_synthesizes_when_elided() {
    let func = func_with(
        "f",
        vec![Param {
            name: "c".into(),
            ty: Type::Named("Counter".into()),
            mutability: ParamMutability::Immutable,
        }],
        vec![],
        vec![bin(
            BinOp::Eq,
            field("c", "v"),
            bin(BinOp::Add, pre(field("c", "v")), lit(1)),
        )],
        vec![],
        true,
    );
    let spec = FuncSpec::new(vec![], func);
    let agent = StaticAgent::new();
    let cand = agent.generate(&spec).unwrap();
    assert!(!cand.stmts.is_empty());
}

#[test]
fn rewrite_fixes_broken_field_from_counter_example() {
    // Broken body: `from.balance += amount` (should be `-=`).
    let broken = Candidate {
        stmts: vec![Stmt::MutateState(vec![assign(
            field("from", "balance"),
            AssignOp::Add,
            var("amount"),
        )])],
    };
    let func = func_with(
        "transfer",
        vec![
            Param {
                name: "from".into(),
                ty: Type::Named("Wallet".into()),
                mutability: ParamMutability::Immutable,
            },
            Param {
                name: "amount".into(),
                ty: Type::Named("i64".into()),
                mutability: ParamMutability::Immutable,
            },
        ],
        vec![],
        vec![bin(
            BinOp::Eq,
            field("from", "balance"),
            bin(BinOp::Sub, pre(field("from", "balance")), var("amount")),
        )],
        vec![],
        true,
    );
    let spec = FuncSpec::new(vec![], func);

    // Counter-example: pre from.balance=10, amount=3, but the wrong body yields
    // from.balance' = 13 (the `+` result) instead of the required 7.
    let mut ce = Model::new();
    ce.insert("from.balance", 10);
    ce.insert("amount", 3);
    ce.insert("from.balance'", 13);

    let agent = StaticAgent::new();
    let repaired = agent.rewrite(&spec, &broken, &ce).unwrap();
    let text = render_candidate(&repaired);
    assert!(
        text.contains("from.balance - amount"),
        "repair should subtract: {text}"
    );
    assert!(
        !text.contains("from.balance + amount"),
        "repair must not add: {text}"
    );
}

#[test]
fn rewrite_with_empty_counter_example_resynthesizes() {
    let broken = Candidate {
        stmts: vec![Stmt::MutateState(vec![assign(
            field("c", "v"),
            AssignOp::Plain,
            lit(0),
        )])],
    };
    let func = func_with(
        "f",
        vec![Param {
            name: "c".into(),
            ty: Type::Named("Counter".into()),
            mutability: ParamMutability::Immutable,
        }],
        vec![],
        vec![bin(
            BinOp::Eq,
            field("c", "v"),
            bin(BinOp::Add, pre(field("c", "v")), lit(1)),
        )],
        vec![],
        true,
    );
    let spec = FuncSpec::new(vec![], func);
    let agent = StaticAgent::new();
    let repaired = agent.rewrite(&spec, &broken, &Model::new()).unwrap();
    let text = render_candidate(&repaired);
    assert!(
        text.contains("c.v = c.v + 1"),
        "should resynthesize from contract: {text}"
    );
}

// ---- loop retry / failure limit ------------------------------------------

/// A deliberately unhelpful agent: it returns an empty body on `generate` and,
/// on every `rewrite`, appends a fresh dummy field assignment so the candidate
/// keeps changing (never triggering the static fallback) but never satisfies
/// the contract. This forces the Generate -> Verify -> Rewrite loop to run to
/// its `MAX_ITERS` retry limit and give up.
struct LoopKiller {
    n: Cell<usize>,
}

impl LoopKiller {
    fn new() -> Self {
        LoopKiller { n: Cell::new(0) }
    }
}

impl CodeAgent for LoopKiller {
    fn name(&self) -> &str {
        "loop-killer"
    }

    fn generate(&self, _spec: &FuncSpec) -> Result<Candidate, String> {
        Ok(Candidate { stmts: vec![] })
    }

    fn rewrite(
        &self,
        _spec: &FuncSpec,
        prev: &Candidate,
        _ce: &Model,
    ) -> Result<Candidate, String> {
        let k = self.n.get();
        self.n.set(k + 1);
        let mut stmts = prev.stmts.clone();
        stmts.push(Stmt::MutateState(vec![assign(
            field("s", &format!("dummy{k}")),
            AssignOp::Plain,
            lit(0),
        )]));
        Ok(Candidate { stmts })
    }
}

#[test]
fn loop_hits_retry_limit_and_gives_up() {
    // `ensures s.v == 0` on an elided function; the LoopKiller can never satisfy
    // it, so `transpile_func` must terminate at its limit without verifying.
    let func = func_with(
        "stuck",
        vec![Param {
            name: "s".into(),
            ty: Type::Named("S".into()),
            mutability: ParamMutability::Immutable,
        }],
        vec![],
        vec![bin(BinOp::Eq, field("s", "v"), lit(0))],
        vec![],
        true,
    );
    let module = Module {
        attributes: vec![],
        name: "M".to_string(),
        items: vec![Item::Func(func)],
    };

    let outcome = transpile_func(&module, 0, &LoopKiller::new()).unwrap();
    // The loop must terminate and report failure...
    assert!(!outcome.verified, "LoopKiller agent must never verify");
    // ...after retrying (not on the very first step) but without exceeding the
    // configured retry limit.
    assert!(outcome.iterations.len() >= 2, "expected multiple retries");
    assert!(
        outcome.iterations.len() <= 8,
        "loop must respect its retry limit, got {}",
        outcome.iterations.len()
    );
}

// ---- loop on parsed modules ------------------------------------------------

const BANK: &str = r#"
    module Bank {
        invariant Wallet { balance >= 0 }
        func deposit(w: Wallet, amount: PositiveInt)
            ensures w.balance == old(w.balance) + amount
        ;
    }
"#;

#[test]
fn transpile_func_synthesizes_and_verifies_deposit() {
    let modules = parse(BANK).unwrap();
    let agent = StaticAgent::new();
    let outcome = transpile_func(&modules[0], 1, &agent).unwrap();
    assert_eq!(outcome.func_name, "deposit");
    assert!(outcome.verified);
    assert_eq!(outcome.agent, "static-synth");
    assert_eq!(outcome.iterations.len(), 1);
    assert_eq!(outcome.iterations[0].action, "generate");
    assert!(outcome.result.all_passed);
}

#[test]
fn transpile_func_refuses_non_function_item() {
    let modules = parse(BANK).unwrap();
    assert!(transpile_func(&modules[0], 0, &StaticAgent::new()).is_err());
}

#[test]
fn transpile_module_covers_every_function() {
    let modules = parse(BANK).unwrap();
    let outcomes = transpile_module(&modules[0], &StaticAgent::new()).unwrap();
    assert_eq!(outcomes.len(), 1);
    assert!(outcomes[0].verified);
}

#[test]
fn render_candidate_of_synthesized_body() {
    let src = r#"
        module M {
            func noop(w: Wallet, amount: PositiveInt)
                ensures w.balance == old(w.balance) + amount
            ;
        }
    "#;
    let modules = parse(src).unwrap();
    let outcomes = transpile_module(&modules[0], &StaticAgent::new()).unwrap();
    let text = render_candidate(&outcomes[0].final_candidate);
    assert!(text.contains("w.balance"));
    assert_eq!(text, "mutate state {\n    w.balance = w.balance + amount;\n}\n");
}

#[test]
fn broken_body_is_repaired_by_the_loop() {
    let src = r#"
        module Bank {
            invariant Wallet { balance >= 0 }
            func withdraw(w: Wallet, amount: PositiveInt)
                requires w.balance >= amount
                ensures w.balance == old(w.balance) - amount
            {
                mutate state {
                    w.balance += amount;
                }
            }
        }
    "#;
    let modules = parse(src).unwrap();
    let outcome = transpile_func(&modules[0], 1, &StaticAgent::new()).unwrap();
    assert!(outcome.iterations.len() >= 2, "expected generate + rewrite steps");
    assert!(!outcome.iterations[0].passed, "first candidate should fail");
    assert!(outcome.iterations[0].counterexample.is_some());
    assert!(outcome.verified, "loop must end in a verified implementation");
    let text = render_candidate(&outcome.final_candidate);
    assert!(text.contains("w.balance = w.balance - amount"), "{text}");
}

#[test]
fn func_spec_and_empty_candidate() {
    let modules = parse("module M { func f(x: T) ; }").unwrap();
    let m = &modules[0];
    if let Item::Func(func) = &m.items[0] {
        let spec = FuncSpec::new(m.attributes.clone(), func.clone());
        assert_eq!(spec.func.name, "f");
    } else {
        panic!("expected a function");
    }
    let empty = Candidate { stmts: vec![] };
    assert!(empty.stmts.is_empty());
    assert_eq!(StaticAgent::new().name(), "static-synth");
}

#[test]
fn synthesize_transfer_from_ensures() {
    let src = r#"
        module M {
            func transfer(w: Wallet, amount: PositiveInt)
                ensures w.balance == old(w.balance) - amount
            ;
        }
    "#;
    let modules = parse(src).unwrap();
    let m = &modules[0];
    if let Item::Func(func) = &m.items[0] {
        let spec = FuncSpec::new(m.attributes.clone(), func.clone());
        let candidate = synthesize_from_ensures(&spec);
        assert!(!candidate.stmts.is_empty());
        assert_eq!(render_candidate(&candidate), "mutate state {\n    w.balance = w.balance - amount;\n}\n");
    } else {
        panic!("expected a function");
    }
}

#[test]
fn render_candidate_nested_blocks() {
    let stmts = vec![
        Stmt::Let(LetBinding { name: "t".into(), ty: Some(Type::Generic("Vec".into(), vec![Type::Named("Int".into())])), value: lit(1) }),
        Stmt::If(IfStmt {
            condition: bin(BinOp::Gt, var("x"), lit(0)),
            then_body: vec![Stmt::Return(Some(var("x")))],
            else_body: Some(vec![Stmt::Return(None)]),
        }),
        Stmt::Match(MatchStmt {
            scrutinee: var("x"),
            arms: vec![MatchArm { pattern: Pattern::Wildcard, body: vec![Stmt::Assign(assign(var("y"), AssignOp::Sub, lit(2)))] }],
        }),
    ];
    let text = render_candidate(&Candidate { stmts });
    assert_eq!(
        text,
        "let t: Vec<Int> = 1;\nif x > 0 {\n    return x;\n} else {\n    return;\n}\nmatch x {\n    _ => {\n    y -= 2;\n    }\n}\n"
    );
}

#[test]
fn rewrite_keeps_agreeing_fields() {
    // Only `a.x` disagrees with its clause; `a.y` keeps its assignment.
    let func = func_with(
        "f",
        vec![],
        vec![],
        vec![
            bin(BinOp::Eq, field("a", "x"), lit(1)),
            bin(BinOp::Eq, field("a", "y"), lit(2)),
        ],
        vec![],
        true,
    );
    let spec = FuncSpec::new(vec![], func);
    let prev = Candidate {
        stmts: vec![Stmt::MutateState(vec![
            assign(field("a", "x"), AssignOp::Add, lit(5)),
            assign(field("a", "y"), AssignOp::Add, lit(2)),
        ])],
    };
    let mut ce = Model::new();
    ce.insert("a.x'", 5);
    ce.insert("a.y'", 2);
    let repaired = StaticAgent::new().rewrite(&spec, &prev, &ce).unwrap();
    let text = render_candidate(&repaired);
    assert_eq!(text, "mutate state {\n    a.x = 1;\n    a.y += 2;\n}\n");
}

#[test]
fn developer_body_that_verifies_ends_the_loop_at_once() {
    let src = r#"
        module Bank {
            invariant Wallet { balance >= 0 }
            func withdraw(w: Wallet, amount: PositiveInt)
                requires w.balance >= amount
                ensures w.balance == old(w.balance) - amount
            {
                mutate state {
                    w.balance -= amount;
                }
            }
        }
    "#;
    let modules = parse(src).unwrap();
    let outcome = transpile_func(&modules[0], 1, &StaticAgent::new()).unwrap();
    assert!(outcome.verified);
    assert_eq!(outcome.iterations.len(), 1);
    assert!(outcome.iterations[0].passed);
    let text = render_candidate(&outcome.final_candidate);
    assert_eq!(text, "mutate state {\n    w.balance -= amount;\n}\n");
}
