//! Tests of Rust code generation: signature analysis, function rendering,
//! struct collection, the eject hatch and whole programs.

use telos::agent::transpile_module;
use telos::ast::{Arg, Assign, AssignOp, Attribute, BinOp, Expr, Func, IfStmt, Item, Module, Param, ParamMutability, Stmt, Type};
use telos::codegen::{analyze_func, collect_types, generate_program, render_func, render_rust_ejected, InputParam, TypeFields};
use telos::parser::parse;
use telos::span::Span;
use telos::static_agent::StaticAgent;

fn t_var(v: &str) -> Expr {
    Expr::Var(v.to_string())
}
fn t_int(n: i64) -> Expr {
    Expr::Int(n)
}
fn t_field(base: &str, f: &str) -> Expr {
    Expr::Field { base: base.to_string(), field: f.to_string() }
}
fn t_old(e: Expr) -> Expr {
    Expr::Old(Box::new(e))
}
fn t_bin(op: BinOp, l: Expr, r: Expr) -> Expr {
    Expr::Bin { op, lhs: Box::new(l), rhs: Box::new(r) }
}
fn t_assign(target: Expr, op: AssignOp, value: Expr) -> Assign {
    Assign { target, op, value }
}
fn t_param(name: &str, ty: &str) -> Param {
    Param { name: name.into(), ty: Type::Named(ty.into()), mutability: ParamMutability::Immutable }
}
fn t_func(name: &str, params: Vec<Param>, requires: Vec<Expr>, ensures: Vec<Expr>, body: Vec<Stmt>) -> Func {
    Func {
        attributes: vec![],
        name: name.to_string(),
        params,
        return_ty: None,
        requires,
        ensures,
        body,
        elided: false,
        span: Span::default(),
        requires_spans: vec![],
        ensures_spans: vec![],
    }
}

fn counter_types() -> TypeFields {
    vec![("Counter".to_string(), vec!["v".to_string()])]
}

fn fields_of<'a>(types: &'a TypeFields, t: &str) -> Option<&'a Vec<String>> {
    types.iter().find(|(n, _)| n == t).map(|(_, f)| f)
}

// ---- analyze_func ----

#[test]
fn analyze_scalar_param() {
    let f = t_func("f", vec![t_param("x", "i64")], vec![], vec![], vec![]);
    let a = analyze_func(&f, &f.body, &vec![]);
    assert!(matches!(a.inputs[0], InputParam::Scalar { .. }));
    assert!(a.scalar_out.is_none());
}

#[test]
fn analyze_struct_param_mutated_is_borrow_mut() {
    let f = t_func(
        "f",
        vec![t_param("c", "Counter")],
        vec![],
        vec![],
        vec![Stmt::MutateState(vec![t_assign(t_field("c", "v"), AssignOp::Plain, t_int(0))])],
    );
    let a = analyze_func(&f, &f.body, &counter_types());
    match &a.inputs[0] {
        InputParam::Struct { mutated, .. } => assert!(*mutated),
        other => panic!("expected struct param, got {other:?}"),
    }
}

#[test]
fn analyze_struct_param_unmutated_is_borrow_ref() {
    let f = t_func("f", vec![t_param("c", "Counter")], vec![], vec![], vec![]);
    let a = analyze_func(&f, &f.body, &counter_types());
    match &a.inputs[0] {
        InputParam::Struct { mutated, .. } => assert!(!*mutated),
        other => panic!("expected struct param, got {other:?}"),
    }
}

#[test]
fn analyze_scalar_return_value() {
    let f = t_func(
        "f",
        vec![t_param("c", "Counter"), t_param("result", "i64")],
        vec![],
        vec![],
        vec![Stmt::Assign(t_assign(t_var("result"), AssignOp::Plain, t_bin(BinOp::Add, t_field("c", "v"), t_int(1))))],
    );
    let a = analyze_func(&f, &f.body, &counter_types());
    assert_eq!(a.inputs.len(), 1);
    assert_eq!(a.scalar_out.as_deref(), Some("result"));
}

// ---- render_func ----

#[test]
fn render_func_emits_contract_doc_comments() {
    let f = t_func(
        "transfer",
        vec![t_param("c", "Counter")],
        vec![t_bin(BinOp::Ge, t_field("c", "v"), t_int(0))],
        vec![t_bin(BinOp::Eq, t_field("c", "v"), t_bin(BinOp::Add, t_old(t_field("c", "v")), t_int(1)))],
        vec![Stmt::MutateState(vec![t_assign(t_field("c", "v"), AssignOp::Plain, t_bin(BinOp::Add, t_field("c", "v"), t_int(1)))])],
    );
    let out = render_func(&f, &f.body, &counter_types());
    assert!(out.contains("/// requires:"), "missing requires doc: {out}");
    assert!(out.contains("/// ensures:"), "missing ensures doc: {out}");
    assert!(out.contains("old(c.v)"), "old() lost in doc: {out}");
    assert!(out.contains("c: &mut Counter"), "expected &mut param: {out}");
}

#[test]
fn render_func_emits_scalar_return() {
    let f = t_func(
        "f",
        vec![t_param("c", "Counter"), t_param("result", "i64")],
        vec![],
        vec![],
        vec![Stmt::Assign(t_assign(t_var("result"), AssignOp::Plain, t_bin(BinOp::Add, t_field("c", "v"), t_int(1))))],
    );
    let out = render_func(&f, &f.body, &counter_types());
    assert!(out.contains("-> i64"), "missing return type: {out}");
    assert!(out.contains("let result ="), "missing return binding: {out}");
    assert!(out.lines().any(|l| l.trim() == "result"), "missing return expression: {out}");
}

#[test]
fn render_func_exact_text() {
    let f = t_func(
        "bump",
        vec![t_param("c", "Counter"), t_param("by", "Int")],
        vec![t_bin(BinOp::Ge, t_var("by"), t_int(0))],
        vec![t_bin(BinOp::Eq, t_field("c", "v"), t_bin(BinOp::Add, t_old(t_field("c", "v")), t_var("by")))],
        vec![Stmt::MutateState(vec![t_assign(t_field("c", "v"), AssignOp::Add, t_var("by"))])],
    );
    let out = render_func(&f, &f.body, &counter_types());
    assert_eq!(
        out,
        "/// bump(c: Counter, by: Int)\n/// requires: by >= 0\n/// ensures:  c.v == old(c.v) + by\npub fn bump(c: &mut Counter, by: i64) {\n    c.v += by;\n}\n"
    );
}

#[test]
fn render_func_nested_if_indentation() {
    let f = t_func(
        "g",
        vec![t_param("x", "Int")],
        vec![],
        vec![],
        vec![Stmt::If(IfStmt {
            condition: t_bin(BinOp::Gt, t_var("x"), t_int(0)),
            then_body: vec![Stmt::Return(Some(t_var("x")))],
            else_body: None,
        })],
    );
    let out = render_func(&f, &f.body, &vec![]);
    assert!(out.contains("    if x > 0 {\n        return x;\n    }\n"), "{out}");
}

// ---- collect_types ----

#[test]
fn collect_types_gathers_struct_fields() {
    let module = Module {
        attributes: vec![],
        name: "M".into(),
        items: vec![Item::Func(t_func(
            "f",
            vec![t_param("c", "Counter")],
            vec![t_bin(BinOp::Ge, t_field("c", "v"), t_int(0))],
            vec![],
            vec![Stmt::MutateState(vec![t_assign(t_field("c", "v"), AssignOp::Plain, t_int(0))])],
        ))],
    };
    let mut types: TypeFields = vec![];
    collect_types(&module, &mut types);
    assert_eq!(fields_of(&types, "Counter").map(|s| s.len()), Some(1));
    assert!(fields_of(&types, "Counter").unwrap().contains(&"v".to_string()));
}

#[test]
fn collect_types_sorts_and_repoints_fields() {
    let module = Module {
        attributes: vec![],
        name: "M".into(),
        items: vec![Item::Func(t_func(
            "f",
            vec![t_param("a", "Acct")],
            vec![t_bin(BinOp::Ge, t_field("a", "z"), t_field("other", "k"))],
            vec![t_bin(BinOp::Eq, t_field("a", "b"), t_old(t_field("a", "z")))],
            vec![],
        ))],
    };
    let mut types: TypeFields = vec![];
    collect_types(&module, &mut types);
    assert_eq!(fields_of(&types, "Acct"), Some(&vec!["b".to_string(), "z".to_string()]));
    assert_eq!(fields_of(&types, "other"), Some(&vec!["k".to_string()]));
    assert!(fields_of(&types, "a").is_none());
}

// ---- eject hatch ----

#[test]
fn eject_renders_opaque_block_and_guard() {
    let mut f = t_func(
        "withdraw",
        vec![t_param("b", "Balance")],
        vec![t_bin(BinOp::Ge, t_field("b", "amount"), t_int(0))],
        vec![t_bin(BinOp::Eq, t_field("b", "amount"), t_bin(BinOp::Sub, t_old(t_field("b", "amount")), t_int(1)))],
        vec![Stmt::MutateState(vec![t_assign(t_field("b", "amount"), AssignOp::Plain, t_int(0))])],
    );
    f.attributes.push(Attribute { name: "eject".into(), args: vec![Arg::Flag("rust".into())] });
    let types: TypeFields = vec![("Balance".to_string(), vec!["amount".to_string()])];
    let out = render_rust_ejected(&f, &f.body, &types);
    assert!(out.contains("fn withdraw_impl"), "missing opaque block: {out}");
    assert!(out.contains("pub fn withdraw"), "missing guard: {out}");
    assert!(out.contains("assert!("), "missing contract guard: {out}");
    assert!(out.contains("__old_b_amount"), "missing old snapshot: {out}");
    assert!(out.contains("    let __old_b_amount = b.amount;\n    withdraw_impl(b);\n"), "{out}");
    assert!(
        out.contains("    assert!(b.amount == __old_b_amount - 1, \"telos: postcondition violated in `withdraw`: b.amount == old(b.amount) - 1\");\n"),
        "{out}"
    );
}

// ---- generate_program ----

#[test]
fn generate_program_emits_struct_and_invariant_method() {
    let src = "module M { invariant Counter { v >= 0 } func f(c: Counter) requires c.v >= 0 { } }";
    let modules = parse(src).unwrap();
    let rust = generate_program(&modules, &[]);
    assert!(rust.contains("pub struct Counter"));
    assert!(rust.contains("pub fn satisfies_invariants"));
    assert!(rust.contains("pub fn f"));
    assert!(rust.contains("impl Counter {\n    pub fn satisfies_invariants(&self) -> bool {\n        self.v >= 0\n    }\n}\n"));
}

#[test]
fn generate_program_uses_verified_bodies() {
    let src = r#"
        module Bank {
            invariant Wallet { balance >= 0 }
            func deposit(w: Wallet, amount: PositiveInt)
                ensures w.balance == old(w.balance) + amount
            ;
        }
    "#;
    let modules = parse(src).unwrap();
    let agent = StaticAgent::new();
    let outcomes: Vec<_> = modules.iter().flat_map(|m| transpile_module(m, &agent).unwrap()).collect();
    let lib_text = generate_program(&modules, &outcomes);
    assert!(lib_text.contains("pub struct Wallet"));
    assert!(lib_text.contains("pub fn deposit"));
    assert!(lib_text.contains("pub fn deposit(w: &mut Wallet, amount: i64) {\n    w.balance = w.balance + amount;\n}\n"), "{lib_text}");
    assert!(lib_text.contains("// ===== module Bank (target: rust) =====\n"));
    assert!(lib_text.contains("#![allow(dead_code)]\n"));
}

#[test]
fn generate_program_repairs_broken_transfer() {
    let src = r#"
        module Bank {
            invariant Wallet { balance >= 0 }
            func transfer(from: Wallet, to: Wallet, amount: PositiveInt)
                requires from.balance >= amount
                ensures from.balance == old(from.balance) - amount
                ensures to.balance == old(to.balance) + amount
            {
                mutate state {
                    from.balance -= amount;
                    to.balance += amount;
                }
            }
        }
    "#;
    let modules = parse(src).unwrap();
    let agent = StaticAgent::new();
    let outcomes: Vec<_> = modules.iter().flat_map(|m| transpile_module(m, &agent).unwrap()).collect();
    assert!(outcomes[0].verified);
    let rust = generate_program(&modules, &outcomes);
    assert!(rust.contains("pub fn transfer(from: &mut Wallet, to: &mut Wallet, amount: i64)"));
    assert!(rust.contains("from.balance -= amount"));
    assert!(rust.contains("to.balance += amount"));
    assert!(rust.contains("ensures:  from.balance == old(from.balance) - amount"));
}

#[test]
fn go_exported_capitalises() {
    assert_eq!(telos::go::exported("enqueue"), "Enqueue");
    assert_eq!(telos::go::exported("pending"), "Pending");
    assert_eq!(telos::go::exported("Queue"), "Queue");
}

#[test]
fn go_exported_edge_cases() {
    assert_eq!(telos::go::exported(""), "");
    assert_eq!(telos::go::exported("_x"), "_x");
    assert_eq!(telos::go::exported("a"), "A");
}

#[test]
fn generate_program_declares_each_struct_once() {
    let src = "module A { func f(c: Counter) requires c.v >= 0 { } } module B { func g(d: Counter) requires d.v >= 0 { } }";
    let modules = telos::parser::parse(src).unwrap();
    let rust = generate_program(&modules, &[]);
    assert_eq!(rust.matches("pub struct Counter").count(), 1);
    assert!(rust.contains("pub fn f"));
    assert!(rust.contains("pub fn g"));
}
