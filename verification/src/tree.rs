//! Structural copies and comparisons of syntax trees.

use vstd::prelude::*;
use crate::ast::{
    Type, Expr, CallExpr, MethodCallExpr, IndexExpr, IfExpr, MatchExpr, ExprMatchArm, ForallExpr,
    AggregateExpr, Pattern, Stmt, Assign, LetBinding, IfStmt, MatchStmt, MatchArm, copy_type,
};
use crate::text::{copy_string, str_eq};

verus! {

/// An expression built only from literals, names, fields, `old`, negation
/// and binary operators: one without nested lists, whose copies are equal
/// to it.
pub open spec fn plain(e: Expr) -> bool
    decreases e,
{
    match e {
        Expr::Int(_) => true,
        Expr::Var(_) => true,
        Expr::Field { .. } => true,
        Expr::Old(x) => plain(*x),
        Expr::Unary { expr, .. } => plain(*expr),
        Expr::Bin { lhs, rhs, .. } => plain(*lhs) && plain(*rhs),
        _ => false,
    }
}

/// Two types have the same structure and names.
pub open spec fn same_type(a: Type, b: Type) -> bool
    decreases a, 0nat, 0int,
{
    match (a, b) {
        (Type::Named(x), Type::Named(y)) => x@ == y@,
        (Type::Generic(x, xs), Type::Generic(y, ys)) => x@ == y@ && xs@.len() == ys@.len() && same_types_from(xs@, ys@, 0),
        (Type::Tuple(xs), Type::Tuple(ys)) => xs@.len() == ys@.len() && same_types_from(xs@, ys@, 0),
        (Type::Array(x, n), Type::Array(y, m)) => n == m && same_type(*x, *y),
        (Type::Slice(x), Type::Slice(y)) => same_type(*x, *y),
        _ => false,
    }
}

/// The types from index `i` on are pairwise the same.
pub open spec fn same_types_from(xs: Seq<Type>, ys: Seq<Type>, i: int) -> bool
    decreases xs, 1nat, xs.len() - i,
{
    if i < 0 || i >= xs.len() {
        true
    } else {
        same_type(xs[i], ys[i]) && same_types_from(xs, ys, i + 1)
    }
}

/// Two patterns have the same structure, names and literals.
pub open spec fn same_pattern(a: Pattern, b: Pattern) -> bool
    decreases a, 0nat, 0int,
{
    match (a, b) {
        (Pattern::Literal(x), Pattern::Literal(y)) => x == y,
        (Pattern::Var(x), Pattern::Var(y)) => x@ == y@,
        (Pattern::Constructor(n1, f1), Pattern::Constructor(n2, f2)) =>
            n1@ == n2@ && f1@.len() == f2@.len() && same_patterns_from(f1@, f2@, 0),
        (Pattern::Wildcard, Pattern::Wildcard) => true,
        _ => false,
    }
}

pub open spec fn same_patterns_from(xs: Seq<Pattern>, ys: Seq<Pattern>, i: int) -> bool
    decreases xs, 1nat, xs.len() - i,
{
    if i < 0 || i >= xs.len() {
        true
    } else {
        same_pattern(xs[i], ys[i]) && same_patterns_from(xs, ys, i + 1)
    }
}

/// Two expressions have the same structure, names, operators and literals.
pub open spec fn same_expr(a: Expr, b: Expr) -> bool
    decreases a, 0nat, 0int,
{
    match (a, b) {
        (Expr::Int(x), Expr::Int(y)) => x == y,
        (Expr::Var(x), Expr::Var(y)) => x@ == y@,
        (Expr::Field { base: b1, field: f1 }, Expr::Field { base: b2, field: f2 }) => b1@ == b2@ && f1@ == f2@,
        (Expr::Old(x), Expr::Old(y)) => same_expr(*x, *y),
        (Expr::Unary { op: o1, expr: x }, Expr::Unary { op: o2, expr: y }) => o1 == o2 && same_expr(*x, *y),
        (Expr::Bin { op: o1, lhs: l1, rhs: r1 }, Expr::Bin { op: o2, lhs: l2, rhs: r2 }) =>
            o1 == o2 && same_expr(*l1, *l2) && same_expr(*r1, *r2),
        (Expr::Call(c1), Expr::Call(c2)) =>
            c1.func@ == c2.func@ && c1.args@.len() == c2.args@.len() && same_exprs_from(c1.args@, c2.args@, 0),
        (Expr::MethodCall(m1), Expr::MethodCall(m2)) =>
            same_expr(*m1.receiver, *m2.receiver) && m1.method@ == m2.method@
                && m1.args@.len() == m2.args@.len() && same_exprs_from(m1.args@, m2.args@, 0),
        (Expr::Index(i1), Expr::Index(i2)) => same_expr(*i1.receiver, *i2.receiver) && same_expr(*i1.index, *i2.index),
        (Expr::If(i1), Expr::If(i2)) =>
            same_expr(*i1.condition, *i2.condition) && same_expr(*i1.then_expr, *i2.then_expr)
                && same_expr(*i1.else_expr, *i2.else_expr),
        (Expr::Match(m1), Expr::Match(m2)) =>
            same_expr(*m1.scrutinee, *m2.scrutinee) && m1.arms@.len() == m2.arms@.len() && same_earms_from(m1.arms@, m2.arms@, 0),
        (Expr::Try(x), Expr::Try(y)) => same_expr(*x, *y),
        (Expr::Forall(f1), Expr::Forall(f2)) =>
            f1.var@ == f2.var@ && same_type(f1.var_ty, f2.var_ty)
                && match (f1.domain, f2.domain) {
                    (Some(x), Some(y)) => same_expr(*x, *y),
                    (None, None) => true,
                    _ => false,
                }
                && same_expr(*f1.body, *f2.body),
        (Expr::Aggregate(a1), Expr::Aggregate(a2)) =>
            a1.op == a2.op && a1.args@.len() == a2.args@.len() && same_exprs_from(a1.args@, a2.args@, 0),
        (Expr::Range { lo: l1, hi: h1 }, Expr::Range { lo: l2, hi: h2 }) => same_expr(*l1, *l2) && same_expr(*h1, *h2),
        _ => false,
    }
}

pub open spec fn same_exprs_from(xs: Seq<Expr>, ys: Seq<Expr>, i: int) -> bool
    decreases xs, 1nat, xs.len() - i,
{
    if i < 0 || i >= xs.len() {
        true
    } else {
        same_expr(xs[i], ys[i]) && same_exprs_from(xs, ys, i + 1)
    }
}

pub open spec fn same_earms_from(xs: Seq<ExprMatchArm>, ys: Seq<ExprMatchArm>, i: int) -> bool
    decreases xs, 1nat, xs.len() - i,
{
    if i < 0 || i >= xs.len() {
        true
    } else {
        same_pattern(xs[i].pattern, ys[i].pattern) && same_expr(xs[i].expr, ys[i].expr) && same_earms_from(xs, ys, i + 1)
    }
}

/// Two lists of expressions are pairwise the same.
pub open spec fn same_exprs(xs: Seq<Expr>, ys: Seq<Expr>) -> bool {
    xs.len() == ys.len() && same_exprs_from(xs, ys, 0)
}

pub open spec fn same_assign(a: Assign, b: Assign) -> bool {
    a.op == b.op && same_expr(a.target, b.target) && same_expr(a.value, b.value)
}

pub open spec fn same_assigns_from(xs: Seq<Assign>, ys: Seq<Assign>, i: int) -> bool
    decreases xs.len() - i,
{
    if i < 0 || i >= xs.len() {
        true
    } else {
        same_assign(xs[i], ys[i]) && same_assigns_from(xs, ys, i + 1)
    }
}

/// Two statements have the same structure, names, operators and literals.
pub open spec fn same_stmt(a: Stmt, b: Stmt) -> bool
    decreases a, 0nat, 0int,
{
    match (a, b) {
        (Stmt::MutateState(x), Stmt::MutateState(y)) => x@.len() == y@.len() && same_assigns_from(x@, y@, 0),
        (Stmt::Assign(x), Stmt::Assign(y)) => same_assign(x, y),
        (Stmt::Let(x), Stmt::Let(y)) =>
            x.name@ == y.name@
                && match (x.ty, y.ty) {
                    (Some(s), Some(t)) => same_type(s, t),
                    (None, None) => true,
                    _ => false,
                }
                && same_expr(x.value, y.value),
        (Stmt::If(x), Stmt::If(y)) =>
            same_expr(x.condition, y.condition)
                && x.then_body@.len() == y.then_body@.len() && same_stmts_from(x.then_body@, y.then_body@, 0)
                && match (x.else_body, y.else_body) {
                    (Some(s), Some(t)) => s@.len() == t@.len() && same_stmts_from(s@, t@, 0),
                    (None, None) => true,
                    _ => false,
                },
        (Stmt::Match(x), Stmt::Match(y)) =>
            same_expr(x.scrutinee, y.scrutinee) && x.arms@.len() == y.arms@.len() && same_sarms_from(x.arms@, y.arms@, 0),
        (Stmt::Return(x), Stmt::Return(y)) => match (x, y) {
            (Some(e), Some(f)) => same_expr(e, f),
            (None, None) => true,
            _ => false,
        },
        _ => false,
    }
}

pub open spec fn same_stmts_from(xs: Seq<Stmt>, ys: Seq<Stmt>, i: int) -> bool
    decreases xs, 1nat, xs.len() - i,
{
    if i < 0 || i >= xs.len() {
        true
    } else {
        same_stmt(xs[i], ys[i]) && same_stmts_from(xs, ys, i + 1)
    }
}

pub open spec fn same_sarms_from(xs: Seq<MatchArm>, ys: Seq<MatchArm>, i: int) -> bool
    decreases xs, 1nat, xs.len() - i,
{
    if i < 0 || i >= xs.len() {
        true
    } else {
        same_pattern(xs[i].pattern, ys[i].pattern) && xs[i].body@.len() == ys[i].body@.len()
            && same_stmts_from(xs[i].body@, ys[i].body@, 0) && same_sarms_from(xs, ys, i + 1)
    }
}

/// Two lists of statements are pairwise the same.
pub open spec fn same_stmts(xs: Seq<Stmt>, ys: Seq<Stmt>) -> bool {
    xs.len() == ys.len() && same_stmts_from(xs, ys, 0)
}

/// Pairwise sameness from index `i` on, from its pointwise form.
pub proof fn lemma_same_types_from(xs: Seq<Type>, ys: Seq<Type>, i: int)
    requires
        0 <= i <= xs.len(),
        forall|j: int| i <= j < xs.len() ==> #[trigger] pair_types(xs, ys, j),
    ensures
        same_types_from(xs, ys, i),
    decreases xs.len() - i,
{
    if i < xs.len() {
        assert(pair_types(xs, ys, i));
        lemma_same_types_from(xs, ys, i + 1);
    }
}

pub open spec fn pair_types(xs: Seq<Type>, ys: Seq<Type>, j: int) -> bool {
    same_type(xs[j], ys[j])
}

/// Pairwise sameness from index `i` on, from its pointwise form.
pub proof fn lemma_same_patterns_from(xs: Seq<Pattern>, ys: Seq<Pattern>, i: int)
    requires
        0 <= i <= xs.len(),
        forall|j: int| i <= j < xs.len() ==> #[trigger] pair_patterns(xs, ys, j),
    ensures
        same_patterns_from(xs, ys, i),
    decreases xs.len() - i,
{
    if i < xs.len() {
        assert(pair_patterns(xs, ys, i));
        lemma_same_patterns_from(xs, ys, i + 1);
    }
}

pub open spec fn pair_patterns(xs: Seq<Pattern>, ys: Seq<Pattern>, j: int) -> bool {
    same_pattern(xs[j], ys[j])
}

/// Pairwise sameness from index `i` on, from its pointwise form.
pub proof fn lemma_same_exprs_from(xs: Seq<Expr>, ys: Seq<Expr>, i: int)
    requires
        0 <= i <= xs.len(),
        forall|j: int| i <= j < xs.len() ==> #[trigger] pair_exprs(xs, ys, j),
    ensures
        same_exprs_from(xs, ys, i),
    decreases xs.len() - i,
{
    if i < xs.len() {
        assert(pair_exprs(xs, ys, i));
        lemma_same_exprs_from(xs, ys, i + 1);
    }
}

pub open spec fn pair_exprs(xs: Seq<Expr>, ys: Seq<Expr>, j: int) -> bool {
    same_expr(xs[j], ys[j])
}

/// Pairwise sameness from index `i` on, from its pointwise form.
pub proof fn lemma_same_earms_from(xs: Seq<ExprMatchArm>, ys: Seq<ExprMatchArm>, i: int)
    requires
        0 <= i <= xs.len(),
        forall|j: int| i <= j < xs.len() ==> #[trigger] pair_earms(xs, ys, j),
    ensures
        same_earms_from(xs, ys, i),
    decreases xs.len() - i,
{
    if i < xs.len() {
        assert(pair_earms(xs, ys, i));
        lemma_same_earms_from(xs, ys, i + 1);
    }
}

pub open spec fn pair_earms(xs: Seq<ExprMatchArm>, ys: Seq<ExprMatchArm>, j: int) -> bool {
    same_pattern(xs[j].pattern, ys[j].pattern) && same_expr(xs[j].expr, ys[j].expr)
}

/// Pairwise sameness from index `i` on, from its pointwise form.
pub proof fn lemma_same_assigns_from(xs: Seq<Assign>, ys: Seq<Assign>, i: int)
    requires
        0 <= i <= xs.len(),
        forall|j: int| i <= j < xs.len() ==> #[trigger] pair_assigns(xs, ys, j),
    ensures
        same_assigns_from(xs, ys, i),
    decreases xs.len() - i,
{
    if i < xs.len() {
        assert(pair_assigns(xs, ys, i));
        lemma_same_assigns_from(xs, ys, i + 1);
    }
}

pub open spec fn pair_assigns(xs: Seq<Assign>, ys: Seq<Assign>, j: int) -> bool {
    same_assign(xs[j], ys[j])
}

/// Pairwise sameness from index `i` on, from its pointwise form.
pub proof fn lemma_same_stmts_from(xs: Seq<Stmt>, ys: Seq<Stmt>, i: int)
    requires
        0 <= i <= xs.len(),
        forall|j: int| i <= j < xs.len() ==> #[trigger] pair_stmts(xs, ys, j),
    ensures
        same_stmts_from(xs, ys, i),
    decreases xs.len() - i,
{
    if i < xs.len() {
        assert(pair_stmts(xs, ys, i));
        lemma_same_stmts_from(xs, ys, i + 1);
    }
}

pub open spec fn pair_stmts(xs: Seq<Stmt>, ys: Seq<Stmt>, j: int) -> bool {
    same_stmt(xs[j], ys[j])
}

/// Pairwise sameness from index `i` on, from its pointwise form.
pub proof fn lemma_same_sarms_from(xs: Seq<MatchArm>, ys: Seq<MatchArm>, i: int)
    requires
        0 <= i <= xs.len(),
        forall|j: int| i <= j < xs.len() ==> #[trigger] pair_sarms(xs, ys, j),
    ensures
        same_sarms_from(xs, ys, i),
    decreases xs.len() - i,
{
    if i < xs.len() {
        assert(pair_sarms(xs, ys, i));
        lemma_same_sarms_from(xs, ys, i + 1);
    }
}

pub open spec fn pair_sarms(xs: Seq<MatchArm>, ys: Seq<MatchArm>, j: int) -> bool {
    same_pattern(xs[j].pattern, ys[j].pattern) && xs[j].body@.len() == ys[j].body@.len() && same_stmts_from(xs[j].body@, ys[j].body@, 0)
}

/// A structural copy of an expression.
pub fn copy_expr(e: &Expr) -> (r: Expr)
    ensures
        plain(*e) ==> r == *e,
        same_expr(r, *e),
    decreases e, 0nat,
{
    match e {
        Expr::Int(n) => Expr::Int(*n),
        Expr::Var(v) => Expr::Var(copy_string(v)),
        Expr::Field { base, field } => Expr::Field { base: copy_string(base), field: copy_string(field) },
        Expr::Old(x) => Expr::Old(Box::new(copy_expr(x))),
        Expr::Unary { op, expr } => Expr::Unary { op: *op, expr: Box::new(copy_expr(expr)) },
        Expr::Bin { op, lhs, rhs } => Expr::Bin {
            op: *op,
            lhs: Box::new(copy_expr(lhs)),
            rhs: Box::new(copy_expr(rhs)),
        },
        Expr::Call(c) => Expr::Call(CallExpr { func: copy_string(&c.func), args: copy_exprs(&c.args) }),
        Expr::MethodCall(m) => Expr::MethodCall(MethodCallExpr {
            receiver: Box::new(copy_expr(&m.receiver)),
            method: copy_string(&m.method),
            args: copy_exprs(&m.args),
        }),
        Expr::Index(ix) => Expr::Index(IndexExpr {
            receiver: Box::new(copy_expr(&ix.receiver)),
            index: Box::new(copy_expr(&ix.index)),
        }),
        Expr::If(i) => Expr::If(IfExpr {
            condition: Box::new(copy_expr(&i.condition)),
            then_expr: Box::new(copy_expr(&i.then_expr)),
            else_expr: Box::new(copy_expr(&i.else_expr)),
        }),
        Expr::Match(m) => Expr::Match(MatchExpr {
            scrutinee: Box::new(copy_expr(&m.scrutinee)),
            arms: copy_expr_arms(&m.arms),
        }),
        Expr::Try(x) => Expr::Try(Box::new(copy_expr(x))),
        Expr::Forall(f) => Expr::Forall(ForallExpr {
            var: copy_string(&f.var),
            var_ty: copy_type(&f.var_ty),
            domain: match &f.domain {
                Some(d) => Some(Box::new(copy_expr(d))),
                None => None,
            },
            body: Box::new(copy_expr(&f.body)),
        }),
        Expr::Aggregate(a) => Expr::Aggregate(AggregateExpr { op: a.op, args: copy_exprs(&a.args) }),
        Expr::Range { lo, hi } => Expr::Range { lo: Box::new(copy_expr(lo)), hi: Box::new(copy_expr(hi)) },
    }
}

/// Structural copies of a list of expressions.
pub fn copy_exprs(v: &Vec<Expr>) -> (r: Vec<Expr>)
    ensures
        same_exprs_from(r@, v@, 0),
        r@.len() == v@.len(),
    decreases v, 1nat,
{
    let mut out: Vec<Expr> = Vec::new();
    let mut i: usize = 0;
    while i < v.len()
        invariant
            i <= v@.len(),
            forall|j: int| 0 <= j < i ==> #[trigger] pair_exprs(out@, v@, j),
            out@.len() == i,
        decreases v@.len() - i,
    {
        proof {
            assert(decreases_to!(v => v@[i as int]));
        }
        let ghost prev = out@;
        out.push(copy_expr(&v[i]));
        assert forall|j: int| 0 <= j < i + 1 implies #[trigger] pair_exprs(out@, v@, j) by {
            if j < i {
                assert(pair_exprs(prev, v@, j));
                assert(out@[j] == prev[j]);
            }
        }
        i = i + 1;
    }
    proof { lemma_same_exprs_from(out@, v@, 0); }
    out
}

fn copy_expr_arms(v: &Vec<ExprMatchArm>) -> (r: Vec<ExprMatchArm>)
    ensures
        r@.len() == v@.len(),
        same_earms_from(r@, v@, 0),
    decreases v, 1nat,
{
    let mut out: Vec<ExprMatchArm> = Vec::new();
    let mut i: usize = 0;
    while i < v.len()
        invariant
            i <= v@.len(),
            out@.len() == i,
            forall|j: int| 0 <= j < i ==> #[trigger] pair_earms(out@, v@, j),
        decreases v@.len() - i,
    {
        proof {
            assert(decreases_to!(v => v@[i as int]));
            assert(decreases_to!(v@[i as int] => v@[i as int].expr));
        }
        let arm = ExprMatchArm { pattern: copy_pattern(&v[i].pattern), expr: copy_expr(&v[i].expr) };
        let ghost prev = out@;
        out.push(arm);
        assert forall|j: int| 0 <= j < i + 1 implies #[trigger] pair_earms(out@, v@, j) by {
            if j < i {
                assert(pair_earms(prev, v@, j));
                assert(out@[j] == prev[j]);
            }
        }
        i = i + 1;
    }
    proof { lemma_same_earms_from(out@, v@, 0); }
    out
}

/// A structural copy of a pattern.
pub fn copy_pattern(p: &Pattern) -> (r: Pattern)
    ensures
        same_pattern(r, *p),
    decreases p, 0nat,
{
    match p {
        Pattern::Literal(n) => Pattern::Literal(*n),
        Pattern::Var(v) => Pattern::Var(copy_string(v)),
        Pattern::Constructor(name, fields) => Pattern::Constructor(copy_string(name), copy_patterns(fields)),
        Pattern::Wildcard => Pattern::Wildcard,
    }
}

fn copy_patterns(v: &Vec<Pattern>) -> (r: Vec<Pattern>)
    ensures
        r@.len() == v@.len(),
        same_patterns_from(r@, v@, 0),
    decreases v, 1nat,
{
    let mut out: Vec<Pattern> = Vec::new();
    let mut i: usize = 0;
    while i < v.len()
        invariant
            i <= v@.len(),
            out@.len() == i,
            forall|j: int| 0 <= j < i ==> #[trigger] pair_patterns(out@, v@, j),
        decreases v@.len() - i,
    {
        proof {
            assert(decreases_to!(v => v@[i as int]));
        }
        let ghost prev = out@;
        out.push(copy_pattern(&v[i]));
        assert forall|j: int| 0 <= j < i + 1 implies #[trigger] pair_patterns(out@, v@, j) by {
            if j < i {
                assert(pair_patterns(prev, v@, j));
                assert(out@[j] == prev[j]);
            }
        }
        i = i + 1;
    }
    proof { lemma_same_patterns_from(out@, v@, 0); }
    out
}

/// A structural copy of an assignment.
pub fn copy_assign(a: &Assign) -> (r: Assign)
    ensures
        r.op == a.op,
        plain(a.target) ==> r.target == a.target,
        plain(a.value) ==> r.value == a.value,
        same_assign(r, *a),
{
    Assign { target: copy_expr(&a.target), op: a.op, value: copy_expr(&a.value) }
}

fn copy_assigns(v: &Vec<Assign>) -> (r: Vec<Assign>)
    ensures
        same_assigns_from(r@, v@, 0),
        r@.len() == v@.len(),
{
    let mut out: Vec<Assign> = Vec::new();
    let mut i: usize = 0;
    while i < v.len()
        invariant
            i <= v@.len(),
            forall|j: int| 0 <= j < i ==> #[trigger] pair_assigns(out@, v@, j),
            out@.len() == i,
        decreases v@.len() - i,
    {
        let ghost prev = out@;
        out.push(copy_assign(&v[i]));
        assert forall|j: int| 0 <= j < i + 1 implies #[trigger] pair_assigns(out@, v@, j) by {
            if j < i {
                assert(pair_assigns(prev, v@, j));
                assert(out@[j] == prev[j]);
            }
        }
        i = i + 1;
    }
    proof { lemma_same_assigns_from(out@, v@, 0); }
    out
}

/// A structural copy of a statement.
pub fn copy_stmt(s: &Stmt) -> (r: Stmt)
    ensures
        same_stmt(r, *s),
    decreases s, 0nat,
{
    match s {
        Stmt::MutateState(asg) => Stmt::MutateState(copy_assigns(asg)),
        Stmt::Assign(a) => Stmt::Assign(copy_assign(a)),
        Stmt::Let(lb) => Stmt::Let(LetBinding {
            name: copy_string(&lb.name),
            ty: match &lb.ty {
                Some(t) => Some(copy_type(t)),
                None => None,
            },
            value: copy_expr(&lb.value),
        }),
        Stmt::If(is) => Stmt::If(IfStmt {
            condition: copy_expr(&is.condition),
            then_body: copy_stmts(&is.then_body),
            else_body: match &is.else_body {
                Some(b) => Some(copy_stmts(b)),
                None => None,
            },
        }),
        Stmt::Match(ms) => Stmt::Match(MatchStmt { scrutinee: copy_expr(&ms.scrutinee), arms: copy_stmt_arms(&ms.arms) }),
        Stmt::Return(e) => Stmt::Return(match e {
            Some(x) => Some(copy_expr(x)),
            None => None,
        }),
    }
}

/// Structural copies of a list of statements.
pub fn copy_stmts(v: &Vec<Stmt>) -> (r: Vec<Stmt>)
    ensures
        same_stmts_from(r@, v@, 0),
        r@.len() == v@.len(),
    decreases v, 1nat,
{
    let mut out: Vec<Stmt> = Vec::new();
    let mut i: usize = 0;
    while i < v.len()
        invariant
            i <= v@.len(),
            forall|j: int| 0 <= j < i ==> #[trigger] pair_stmts(out@, v@, j),
            out@.len() == i,
        decreases v@.len() - i,
    {
        proof {
            assert(decreases_to!(v => v@[i as int]));
        }
        let ghost prev = out@;
        out.push(copy_stmt(&v[i]));
        assert forall|j: int| 0 <= j < i + 1 implies #[trigger] pair_stmts(out@, v@, j) by {
            if j < i {
                assert(pair_stmts(prev, v@, j));
                assert(out@[j] == prev[j]);
            }
        }
        i = i + 1;
    }
    proof { lemma_same_stmts_from(out@, v@, 0); }
    out
}

fn copy_stmt_arms(v: &Vec<MatchArm>) -> (r: Vec<MatchArm>)
    ensures
        r@.len() == v@.len(),
        same_sarms_from(r@, v@, 0),
    decreases v, 1nat,
{
    let mut out: Vec<MatchArm> = Vec::new();
    let mut i: usize = 0;
    while i < v.len()
        invariant
            i <= v@.len(),
            out@.len() == i,
            forall|j: int| 0 <= j < i ==> #[trigger] pair_sarms(out@, v@, j),
        decreases v@.len() - i,
    {
        proof {
            assert(decreases_to!(v => v@[i as int]));
            assert(decreases_to!(v@[i as int] => v@[i as int].body));
        }
        let arm = MatchArm { pattern: copy_pattern(&v[i].pattern), body: copy_stmts(&v[i].body) };
        let ghost prev = out@;
        out.push(arm);
        assert forall|j: int| 0 <= j < i + 1 implies #[trigger] pair_sarms(out@, v@, j) by {
            if j < i {
                assert(pair_sarms(prev, v@, j));
                assert(out@[j] == prev[j]);
            }
        }
        i = i + 1;
    }
    proof { lemma_same_sarms_from(out@, v@, 0); }
    out
}

impl Clone for Expr {
    fn clone(&self) -> (r: Self) {
        copy_expr(self)
    }
}

impl Clone for Pattern {
    fn clone(&self) -> (r: Self) {
        copy_pattern(self)
    }
}

impl Clone for Stmt {
    fn clone(&self) -> (r: Self) {
        copy_stmt(self)
    }
}

// ---------------------------------------------------------------------------
// Structural equality
// ---------------------------------------------------------------------------

fn opt_eq_box(a: &Option<Box<Expr>>, b: &Option<Box<Expr>>) -> (r: bool)
    ensures
        r == match (*a, *b) { (Some(x), Some(y)) => same_expr(*x, *y), (None, None) => true, _ => false },
    decreases a, 1nat,
{
    match (a, b) {
        (Some(x), Some(y)) => eq_expr(x, y),
        (None, None) => true,
        _ => false,
    }
}

/// Do two types have the same structure?
pub fn eq_type(a: &Type, b: &Type) -> (r: bool)
    ensures
        r == same_type(*a, *b),
    decreases a, 0nat,
{
    match (a, b) {
        (Type::Named(x), Type::Named(y)) => str_eq(x.as_str(), y.as_str()),
        (Type::Generic(x, xs), Type::Generic(y, ys)) => str_eq(x.as_str(), y.as_str()) && eq_types(xs, ys),
        (Type::Tuple(xs), Type::Tuple(ys)) => eq_types(xs, ys),
        (Type::Array(x, n), Type::Array(y, m)) => *n == *m && eq_type(x, y),
        (Type::Slice(x), Type::Slice(y)) => eq_type(x, y),
        _ => false,
    }
}

fn eq_types(xs: &Vec<Type>, ys: &Vec<Type>) -> (r: bool)
    ensures
        r == (xs@.len() == ys@.len() && same_types_from(xs@, ys@, 0)),
    decreases xs, 1nat,
{
    if xs.len() != ys.len() {
        return false;
    }
    let mut i: usize = 0;
    while i < xs.len()
        invariant
            i <= xs@.len(),
            xs@.len() == ys@.len(),
            same_types_from(xs@, ys@, 0) == same_types_from(xs@, ys@, i as int),
        decreases xs@.len() - i,
    {
        proof {
            assert(decreases_to!(xs => xs@[i as int]));
        }
        if !eq_type(&xs[i], &ys[i]) {
            return false;
        }
        i = i + 1;
    }
    true
}

/// Do two expressions have the same structure?
pub fn eq_expr(a: &Expr, b: &Expr) -> (r: bool)
    ensures
        r == same_expr(*a, *b),
    decreases a, 0nat,
{
    match (a, b) {
        (Expr::Int(x), Expr::Int(y)) => *x == *y,
        (Expr::Var(x), Expr::Var(y)) => str_eq(x.as_str(), y.as_str()),
        (Expr::Field { base: b1, field: f1 }, Expr::Field { base: b2, field: f2 }) =>
            str_eq(b1.as_str(), b2.as_str()) && str_eq(f1.as_str(), f2.as_str()),
        (Expr::Old(x), Expr::Old(y)) => eq_expr(x, y),
        (Expr::Unary { op: o1, expr: x }, Expr::Unary { op: o2, expr: y }) => *o1 == *o2 && eq_expr(x, y),
        (Expr::Bin { op: o1, lhs: l1, rhs: r1 }, Expr::Bin { op: o2, lhs: l2, rhs: r2 }) =>
            *o1 == *o2 && eq_expr(l1, l2) && eq_expr(r1, r2),
        (Expr::Call(c1), Expr::Call(c2)) => str_eq(c1.func.as_str(), c2.func.as_str()) && eq_exprs(&c1.args, &c2.args),
        (Expr::MethodCall(m1), Expr::MethodCall(m2)) =>
            eq_expr(&m1.receiver, &m2.receiver) && str_eq(m1.method.as_str(), m2.method.as_str()) && eq_exprs(&m1.args, &m2.args),
        (Expr::Index(i1), Expr::Index(i2)) => eq_expr(&i1.receiver, &i2.receiver) && eq_expr(&i1.index, &i2.index),
        (Expr::If(i1), Expr::If(i2)) =>
            eq_expr(&i1.condition, &i2.condition) && eq_expr(&i1.then_expr, &i2.then_expr) && eq_expr(&i1.else_expr, &i2.else_expr),
        (Expr::Match(m1), Expr::Match(m2)) => eq_expr(&m1.scrutinee, &m2.scrutinee) && eq_expr_arms(&m1.arms, &m2.arms),
        (Expr::Try(x), Expr::Try(y)) => eq_expr(x, y),
        (Expr::Forall(f1), Expr::Forall(f2)) =>
            str_eq(f1.var.as_str(), f2.var.as_str()) && eq_type(&f1.var_ty, &f2.var_ty) && opt_eq_box(&f1.domain, &f2.domain)
                && eq_expr(&f1.body, &f2.body),
        (Expr::Aggregate(a1), Expr::Aggregate(a2)) => a1.op == a2.op && eq_exprs(&a1.args, &a2.args),
        (Expr::Range { lo: l1, hi: h1 }, Expr::Range { lo: l2, hi: h2 }) => eq_expr(l1, l2) && eq_expr(h1, h2),
        _ => false,
    }
}

/// Do two lists of expressions have the same structure?
pub fn eq_exprs(a: &Vec<Expr>, b: &Vec<Expr>) -> (r: bool)
    ensures
        r == same_exprs(a@, b@),
    decreases a, 1nat,
{
    if a.len() != b.len() {
        return false;
    }
    let mut i: usize = 0;
    while i < a.len()
        invariant
            i <= a@.len(),
            a@.len() == b@.len(),
            same_exprs_from(a@, b@, 0) == same_exprs_from(a@, b@, i as int),
        decreases a@.len() - i,
    {
        proof {
            assert(decreases_to!(a => a@[i as int]));
        }
        if !eq_expr(&a[i], &b[i]) {
            return false;
        }
        i = i + 1;
    }
    true
}

fn eq_expr_arms(a: &Vec<ExprMatchArm>, b: &Vec<ExprMatchArm>) -> (r: bool)
    ensures
        r == (a@.len() == b@.len() && same_earms_from(a@, b@, 0)),
    decreases a, 1nat,
{
    if a.len() != b.len() {
        return false;
    }
    let mut i: usize = 0;
    while i < a.len()
        invariant
            i <= a@.len(),
            a@.len() == b@.len(),
            same_earms_from(a@, b@, 0) == same_earms_from(a@, b@, i as int),
        decreases a@.len() - i,
    {
        proof {
            assert(decreases_to!(a => a@[i as int]));
            assert(decreases_to!(a@[i as int] => a@[i as int].expr));
        }
        if !eq_pattern(&a[i].pattern, &b[i].pattern) || !eq_expr(&a[i].expr, &b[i].expr) {
            return false;
        }
        i = i + 1;
    }
    true
}

/// Do two patterns have the same structure?
pub fn eq_pattern(a: &Pattern, b: &Pattern) -> (r: bool)
    ensures
        r == same_pattern(*a, *b),
    decreases a, 0nat,
{
    match (a, b) {
        (Pattern::Literal(x), Pattern::Literal(y)) => *x == *y,
        (Pattern::Var(x), Pattern::Var(y)) => str_eq(x.as_str(), y.as_str()),
        (Pattern::Constructor(n1, f1), Pattern::Constructor(n2, f2)) => str_eq(n1.as_str(), n2.as_str()) && eq_patterns(f1, f2),
        (Pattern::Wildcard, Pattern::Wildcard) => true,
        _ => false,
    }
}

fn eq_patterns(f1: &Vec<Pattern>, f2: &Vec<Pattern>) -> (r: bool)
    ensures
        r == (f1@.len() == f2@.len() && same_patterns_from(f1@, f2@, 0)),
    decreases f1, 1nat,
{
    if f1.len() != f2.len() {
        return false;
    }
    let mut i: usize = 0;
    while i < f1.len()
        invariant
            i <= f1@.len(),
            f1@.len() == f2@.len(),
            same_patterns_from(f1@, f2@, 0) == same_patterns_from(f1@, f2@, i as int),
        decreases f1@.len() - i,
    {
        proof {
            assert(decreases_to!(f1 => f1@[i as int]));
        }
        if !eq_pattern(&f1[i], &f2[i]) {
            return false;
        }
        i = i + 1;
    }
    true
}

fn eq_assign(a: &Assign, b: &Assign) -> (r: bool)
    ensures
        r == same_assign(*a, *b),
{
    a.op == b.op && eq_expr(&a.target, &b.target) && eq_expr(&a.value, &b.value)
}

fn eq_opt_expr(a: &Option<Expr>, b: &Option<Expr>) -> (r: bool)
    ensures
        r == match (*a, *b) { (Some(x), Some(y)) => same_expr(x, y), (None, None) => true, _ => false },
{
    match (a, b) {
        (Some(x), Some(y)) => eq_expr(x, y),
        (None, None) => true,
        _ => false,
    }
}

/// Do two statements have the same structure?
pub fn eq_stmt(a: &Stmt, b: &Stmt) -> (r: bool)
    ensures
        r == same_stmt(*a, *b),
    decreases a, 0nat,
{
    match (a, b) {
        (Stmt::MutateState(x), Stmt::MutateState(y)) => {
            if x.len() != y.len() {
                return false;
            }
            let mut i: usize = 0;
            while i < x.len()
                invariant
                    i <= x@.len(),
                    x@.len() == y@.len(),
                    same_assigns_from(x@, y@, 0) == same_assigns_from(x@, y@, i as int),
                    same_stmt(*a, *b) == same_assigns_from(x@, y@, 0),
                decreases x@.len() - i,
            {
                if !eq_assign(&x[i], &y[i]) {
                    return false;
                }
                i = i + 1;
            }
            true
        },
        (Stmt::Assign(x), Stmt::Assign(y)) => eq_assign(x, y),
        (Stmt::Let(x), Stmt::Let(y)) => {
            let ty_eq = match (&x.ty, &y.ty) {
                (Some(s), Some(t)) => eq_type(s, t),
                (None, None) => true,
                _ => false,
            };
            str_eq(x.name.as_str(), y.name.as_str()) && ty_eq && eq_expr(&x.value, &y.value)
        },
        (Stmt::If(x), Stmt::If(y)) => {
            let else_eq = match (&x.else_body, &y.else_body) {
                (Some(s), Some(t)) => eq_stmts(s, t),
                (None, None) => true,
                _ => false,
            };
            eq_expr(&x.condition, &y.condition) && eq_stmts(&x.then_body, &y.then_body) && else_eq
        },
        (Stmt::Match(x), Stmt::Match(y)) => eq_expr(&x.scrutinee, &y.scrutinee) && eq_stmt_arms(&x.arms, &y.arms),
        (Stmt::Return(x), Stmt::Return(y)) => eq_opt_expr(x, y),
        _ => false,
    }
}

/// Do two lists of statements have the same structure?
pub fn eq_stmts(a: &Vec<Stmt>, b: &Vec<Stmt>) -> (r: bool)
    ensures
        r == same_stmts(a@, b@),
    decreases a, 1nat,
{
    if a.len() != b.len() {
        return false;
    }
    let mut i: usize = 0;
    while i < a.len()
        invariant
            i <= a@.len(),
            a@.len() == b@.len(),
            same_stmts_from(a@, b@, 0) == same_stmts_from(a@, b@, i as int),
        decreases a@.len() - i,
    {
        proof {
            assert(decreases_to!(a => a@[i as int]));
        }
        if !eq_stmt(&a[i], &b[i]) {
            return false;
        }
        i = i + 1;
    }
    true
}

fn eq_stmt_arms(a: &Vec<MatchArm>, b: &Vec<MatchArm>) -> (r: bool)
    ensures
        r == (a@.len() == b@.len() && same_sarms_from(a@, b@, 0)),
    decreases a, 1nat,
{
    if a.len() != b.len() {
        return false;
    }
    let mut i: usize = 0;
    while i < a.len()
        invariant
            i <= a@.len(),
            a@.len() == b@.len(),
            same_sarms_from(a@, b@, 0) == same_sarms_from(a@, b@, i as int),
        decreases a@.len() - i,
    {
        proof {
            assert(decreases_to!(a => a@[i as int]));
            assert(decreases_to!(a@[i as int] => a@[i as int].body));
        }
        if !eq_pattern(&a[i].pattern, &b[i].pattern) || !eq_stmts(&a[i].body, &b[i].body) {
            return false;
        }
        i = i + 1;
    }
    true
}

} // verus!
