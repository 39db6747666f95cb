//! A deterministic, offline [`CodeAgent`].
//!
//! - With a developer-supplied body, the first candidate is that body.
//! - With an elided body (`func ... ;`), the candidate is synthesized from
//!   the `ensures` clauses: `base.field == e` becomes the assignment
//!   `base.field = e` inside `mutate state`, `name == e` the assignment
//!   `name = e`, with every `old(x)` read as `x`.
//! - A rewrite evaluates each `base.field == e` clause under the
//!   counter-example and replaces the assignments of exactly the fields
//!   whose post-state value disagrees with the contract.

use vstd::prelude::*;
use crate::ast::{Expr, BinOp, Assign, AssignOp, Stmt};
use crate::agent::{FuncSpec, Candidate, CodeAgent};
use crate::solver::Model;
use crate::ir::find_term;
use crate::extract::field_name;
use crate::tree::{plain, copy_expr, copy_assign, copy_stmt};
use crate::text::{copy_string, push_char, push_str, str_eq};

verus! {

// ---------------------------------------------------------------------------
// Reading `old(..)` as the current state
// ---------------------------------------------------------------------------

/// `e` with every `old(x)` replaced by `x`, under negation and binary
/// operators.
pub open spec fn resolve_spec(e: Expr) -> Expr
    decreases e,
{
    match e {
        Expr::Old(x) => resolve_spec(*x),
        Expr::Unary { op, expr } => Expr::Unary { op, expr: Box::new(resolve_spec(*expr)) },
        Expr::Bin { op, lhs, rhs } => Expr::Bin { op, lhs: Box::new(resolve_spec(*lhs)), rhs: Box::new(resolve_spec(*rhs)) },
        _ => e,
    }
}

proof fn lemma_resolve_plain(e: Expr)
    ensures
        plain(resolve_spec(e)) ==> plain(e),
    decreases e,
{
    match e {
        Expr::Old(x) => lemma_resolve_plain(*x),
        Expr::Unary { expr, .. } => lemma_resolve_plain(*expr),
        Expr::Bin { lhs, rhs, .. } => {
            lemma_resolve_plain(*lhs);
            lemma_resolve_plain(*rhs);
        },
        _ => {},
    }
}

fn resolve_old(e: &Expr) -> (r: Expr)
    ensures
        plain(resolve_spec(*e)) ==> r == resolve_spec(*e),
    decreases e,
{
    proof { lemma_resolve_plain(*e); }
    match e {
        Expr::Old(inner) => resolve_old(inner),
        Expr::Unary { op, expr } => Expr::Unary { op: *op, expr: Box::new(resolve_old(expr)) },
        Expr::Bin { op, lhs, rhs } => {
            proof {
                lemma_resolve_plain(**lhs);
                lemma_resolve_plain(**rhs);
            }
            Expr::Bin { op: *op, lhs: Box::new(resolve_old(lhs)), rhs: Box::new(resolve_old(rhs)) }
        },
        _ => copy_expr(e),
    }
}

// ---------------------------------------------------------------------------
// Synthesis from `ensures`
// ---------------------------------------------------------------------------

/// The parts of a clause `base.field == rhs`.
pub open spec fn field_clause(e: Expr) -> Option<(String, String, Expr)> {
    match e {
        Expr::Bin { op: BinOp::Eq, lhs, rhs } => match *lhs {
            Expr::Field { base, field } => Some((base, field, *rhs)),
            _ => None,
        },
        _ => None,
    }
}

/// The parts of a clause `name == rhs`.
pub open spec fn var_clause(e: Expr) -> Option<(String, Expr)> {
    match e {
        Expr::Bin { op: BinOp::Eq, lhs, rhs } => match *lhs {
            Expr::Var(v) => Some((v, *rhs)),
            _ => None,
        },
        _ => None,
    }
}

/// The field assignments the first `n` clauses ask for.
pub open spec fn synth_fields(ens: Seq<Expr>, n: nat) -> Seq<Assign>
    decreases n,
{
    if n == 0 || n > ens.len() {
        Seq::empty()
    } else {
        synth_fields(ens, (n - 1) as nat) + match field_clause(ens[n - 1]) {
            Some((b, f, rhs)) => seq![Assign { target: Expr::Field { base: b, field: f }, op: AssignOp::Plain, value: resolve_spec(rhs) }],
            None => Seq::empty(),
        }
    }
}

/// The scalar assignments the first `n` clauses ask for.
pub open spec fn synth_vars(ens: Seq<Expr>, n: nat) -> Seq<Assign>
    decreases n,
{
    if n == 0 || n > ens.len() {
        Seq::empty()
    } else {
        synth_vars(ens, (n - 1) as nat) + match var_clause(ens[n - 1]) {
            Some((v, rhs)) => seq![Assign { target: Expr::Var(v), op: AssignOp::Plain, value: resolve_spec(rhs) }],
            None => Seq::empty(),
        }
    }
}

/// `a` is the assignment `s`: same target and operator, and the same value
/// wherever that value is a plain expression.
pub open spec fn assign_like(a: Assign, s: Assign) -> bool {
    a.target == s.target && a.op == s.op && (plain(s.value) ==> a.value == s.value)
}

/// `c` is the body synthesized from the clauses `ens`: one `mutate state`
/// with the field assignments (when there are any), then the scalar
/// assignments, each in clause order.
pub open spec fn synthesized(ens: Seq<Expr>, c: Candidate) -> bool {
    let fa = synth_fields(ens, ens.len());
    let va = synth_vars(ens, ens.len());
    let off: int = if fa.len() > 0 { 1 } else { 0 };
    &&& c.stmts@.len() == off + va.len()
    &&& fa.len() > 0 ==> (c.stmts@[0] matches Stmt::MutateState(v) && v@.len() == fa.len()
        && forall|i: int| 0 <= i < fa.len() ==> assign_like(#[trigger] v@[i], fa[i]))
    &&& forall|i: int| 0 <= i < va.len() ==> (#[trigger] c.stmts@[off + i] matches Stmt::Assign(a) && assign_like(a, va[i]))
}

/// Derive a body from the `ensures` clauses: each `base.field == rhs`
/// becomes an assignment in one `mutate state` block, each `name == rhs` a
/// bare assignment after it, with `old(..)` read as the current state.
/// Other clauses contribute nothing.
pub fn synthesize_from_ensures(spec: &FuncSpec) -> (r: Candidate)
    ensures
        synthesized(spec.func.ensures@, r),
{
    let ens = &spec.func.ensures;
    let ghost es = ens@;
    let mut fa: Vec<Assign> = Vec::new();
    let mut vs: Vec<Stmt> = Vec::new();
    let mut i: usize = 0;
    while i < ens.len()
        invariant
            i <= es.len(),
            es == ens@,
            fa@.len() == synth_fields(es, i as nat).len(),
            forall|k: int| 0 <= k < fa@.len() ==> assign_like(#[trigger] fa@[k], synth_fields(es, i as nat)[k]),
            vs@.len() == synth_vars(es, i as nat).len(),
            forall|k: int| 0 <= k < vs@.len() ==> (#[trigger] vs@[k] matches Stmt::Assign(a) && assign_like(a, synth_vars(es, i as nat)[k])),
        decreases es.len() - i,
    {
        let ghost f0 = synth_fields(es, i as nat);
        let ghost v0 = synth_vars(es, i as nat);
        assert(synth_fields(es, (i + 1) as nat) == f0 + match field_clause(es[i as int]) {
            Some((b, f, rhs)) => seq![Assign { target: Expr::Field { base: b, field: f }, op: AssignOp::Plain, value: resolve_spec(rhs) }],
            None => Seq::<Assign>::empty(),
        });
        match &ens[i] {
            Expr::Bin { op: BinOp::Eq, lhs, rhs } => {
                let value = resolve_old(rhs);
                match &**lhs {
                    Expr::Field { base, field } => {
                        let a = Assign {
                            target: Expr::Field { base: copy_string(base), field: copy_string(field) },
                            op: AssignOp::Plain,
                            value,
                        };
                        fa.push(a);
                        assert(synth_vars(es, (i + 1) as nat) == v0);
                    },
                    Expr::Var(v) => {
                        let a = Assign { target: Expr::Var(copy_string(v)), op: AssignOp::Plain, value };
                        vs.push(Stmt::Assign(a));
                        assert(synth_fields(es, (i + 1) as nat) == f0);
                    },
                    _ => {
                        assert(synth_fields(es, (i + 1) as nat) == f0);
                        assert(synth_vars(es, (i + 1) as nat) == v0);
                    },
                }
            },
            _ => {
                assert(synth_fields(es, (i + 1) as nat) == f0);
                assert(synth_vars(es, (i + 1) as nat) == v0);
            },
        }
        i = i + 1;
    }
    let mut stmts: Vec<Stmt> = Vec::new();
    if fa.len() > 0 {
        stmts.push(Stmt::MutateState(fa));
    }
    let ghost s0 = stmts@;
    let ghost v0 = vs@;
    stmts.append(&mut vs);
    assert(stmts@ == s0 + v0);
    Candidate { stmts }
}

// ---------------------------------------------------------------------------
// Evaluation under a counter-example
// ---------------------------------------------------------------------------

/// The value a model gives a name: 0 when it gives none.
pub open spec fn lookup(mv: Seq<(Seq<char>, int)>, n: Seq<char>) -> i64 {
    match find_term(mv, n) {
        Some(i) => mv[i].1 as i64,
        None => 0,
    }
}

/// `l / r` with Rust's truncating, wrapping division, and 0 for `r == 0`.
pub open spec fn div_wrap(l: i64, r: i64) -> i64 {
    match l.checked_div(r) {
        Some(q) => q,
        None => if r == 0 { 0 } else { l },
    }
}

/// The value of `e` under a model with wrapping `i64` arithmetic: fields
/// are read in the post-state when `post` holds and in the pre-state inside
/// `old(..)`; comparisons, logic and other forms read as 0.
pub open spec fn eval_spec(e: Expr, post: bool, mv: Seq<(Seq<char>, int)>) -> i64
    decreases e,
{
    match e {
        Expr::Int(n) => n,
        Expr::Var(v) => lookup(mv, v@),
        Expr::Field { base, field } => lookup(mv, field_name(base@, field@, post)),
        Expr::Old(x) => eval_spec(*x, false, mv),
        Expr::Unary { expr, .. } => 0i64.wrapping_sub(eval_spec(*expr, post, mv)),
        Expr::Bin { op, lhs, rhs } => {
            let l = eval_spec(*lhs, post, mv);
            let r = eval_spec(*rhs, post, mv);
            match op {
                BinOp::Add => l.wrapping_add(r),
                BinOp::Sub => l.wrapping_sub(r),
                BinOp::Mul => l.wrapping_mul(r),
                BinOp::Div => div_wrap(l, r),
                _ => 0,
            }
        },
        _ => 0,
    }
}

fn name_of_field(base: &String, field: &String, post: bool) -> (r: String)
    ensures
        r@ == field_name(base@, field@, post),
{
    let mut s = copy_string(base);
    push_char(&mut s, '.');
    push_str(&mut s, field.as_str());
    if post {
        push_char(&mut s, '\'');
    }
    s
}

fn model_value(ce: &Model, name: &String, default: i64) -> (r: i64)
    ensures
        r == match find_term(ce@, name@) {
            Some(i) => ce@[i].1 as i64,
            None => default,
        },
{
    match ce.get(name.as_str()) {
        Some(v) => *v,
        None => default,
    }
}

fn eval(e: &Expr, post: bool, ce: &Model) -> (r: i64)
    ensures
        r == eval_spec(*e, post, ce@),
    decreases e,
{
    match e {
        Expr::Int(n) => *n,
        Expr::Var(v) => model_value(ce, v, 0),
        Expr::Field { base, field } => {
            let n = name_of_field(base, field, post);
            model_value(ce, &n, 0)
        },
        Expr::Old(x) => eval(x, false, ce),
        Expr::Unary { expr, .. } => 0i64.wrapping_sub(eval(expr, post, ce)),
        Expr::Bin { op, lhs, rhs } => {
            let l = eval(lhs, post, ce);
            let r = eval(rhs, post, ce);
            match op {
                BinOp::Add => l.wrapping_add(r),
                BinOp::Sub => l.wrapping_sub(r),
                BinOp::Mul => l.wrapping_mul(r),
                BinOp::Div => match l.checked_div(r) {
                    Some(q) => q,
                    None => if r == 0 { 0 } else { l },
                },
                _ => 0,
            }
        },
        _ => 0,
    }
}

// ---------------------------------------------------------------------------
// Repair
// ---------------------------------------------------------------------------

/// A repair: the field `(base, field)` gets the value `e`.
pub type FixV = (Seq<char>, Seq<char>, Expr);

/// The first repair for `(b, f)`.
pub open spec fn find_fix(fx: Seq<FixV>, b: Seq<char>, f: Seq<char>) -> Option<int>
    decreases fx.len(),
{
    if fx.len() == 0 {
        None
    } else {
        match find_fix(fx.drop_last(), b, f) {
            Some(i) => Some(i),
            None => if fx.last().0 == b && fx.last().1 == f { Some(fx.len() - 1) } else { None },
        }
    }
}

/// `fx` with the repair of `(b, f)` set to `v`.
pub open spec fn upsert(fx: Seq<FixV>, b: Seq<char>, f: Seq<char>, v: Expr) -> Seq<FixV> {
    match find_fix(fx, b, f) {
        Some(i) => fx.update(i, (b, f, v)),
        None => fx.push((b, f, v)),
    }
}

/// The post-state value a model gives `base.field`, `i64::MIN` when none.
pub open spec fn actual_post(mv: Seq<(Seq<char>, int)>, b: Seq<char>, f: Seq<char>) -> i64 {
    match find_term(mv, field_name(b, f, true)) {
        Some(i) => mv[i].1 as i64,
        None => i64::MIN,
    }
}

/// The repairs the first `n` clauses call for under model `mv`: every
/// `base.field == rhs` whose `rhs` evaluates otherwise than the model's
/// post-state value of the field; a later clause on the same field wins.
pub open spec fn fixes_spec(ens: Seq<Expr>, mv: Seq<(Seq<char>, int)>, n: nat) -> Seq<FixV>
    decreases n,
{
    if n == 0 || n > ens.len() {
        Seq::empty()
    } else {
        let prev = fixes_spec(ens, mv, (n - 1) as nat);
        match field_clause(ens[n - 1]) {
            Some((b, f, rhs)) => if eval_spec(rhs, true, mv) != actual_post(mv, b@, f@) {
                upsert(prev, b@, f@, resolve_spec(rhs))
            } else {
                prev
            },
            None => prev,
        }
    }
}

/// The executable repairs match the specified ones.
pub open spec fn fixes_match(fx: Seq<(String, String, Expr)>, sp: Seq<FixV>) -> bool {
    &&& fx.len() == sp.len()
    &&& forall|k: int| 0 <= k < fx.len() ==> {
        &&& (#[trigger] fx[k]).0@ == sp[k].0
        &&& fx[k].1@ == sp[k].1
        &&& (plain(sp[k].2) ==> fx[k].2 == sp[k].2)
    }
}

fn fix_index(fx: &Vec<(String, String, Expr)>, b: &String, f: &String, Ghost(sp): Ghost<Seq<FixV>>) -> (r: Option<usize>)
    requires
        fixes_match(fx@, sp),
    ensures
        match r {
            Some(i) => find_fix(sp, b@, f@) == Some(i as int),
            None => find_fix(sp, b@, f@) is None,
        },
{
    let mut i: usize = 0;
    while i < fx.len()
        invariant
            i <= fx@.len(),
            fixes_match(fx@, sp),
            find_fix(sp.take(i as int), b@, f@) is None,
        decreases fx@.len() - i,
    {
        assert(sp.take(i + 1).drop_last() == sp.take(i as int));
        if str_eq(fx[i].0.as_str(), b.as_str()) && str_eq(fx[i].1.as_str(), f.as_str()) {
            proof { lemma_find_fix_prefix(sp, i as int + 1, b@, f@); }
            return Some(i);
        }
        i = i + 1;
    }
    assert(sp.take(sp.len() as int) == sp);
    None
}

proof fn lemma_find_fix_prefix(fx: Seq<FixV>, k: int, b: Seq<char>, f: Seq<char>)
    requires
        0 <= k <= fx.len(),
        find_fix(fx.take(k), b, f) is Some,
    ensures
        find_fix(fx, b, f) == find_fix(fx.take(k), b, f),
    decreases fx.len() - k,
{
    if k < fx.len() {
        assert(fx.take(k + 1).drop_last() == fx.take(k));
        lemma_find_fix_prefix(fx, k + 1, b, f);
    } else {
        assert(fx.take(k) == fx);
    }
}

proof fn lemma_find_fix_bound(fx: Seq<FixV>, b: Seq<char>, f: Seq<char>)
    ensures
        find_fix(fx, b, f) matches Some(i) ==> 0 <= i < fx.len(),
    decreases fx.len(),
{
    if fx.len() > 0 {
        lemma_find_fix_bound(fx.drop_last(), b, f);
    }
}

fn upsert_exec(fx: &mut Vec<(String, String, Expr)>, b: &String, f: &String, v: Expr, Ghost(sp): Ghost<Seq<FixV>>, Ghost(sv): Ghost<Expr>)
    requires
        fixes_match(old(fx)@, sp),
        plain(sv) ==> v == sv,
    ensures
        fixes_match(final(fx)@, upsert(sp, b@, f@, sv)),
{
    proof { lemma_find_fix_bound(sp, b@, f@); }
    match fix_index(fx, b, f, Ghost(sp)) {
        Some(i) => {
            fx.set(i, (copy_string(b), copy_string(f), v));
            assert(fixes_match(fx@, sp.update(i as int, (b@, f@, sv))));
        },
        None => {
            fx.push((copy_string(b), copy_string(f), v));
            assert(fixes_match(fx@, sp.push((b@, f@, sv))));
        },
    }
}

/// The repair a target calls for, if any.
pub open spec fn fix_for(fx: Seq<FixV>, target: Expr) -> Option<Expr> {
    match target {
        Expr::Field { base, field } => match find_fix(fx, base@, field@) {
            Some(i) => Some(fx[i].2),
            None => None,
        },
        _ => None,
    }
}

/// `a2` is `a` after the repairs `fx`: a repaired field is set (`=`) to its
/// repair's value; any other assignment is kept. Targets, operators and
/// values are claimed equal where they are plain expressions.
pub open spec fn assign_fixed(a: Assign, a2: Assign, fx: Seq<FixV>) -> bool {
    &&& plain(a.target) ==> a2.target == a.target
    &&& match fix_for(fx, a.target) {
        Some(v) => a2.op == AssignOp::Plain && (plain(v) ==> a2.value == v),
        None => a2.op == a.op && (plain(a.value) ==> a2.value == a.value),
    }
}

/// Statement `s2` is `s` after the repairs: the assignments of `mutate
/// state` blocks and bare assignments are repaired one for one; other
/// statements are copied.
pub open spec fn stmt_fixed(s: Stmt, s2: Stmt, fx: Seq<FixV>) -> bool {
    match s {
        Stmt::MutateState(asg) => s2 matches Stmt::MutateState(asg2) && asg2@.len() == asg@.len()
            && forall|j: int| 0 <= j < asg@.len() ==> assign_fixed(#[trigger] asg@[j], asg2@[j], fx),
        Stmt::Assign(a) => s2 matches Stmt::Assign(a2) && assign_fixed(a, a2, fx),
        _ => true,
    }
}

fn fix_assign(a: &Assign, fx: &Vec<(String, String, Expr)>, Ghost(sp): Ghost<Seq<FixV>>) -> (r: Assign)
    requires
        fixes_match(fx@, sp),
    ensures
        assign_fixed(*a, r, sp),
{
    proof { lemma_find_fix_bound(sp, Seq::empty(), Seq::empty()); }
    match &a.target {
        Expr::Field { base, field } => {
            proof { lemma_find_fix_bound(sp, base@, field@); }
            match fix_index(fx, base, field, Ghost(sp)) {
                Some(i) => {
                    let value = copy_expr(&fx[i].2);
                    Assign { target: copy_expr(&a.target), op: AssignOp::Plain, value }
                },
                None => copy_assign(a),
            }
        },
        _ => copy_assign(a),
    }
}

fn apply_fixes(stmts: &Vec<Stmt>, fx: &Vec<(String, String, Expr)>, Ghost(sp): Ghost<Seq<FixV>>) -> (r: Vec<Stmt>)
    requires
        fixes_match(fx@, sp),
    ensures
        r@.len() == stmts@.len(),
        forall|i: int| 0 <= i < stmts@.len() ==> stmt_fixed(#[trigger] stmts@[i], r@[i], sp),
{
    let mut out: Vec<Stmt> = Vec::new();
    let mut i: usize = 0;
    while i < stmts.len()
        invariant
            i <= stmts@.len(),
            fixes_match(fx@, sp),
            out@.len() == i,
            forall|k: int| 0 <= k < i ==> stmt_fixed(#[trigger] stmts@[k], out@[k], sp),
        decreases stmts@.len() - i,
    {
        let s = match &stmts[i] {
            Stmt::MutateState(asg) => {
                let mut na: Vec<Assign> = Vec::new();
                let mut j: usize = 0;
                while j < asg.len()
                    invariant
                        j <= asg@.len(),
                        fixes_match(fx@, sp),
                        na@.len() == j,
                        forall|k: int| 0 <= k < j ==> assign_fixed(#[trigger] asg@[k], na@[k], sp),
                    decreases asg@.len() - j,
                {
                    na.push(fix_assign(&asg[j], fx, Ghost(sp)));
                    j = j + 1;
                }
                Stmt::MutateState(na)
            },
            Stmt::Assign(a) => Stmt::Assign(fix_assign(a, fx, Ghost(sp))),
            other => copy_stmt(other),
        };
        out.push(s);
        i = i + 1;
    }
    out
}

// ---------------------------------------------------------------------------
// The agent
// ---------------------------------------------------------------------------

/// The default, offline code-generation agent.
pub struct StaticAgent;

impl StaticAgent {
    pub fn new() -> (r: Self)
        ensures
            r == StaticAgent,
    {
        StaticAgent
    }
}

impl Default for StaticAgent {
    fn default() -> (r: Self)
        ensures
            r == StaticAgent,
    {
        StaticAgent::new()
    }
}

impl CodeAgent for StaticAgent {
    fn name(&self) -> (r: &str)
        ensures
            r@ == "static-synth"@,
    {
        "static-synth"
    }

    /// The developer's body when there is one, else the body synthesized
    /// from the `ensures` clauses.
    fn generate(&self, spec: &FuncSpec) -> (r: Result<Candidate, String>)
        ensures
            (spec.func.elided || spec.func.body@.len() == 0) ==> (r matches Ok(c) && synthesized(spec.func.ensures@, c)),
            !(spec.func.elided || spec.func.body@.len() == 0) ==> (r matches Ok(c) && c.stmts@.len() == spec.func.body@.len()),
    {
        if spec.func.elided || spec.func.body.len() == 0 {
            Ok(synthesize_from_ensures(spec))
        } else {
            Ok(Candidate { stmts: spec.func.body.clone() })
        }
    }

    /// Repair `prev` from the counter-example: re-synthesize from the
    /// contract when the model is empty or no field disagrees with it, else
    /// set each disagreeing field to its contract value and keep the rest.
    fn rewrite(&self, spec: &FuncSpec, prev: &Candidate, ce: &Model) -> (r: Result<Candidate, String>)
        ensures
            r is Ok,
            (ce@.len() == 0 || fixes_spec(spec.func.ensures@, ce@, spec.func.ensures@.len()).len() == 0)
                ==> (r matches Ok(c) && synthesized(spec.func.ensures@, c)),
            (ce@.len() > 0 && fixes_spec(spec.func.ensures@, ce@, spec.func.ensures@.len()).len() > 0) ==> (r matches Ok(c)
                && c.stmts@.len() == prev.stmts@.len()
                && forall|i: int| 0 <= i < prev.stmts@.len()
                    ==> stmt_fixed(#[trigger] prev.stmts@[i], c.stmts@[i], fixes_spec(spec.func.ensures@, ce@, spec.func.ensures@.len()))),
    {
        if ce.len() == 0 {
            return Ok(synthesize_from_ensures(spec));
        }
        let ens = &spec.func.ensures;
        let ghost es = ens@;
        let ghost mv = ce@;
        let mut fx: Vec<(String, String, Expr)> = Vec::new();
        let mut i: usize = 0;
        while i < ens.len()
            invariant
                i <= es.len(),
                es == ens@,
                mv == ce@,
                fixes_match(fx@, fixes_spec(es, mv, i as nat)),
            decreases es.len() - i,
        {
            let ghost sp = fixes_spec(es, mv, i as nat);
            match &ens[i] {
                Expr::Bin { op: BinOp::Eq, lhs, rhs } => {
                    match &**lhs {
                        Expr::Field { base, field } => {
                            let expected = eval(rhs, true, ce);
                            let post = name_of_field(base, field, true);
                            let actual = model_value(ce, &post, i64::MIN);
                            if expected != actual {
                                let v = resolve_old(rhs);
                                upsert_exec(&mut fx, base, field, v, Ghost(sp), Ghost(resolve_spec(**rhs)));
                            }
                        },
                        _ => {},
                    }
                },
                _ => {},
            }
            i = i + 1;
        }
        if fx.len() == 0 {
            return Ok(synthesize_from_ensures(spec));
        }
        let stmts = apply_fixes(&prev.stmts, &fx, Ghost(fixes_spec(es, mv, es.len())));
        Ok(Candidate { stmts })
    }
}

} // verus!
