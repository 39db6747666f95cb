//! Extraction of verification problems from the AST.
//!
//! For each `func`, we build:
//! * `premises` -- requires, type constraints, entry invariants, frame
//!   axioms, and `mutate state` assignments (which define post-state
//!   variables).
//! * `conclusions` -- `ensures` clauses and invariants that must hold in the
//!   post-state.
//!
//! State variables are named `"<base>.<field>"` in the pre-state and
//! `"<base>.<field>'"` in the post-state. `old(e)` always resolves to the
//! pre-state name.
//!
//! The lowering of an expression is described by the spec functions
//! [`lin_form`] (arithmetic) and [`dnf_form`] (boolean structure), both
//! relative to a naming context: the state (`post`), the binding an invariant
//! is specialised for (`inst`), and the values that unrolled `forall`
//! variables stand for (`env`). [`lemma_lin_form_meaning`] shows that the
//! linear form of an expression has the expression's value.

use vstd::prelude::*;
use crate::ast::{Expr, UnOp, BinOp, Func, Invariant, Item, Module, Stmt, Assign, AssignOp, ForallExpr, AggregateOp, Type, type_name_spec, op_name_spec};
use crate::ir::{
    Linear, Constraint, Relation, VerificationProblem, Conclusion, Valuation, terms_view,
    eval_terms, eval_linear, merge_terms, merge_fits, nonzero_terms, negate_terms, scale_terms,
    fits_i64, lemma_eval_nonzero, lemma_eval_merge_terms, lemma_eval_negate, lemma_eval_scale,
    lemma_eval_push,
};
use crate::span::Span;
use crate::text::{string_of, push_str, push_char, str_eq, i64_text, int_text, copy_string};
use crate::render::{pretty, bin_op_text};

verus! {

// ---------------------------------------------------------------------------
// Views
// ---------------------------------------------------------------------------

/// A linear form: `(name, coefficient)` terms and a constant.
pub type LinV = (Seq<(Seq<char>, int)>, int);

/// A constraint: linear form compared against zero.
pub type ConV = (LinV, Relation);

/// Values that unrolled quantifier variables stand for; the first binding of
/// a name wins.
pub type EnvV = Seq<(Seq<char>, int)>;

/// Known `(name, lower, upper)` bounds of variables.
pub type BoundsV = Seq<(Seq<char>, Option<int>, Option<int>)>;

/// Per-variable lower and upper bounds derived from premise constraints.
/// `None` means the bound is unknown.
pub type VarBounds = Vec<(String, Option<i64>, Option<i64>)>;

pub open spec fn lin_view(l: Linear) -> LinV {
    (terms_view(l.terms@), l.constant as int)
}

pub open spec fn con_view(c: Constraint) -> ConV {
    (lin_view(c.0), c.1)
}

pub open spec fn cons_view(cs: Seq<Constraint>) -> Seq<ConV> {
    cs.map_values(|c: Constraint| con_view(c))
}

pub open spec fn dnf_view(d: Seq<Vec<Constraint>>) -> Seq<Seq<ConV>> {
    d.map_values(|b: Vec<Constraint>| cons_view(b@))
}

pub open spec fn env_view(env: Seq<(String, i64)>) -> EnvV {
    env.map_values(|p: (String, i64)| (p.0@, p.1 as int))
}

pub open spec fn opt_int(o: Option<i64>) -> Option<int> {
    match o {
        Some(v) => Some(v as int),
        None => None,
    }
}

pub open spec fn bounds_view(b: Seq<(String, Option<i64>, Option<i64>)>) -> BoundsV {
    b.map_values(|p: (String, Option<i64>, Option<i64>)| (p.0@, opt_int(p.1), opt_int(p.2)))
}

pub open spec fn opt_bounds_view(b: Option<&VarBounds>) -> Option<BoundsV> {
    match b {
        Some(v) => Some(bounds_view(v@)),
        None => None,
    }
}

pub open spec fn opt_str_view(o: Option<&str>) -> Option<Seq<char>> {
    match o {
        Some(s) => Some(s@),
        None => None,
    }
}

// ---------------------------------------------------------------------------
// Naming
// ---------------------------------------------------------------------------

/// `base.field` in the pre-state, `base.field'` in the post-state.
pub open spec fn field_name(base: Seq<char>, field: Seq<char>, post: bool) -> Seq<char> {
    if post {
        base + seq!['.'] + field + seq!['\'']
    } else {
        base + seq!['.'] + field
    }
}

/// The value a name is bound to in `env`, outermost binding first.
pub open spec fn env_lookup(env: EnvV, v: Seq<char>) -> Option<int>
    decreases env.len(),
{
    if env.len() == 0 {
        None
    } else if env[0].0 == v {
        Some(env[0].1)
    } else {
        env_lookup(env.drop_first(), v)
    }
}

/// The integer an expression stands for when it is a literal or a bound
/// quantifier variable.
pub open spec fn int_of(e: Expr, env: EnvV) -> Option<int> {
    match e {
        Expr::Int(n) => Some(n as int),
        Expr::Var(v) => env_lookup(env, v@),
        _ => None,
    }
}

/// The variable name a bare variable or field access resolves to.
pub open spec fn name_of(e: Expr, post: bool, inst: Option<Seq<char>>, env: EnvV) -> Option<Seq<char>> {
    match e {
        Expr::Var(v) => if env_lookup(env, v@) is Some {
            None
        } else {
            match inst {
                Some(b) => Some(field_name(b, v@, post)),
                None => Some(v@),
            }
        },
        Expr::Field { base, field } => Some(field_name(base@, field@, post)),
        _ => None,
    }
}

// ---------------------------------------------------------------------------
// Arithmetic on linear forms
// ---------------------------------------------------------------------------

pub open spec fn var_lin(n: Seq<char>) -> LinV {
    (seq![(n, 1int)], 0)
}

pub open spec fn const_lin(k: int) -> LinV {
    (Seq::empty(), k)
}

pub open spec fn add_v(a: LinV, b: LinV) -> LinV {
    (nonzero_terms(merge_terms(a.0, b.0)), a.1 + b.1)
}

pub open spec fn add_ok(a: LinV, b: LinV) -> bool {
    merge_fits(a.0, b.0) && fits_i64(a.1 + b.1)
}

pub open spec fn neg_v(a: LinV) -> LinV {
    (negate_terms(a.0), -a.1)
}

pub open spec fn neg_ok(a: LinV) -> bool {
    &&& a.1 != i64::MIN
    &&& forall|i: int| 0 <= i < a.0.len() ==> #[trigger] a.0[i].1 != i64::MIN
}

pub open spec fn sub_v(a: LinV, b: LinV) -> LinV {
    add_v(a, neg_v(b))
}

pub open spec fn sub_ok(a: LinV, b: LinV) -> bool {
    neg_ok(b) && add_ok(a, neg_v(b))
}

pub open spec fn scale_v(a: LinV, k: int) -> LinV {
    (scale_terms(a.0, k), a.1 * k)
}

pub open spec fn scale_ok(a: LinV, k: int) -> bool {
    &&& fits_i64(a.1 * k)
    &&& forall|i: int| 0 <= i < a.0.len() ==> fits_i64(#[trigger] a.0[i].1 * k)
}

pub open spec fn div_terms(ts: Seq<(Seq<char>, int)>, k: int) -> Seq<(Seq<char>, int)> {
    ts.map_values(|p: (Seq<char>, int)| (p.0, p.1 / k))
}

pub open spec fn div_v(a: LinV, k: int) -> LinV {
    (div_terms(a.0, k), a.1 / k)
}

/// Every coefficient and the constant are multiples of `k`.
pub open spec fn divisible(a: LinV, k: int) -> bool {
    &&& k != 0
    &&& a.1 % k == 0
    &&& forall|i: int| 0 <= i < a.0.len() ==> #[trigger] a.0[i].1 % k == 0
}

pub open spec fn div_ok(a: LinV, k: int) -> bool {
    &&& divisible(a, k)
    &&& fits_i64(a.1 / k)
    &&& forall|i: int| 0 <= i < a.0.len() ==> fits_i64(#[trigger] a.0[i].1 / k)
}

/// `x` clamped into the `i64` range.
pub open spec fn sat_i64(x: int) -> int {
    if x > i64::MAX {
        i64::MAX as int
    } else if x < i64::MIN {
        i64::MIN as int
    } else {
        x
    }
}

pub open spec fn max4(a: int, b: int, c: int, d: int) -> int {
    let m1 = if a >= b { a } else { b };
    let m2 = if c >= d { c } else { d };
    if m1 >= m2 { m1 } else { m2 }
}

/// Bounds of `v`, falling back to the pre-state name for a post-state name.
pub open spec fn bound_entry(b: BoundsV, v: Seq<char>) -> Option<(Option<int>, Option<int>)>
    decreases b.len(),
{
    if b.len() == 0 {
        None
    } else if b[0].0 == v {
        Some((b[0].1, b[0].2))
    } else {
        bound_entry(b.drop_first(), v)
    }
}

pub open spec fn lookup_bounds(b: BoundsV, v: Seq<char>) -> Option<(Option<int>, Option<int>)> {
    match bound_entry(b, v) {
        Some(e) => Some(e),
        None => if v.len() > 0 && v.last() == '\'' {
            bound_entry(b, v.drop_last())
        } else {
            None
        },
    }
}

/// The worst-case product of two variables with known two-sided bounds.
pub open spec fn product_bound(lhs: Expr, rhs: Expr, post: bool, inst: Option<Seq<char>>, env: EnvV, b: BoundsV) -> Option<int> {
    match (name_of(lhs, post, inst, env), name_of(rhs, post, inst, env)) {
        (Some(a), Some(c)) => match (lookup_bounds(b, a), lookup_bounds(b, c)) {
            (Some((Some(alo), Some(ahi))), Some((Some(clo), Some(chi)))) => Some(max4(
                sat_i64(alo * clo),
                sat_i64(alo * chi),
                sat_i64(ahi * clo),
                sat_i64(ahi * chi),
            )),
            _ => None,
        },
        _ => None,
    }
}

/// `x * y` lies below the larger of the products of the ends of `x`'s
/// interval with `y`.
proof fn lemma_product_endpoint(x: int, lo: int, hi: int, y: int)
    requires
        lo <= x <= hi,
    ensures
        x * y <= lo * y || x * y <= hi * y,
{
    if y >= 0 {
        assert(x * y <= hi * y) by (nonlinear_arith) requires x <= hi, y >= 0;
    } else {
        assert(x * y <= lo * y) by (nonlinear_arith) requires lo <= x, y < 0;
    }
}

/// The bound a product of two bounded variables is replaced by is an upper
/// bound of that product over the whole box of their bounds (clamped into
/// `i64`, as the bound is), and it is reached at a corner of the box: no
/// smaller number bounds every product in it.
pub proof fn lemma_product_bound_tight(
    lhs: Expr,
    rhs: Expr,
    post: bool,
    inst: Option<Seq<char>>,
    env: EnvV,
    b: BoundsV,
    alo: int,
    ahi: int,
    clo: int,
    chi: int,
    x: int,
    y: int,
)
    requires
        name_of(lhs, post, inst, env) matches Some(a) && lookup_bounds(b, a) == Some((Some(alo), Some(ahi))),
        name_of(rhs, post, inst, env) matches Some(c) && lookup_bounds(b, c) == Some((Some(clo), Some(chi))),
        alo <= x <= ahi,
        clo <= y <= chi,
    ensures
        product_bound(lhs, rhs, post, inst, env, b) matches Some(k) && sat_i64(x * y) <= k
            && exists|p: int, q: int| (p == alo || p == ahi) && (q == clo || q == chi) && #[trigger] sat_i64(p * q) == k,
{
    let k = max4(sat_i64(alo * clo), sat_i64(alo * chi), sat_i64(ahi * clo), sat_i64(ahi * chi));
    lemma_product_endpoint(x, alo, ahi, y);
    lemma_product_endpoint(y, clo, chi, alo);
    lemma_product_endpoint(y, clo, chi, ahi);
    assert(alo * y == y * alo && ahi * y == y * ahi) by (nonlinear_arith);
    assert(clo * alo == alo * clo && chi * alo == alo * chi && clo * ahi == ahi * clo && chi * ahi == ahi * chi)
        by (nonlinear_arith);
    assert(x * y <= alo * clo || x * y <= alo * chi || x * y <= ahi * clo || x * y <= ahi * chi);
    if sat_i64(alo * clo) == k {
        assert(sat_i64(alo * clo) == k);
    } else if sat_i64(alo * chi) == k {
        assert(sat_i64(alo * chi) == k);
    } else if sat_i64(ahi * clo) == k {
        assert(sat_i64(ahi * clo) == k);
    } else {
        assert(sat_i64(ahi * chi) == k);
    }
}

/// The linear form of `lhs op rhs` from those of its operands.
pub open spec fn bin_form(
    op: BinOp,
    lhs: Expr,
    rhs: Expr,
    x: (LinV, bool),
    y: (LinV, bool),
    post: bool,
    inst: Option<Seq<char>>,
    env: EnvV,
    bd: Option<BoundsV>,
) -> Option<(LinV, bool)> {
    let (a, fa) = x;
    let (b, fb) = y;
    let f = fa || fb;
    match op {
        BinOp::Add => if add_ok(a, b) { Some((add_v(a, b), f)) } else { None },
        BinOp::Sub => if sub_ok(a, b) { Some((sub_v(a, b), f)) } else { None },
        BinOp::Mul => match int_of(rhs, env) {
            Some(k) => if scale_ok(a, k) { Some((scale_v(a, k), f)) } else { None },
            None => match int_of(lhs, env) {
                Some(k) => if scale_ok(b, k) { Some((scale_v(b, k), f)) } else { None },
                None => match bd {
                    Some(bv) => match product_bound(lhs, rhs, post, inst, env, bv) {
                        Some(p) => Some((const_lin(p), true)),
                        None => None,
                    },
                    None => None,
                },
            },
        },
        BinOp::Div => match int_of(rhs, env) {
            Some(k) => if div_ok(a, k) { Some((div_v(a, k), f)) } else { None },
            None => None,
        },
        _ => None,
    }
}

// ---------------------------------------------------------------------------
// The linear form of an expression
// ---------------------------------------------------------------------------

/// The linear form of `e`, and whether an interval bound stood in for a
/// product. `None` when `e` is not linear (or, with `bd`, not boundable),
/// divides inexactly or by zero, or an intermediate coefficient leaves `i64`.
pub open spec fn lin_form(e: Expr, post: bool, inst: Option<Seq<char>>, env: EnvV, bd: Option<BoundsV>) -> Option<(LinV, bool)>
    decreases e,
{
    match e {
        Expr::Int(n) => Some((const_lin(n as int), false)),
        Expr::Var(v) => match env_lookup(env, v@) {
            Some(k) => Some((const_lin(k), false)),
            None => match inst {
                Some(b) => Some((var_lin(field_name(b, v@, post)), false)),
                None => Some((var_lin(v@), false)),
            },
        },
        Expr::Field { base, field } => Some((var_lin(field_name(base@, field@, post)), false)),
        Expr::Old(inner) => lin_form(*inner, false, None, env, bd),
        Expr::Unary { op, expr } => match lin_form(*expr, post, inst, env, bd) {
            Some((a, f)) => if neg_ok(a) { Some((neg_v(a), f)) } else { None },
            None => None,
        },
        Expr::Bin { op, lhs, rhs } => match (lin_form(*lhs, post, inst, env, bd), lin_form(*rhs, post, inst, env, bd)) {
            (Some(x), Some(y)) => bin_form(op, *lhs, *rhs, x, y, post, inst, env, bd),
            _ => None,
        },
        Expr::Index(ix) => match *ix.index {
            Expr::Int(idx) => match *ix.receiver {
                Expr::Field { base, field } => Some((var_lin(field_name(base@, int_text(idx as int), post)), false)),
                Expr::Var(name) => Some((var_lin(name@ + seq!['.'] + int_text(idx as int)), false)),
                _ => None,
            },
            _ => None,
        },
        _ => None,
    }
}

// ---------------------------------------------------------------------------
// Boolean structure: conjunctions and disjunctive normal form
// ---------------------------------------------------------------------------

pub open spec fn rel_of(op: BinOp) -> Option<Relation> {
    match op {
        BinOp::Eq => Some(Relation::Eq),
        BinOp::Ne => Some(Relation::Ne),
        BinOp::Lt => Some(Relation::Lt),
        BinOp::Le => Some(Relation::Le),
        BinOp::Gt => Some(Relation::Gt),
        BinOp::Ge => Some(Relation::Ge),
        _ => None,
    }
}

/// A comparison `lhs op rhs` lowered to `lhs - rhs op 0`.
pub open spec fn atom_form(e: Expr, post: bool, inst: Option<Seq<char>>, env: EnvV, bd: Option<BoundsV>) -> Option<(ConV, bool)> {
    match e {
        Expr::Bin { op, lhs, rhs } => match rel_of(op) {
            Some(rel) => match (lin_form(*lhs, post, inst, env, bd), lin_form(*rhs, post, inst, env, bd)) {
                (Some((a, fa)), Some((b, fb))) => if sub_ok(a, b) {
                    Some(((sub_v(a, b), rel), fa || fb))
                } else {
                    None
                },
                _ => None,
            },
            None => None,
        },
        _ => None,
    }
}

/// Every branch of `a` joined with every branch of `b`, `a` outermost.
pub open spec fn combine(a: Seq<Seq<ConV>>, b: Seq<Seq<ConV>>) -> Seq<Seq<ConV>>
    decreases a.len(),
{
    if a.len() == 0 {
        Seq::empty()
    } else {
        combine(a.drop_last(), b) + b.map_values(|bj: Seq<ConV>| a.last() + bj)
    }
}

/// A conjunction of comparisons (`&&` only), as a list of constraints.
pub open spec fn conj_form(e: Expr, post: bool, inst: Option<Seq<char>>, env: EnvV, bd: Option<BoundsV>) -> Option<(Seq<ConV>, bool)>
    decreases e,
{
    match e {
        Expr::Bin { op, lhs, rhs } => if op == BinOp::And {
            match (conj_form(*lhs, post, inst, env, bd), conj_form(*rhs, post, inst, env, bd)) {
                (Some((a, fa)), Some((b, fb))) => Some((a + b, fa || fb)),
                _ => None,
            }
        } else {
            match atom_form(e, post, inst, env, bd) {
                Some((c, f)) => Some((seq![c], f)),
                None => None,
            }
        },
        _ => None,
    }
}

/// `&&`, `||` and comparisons, in disjunctive normal form.
pub open spec fn dnf_simple(e: Expr, post: bool, inst: Option<Seq<char>>, env: EnvV, bd: Option<BoundsV>) -> Option<(Seq<Seq<ConV>>, bool)>
    decreases e,
{
    match e {
        Expr::Bin { op, lhs, rhs } => if op == BinOp::Or || op == BinOp::And {
            match (dnf_simple(*lhs, post, inst, env, bd), dnf_simple(*rhs, post, inst, env, bd)) {
                (Some((a, fa)), Some((b, fb))) => Some((if op == BinOp::Or { a + b } else { combine(a, b) }, fa || fb)),
                _ => None,
            }
        } else {
            match atom_form(e, post, inst, env, bd) {
                Some((c, f)) => Some((seq![seq![c]], f)),
                None => None,
            }
        },
        _ => None,
    }
}

/// Rust's truncating division.
pub open spec fn tdiv(x: int, d: int) -> int {
    if x >= 0 {
        if d > 0 { x / d } else { -(x / (-d)) }
    } else {
        if d > 0 { -((-x) / d) } else { (-x) / (-d) }
    }
}

/// The value of a constant expression (literals, bound quantifier
/// variables, `-`, `+`, `-`, `*`, `/`), when every step stays in `i64`.
pub open spec fn const_value(e: Expr, env: EnvV) -> Option<int>
    decreases e,
{
    match e {
        Expr::Int(n) => Some(n as int),
        Expr::Var(v) => env_lookup(env, v@),
        Expr::Unary { op, expr } => match const_value(*expr, env) {
            Some(v) => if fits_i64(-v) { Some(-v) } else { None },
            None => None,
        },
        Expr::Bin { op, lhs, rhs } => match (const_value(*lhs, env), const_value(*rhs, env)) {
            (Some(l), Some(r)) => {
                let v = match op {
                    BinOp::Add => Some(l + r),
                    BinOp::Sub => Some(l - r),
                    BinOp::Mul => Some(l * r),
                    BinOp::Div => if r == 0 { None } else { Some(tdiv(l, r)) },
                    _ => None,
                };
                match v {
                    Some(x) => if fits_i64(x) { Some(x) } else { None },
                    None => None,
                }
            },
            _ => None,
        },
        _ => None,
    }
}

/// The constant bounds of a `lo..hi` domain.
pub open spec fn range_of(d: Expr, env: EnvV) -> Option<(int, int)> {
    match d {
        Expr::Range { lo, hi } => match (const_value(*lo, env), const_value(*hi, env)) {
            (Some(l), Some(h)) => Some((l, h)),
            _ => None,
        },
        _ => None,
    }
}

/// The negation of a conjunction: one branch per constraint and per
/// relation of that constraint's negation.
pub open spec fn negate_branch(b: Seq<ConV>) -> Seq<Seq<ConV>>
    decreases b.len(),
{
    if b.len() == 0 {
        Seq::empty()
    } else {
        negate_branch(b.drop_last())
            + crate::solver::negation(b.last().1).map_values(|r: Relation| seq![(b.last().0, r)])
    }
}

/// The negation of a disjunctive normal form, again in disjunctive normal
/// form: the conjunction of the negations of its branches.
pub open spec fn negate_dnf(d: Seq<Seq<ConV>>) -> Seq<Seq<ConV>>
    decreases d.len(),
{
    if d.len() == 0 {
        seq![Seq::empty()]
    } else {
        combine(negate_dnf(d.drop_last()), negate_branch(d.last()))
    }
}

/// The full lowering of a boolean expression into disjunctive normal form:
/// `||` joins branch lists, `&&` combines them, `if c { a } else { b }`
/// becomes `(c && a) || (!c && b)`, a `match` the union of its arms, and a
/// `forall` over a constant range the conjunction of its instances.
pub open spec fn dnf_form(e: Expr, post: bool, inst: Option<Seq<char>>, env: EnvV) -> Option<Seq<Seq<ConV>>>
    decreases e, 0nat, 0nat,
{
    match e {
        Expr::Bin { op, lhs, rhs } => if op == BinOp::Or || op == BinOp::And {
            match (dnf_form(*lhs, post, inst, env), dnf_form(*rhs, post, inst, env)) {
                (Some(a), Some(b)) => Some(if op == BinOp::Or { a + b } else { combine(a, b) }),
                _ => None,
            }
        } else {
            match atom_form(e, post, inst, env, None) {
                Some((c, _)) => Some(seq![seq![c]]),
                None => None,
            }
        },
        Expr::If(i) => match (
            dnf_form(*i.condition, post, None, Seq::empty()),
            dnf_form(*i.then_expr, post, None, Seq::empty()),
            dnf_form(*i.else_expr, post, None, Seq::empty()),
        ) {
            (Some(c), Some(t), Some(f)) => Some(combine(c, t) + combine(negate_dnf(c), f)),
            _ => None,
        },
        Expr::Match(mx) => match arms_form(mx.arms@, post, mx.arms@.len()) {
            Some(out) => Some(if out.len() == 0 { seq![Seq::empty()] } else { out }),
            None => None,
        },
        Expr::Forall(f) => match f.domain {
            Some(d) => match range_of(*d, env) {
                Some((lo, hi)) => if lo >= hi {
                    Some(seq![Seq::empty()])
                } else {
                    unroll_form(*f.body, f.var@, post, env, lo, (hi - lo) as nat)
                },
                None => None,
            },
            None => None,
        },
        Expr::Aggregate(a) => if a.args@.len() == 1 {
            match a.args@[0] {
                Expr::Forall(f) => match f.domain {
                    Some(d) => match range_of(*d, env) {
                        Some((lo, hi)) => if lo >= hi { Some(seq![Seq::empty()]) } else { None },
                        None => None,
                    },
                    None => None,
                },
                _ => None,
            }
        } else {
            None
        },
        _ => None,
    }
}

/// The branches of the first `n` arms of a `match`, concatenated.
pub open spec fn arms_form(arms: Seq<crate::ast::ExprMatchArm>, post: bool, n: nat) -> Option<Seq<Seq<ConV>>>
    decreases arms, 1nat, n,
{
    if n == 0 || n > arms.len() {
        if n == 0 { Some(Seq::empty()) } else { None }
    } else {
        match (arms_form(arms, post, (n - 1) as nat), dnf_form(arms[n - 1].expr, post, None, Seq::empty())) {
            (Some(a), Some(b)) => Some(a + b),
            _ => None,
        }
    }
}

/// The conjunction of the first `n` instances `lo, lo + 1, ...` of a
/// quantifier body.
pub open spec fn unroll_form(body: Expr, var: Seq<char>, post: bool, env: EnvV, lo: int, n: nat) -> Option<Seq<Seq<ConV>>>
    decreases body, 1nat, n,
{
    if n == 0 {
        Some(seq![Seq::empty()])
    } else {
        match (unroll_form(body, var, post, env, lo, (n - 1) as nat), dnf_form(body, post, None, env.push((var, lo + n - 1)))) {
            (Some(acc), Some(br)) => Some(combine(acc, br)),
            _ => None,
        }
    }
}

// ---------------------------------------------------------------------------
// Referenced fields and variables
// ---------------------------------------------------------------------------

/// Every `(base, field)` an expression reads.
pub open spec fn expr_fields(e: Expr) -> Set<(Seq<char>, Seq<char>)>
    decreases e, 0nat, 0nat,
{
    match e {
        Expr::Field { base, field } => set![(base@, field@)],
        Expr::Old(x) => expr_fields(*x),
        Expr::Unary { op, expr } => expr_fields(*expr),
        Expr::Bin { op, lhs, rhs } => expr_fields(*lhs) + expr_fields(*rhs),
        Expr::Index(ix) => expr_fields(*ix.receiver) + expr_fields(*ix.index),
        Expr::Call(c) => list_fields(c.args@, c.args@.len()),
        Expr::MethodCall(mc) => expr_fields(*mc.receiver) + list_fields(mc.args@, mc.args@.len()),
        Expr::If(i) => expr_fields(*i.condition) + expr_fields(*i.then_expr) + expr_fields(*i.else_expr),
        Expr::Match(mx) => expr_fields(*mx.scrutinee) + arm_fields(mx.arms@, mx.arms@.len()),
        _ => Set::empty(),
    }
}

pub open spec fn list_fields(es: Seq<Expr>, n: nat) -> Set<(Seq<char>, Seq<char>)>
    decreases es, 1nat, n,
{
    if n == 0 || n > es.len() {
        Set::empty()
    } else {
        list_fields(es, (n - 1) as nat) + expr_fields(es[n - 1])
    }
}

pub open spec fn arm_fields(arms: Seq<crate::ast::ExprMatchArm>, n: nat) -> Set<(Seq<char>, Seq<char>)>
    decreases arms, 1nat, n,
{
    if n == 0 || n > arms.len() {
        Set::empty()
    } else {
        arm_fields(arms, (n - 1) as nat) + expr_fields(arms[n - 1].expr)
    }
}

/// Every bare variable name an expression reads.
pub open spec fn expr_vars(e: Expr) -> Set<Seq<char>>
    decreases e, 0nat, 0nat,
{
    match e {
        Expr::Var(v) => set![v@],
        Expr::Old(x) => expr_vars(*x),
        Expr::Unary { op, expr } => expr_vars(*expr),
        Expr::Bin { op, lhs, rhs } => expr_vars(*lhs) + expr_vars(*rhs),
        Expr::Index(ix) => expr_vars(*ix.receiver) + expr_vars(*ix.index),
        Expr::Call(c) => list_vars(c.args@, c.args@.len()),
        Expr::MethodCall(mc) => expr_vars(*mc.receiver) + list_vars(mc.args@, mc.args@.len()),
        Expr::If(i) => expr_vars(*i.condition) + expr_vars(*i.then_expr) + expr_vars(*i.else_expr),
        Expr::Match(mx) => expr_vars(*mx.scrutinee) + arm_vars(mx.arms@, mx.arms@.len()),
        _ => Set::empty(),
    }
}

pub open spec fn list_vars(es: Seq<Expr>, n: nat) -> Set<Seq<char>>
    decreases es, 1nat, n,
{
    if n == 0 || n > es.len() {
        Set::empty()
    } else {
        list_vars(es, (n - 1) as nat) + expr_vars(es[n - 1])
    }
}

pub open spec fn arm_vars(arms: Seq<crate::ast::ExprMatchArm>, n: nat) -> Set<Seq<char>>
    decreases arms, 1nat, n,
{
    if n == 0 || n > arms.len() {
        Set::empty()
    } else {
        arm_vars(arms, (n - 1) as nat) + expr_vars(arms[n - 1].expr)
    }
}

// ---------------------------------------------------------------------------
// Verification problems of a function
// ---------------------------------------------------------------------------

/// A conclusion: constraint, `is_ensures`, `is_approximation`, location,
/// `or_group`.
pub type ConclV = (ConV, bool, bool, Span, Option<usize>, Seq<char>);

/// A problem: function name, its span, premises, conclusions.
pub type ProblemV = (Seq<char>, Span, Seq<ConV>, Seq<ConclV>);

pub open spec fn concl_view(c: Conclusion) -> ConclV {
    (con_view(c.constraint), c.is_ensures, c.is_approximation, c.location, c.or_group, c.description@)
}

pub open spec fn concls_view(cs: Seq<Conclusion>) -> Seq<ConclV> {
    cs.map_values(|c: Conclusion| concl_view(c))
}

pub open spec fn problem_view(p: VerificationProblem) -> ProblemV {
    (p.func_name@, p.func_span, cons_view(p.premises@), concls_view(p.conclusions@))
}

pub open spec fn problems_view(ps: Seq<VerificationProblem>) -> Seq<ProblemV> {
    ps.map_values(|p: VerificationProblem| problem_view(p))
}

/// The invariants declared by a list of items, in order.
pub open spec fn item_invs(items: Seq<Item>) -> Seq<Invariant>
    decreases items.len(),
{
    if items.len() == 0 {
        Seq::empty()
    } else {
        item_invs(items.drop_last()) + match items.last() {
            Item::Invariant(inv) => seq![inv],
            _ => Seq::empty(),
        }
    }
}

/// The invariants of all modules, in order.
pub open spec fn all_invs(mods: Seq<Module>) -> Seq<Invariant>
    decreases mods.len(),
{
    if mods.len() == 0 {
        Seq::empty()
    } else {
        all_invs(mods.drop_last()) + item_invs(mods.last().items@)
    }
}

/// The functions declared by a list of items, in order.
pub open spec fn item_funcs(items: Seq<Item>) -> Seq<Func>
    decreases items.len(),
{
    if items.len() == 0 {
        Seq::empty()
    } else {
        item_funcs(items.drop_last()) + match items.last() {
            Item::Func(f) => seq![f],
            _ => Seq::empty(),
        }
    }
}

pub open spec fn all_funcs(mods: Seq<Module>) -> Seq<Func>
    decreases mods.len(),
{
    if mods.len() == 0 {
        Seq::empty()
    } else {
        all_funcs(mods.drop_last()) + item_funcs(mods.last().items@)
    }
}

/// The invariant a type name refers to: the last one declared by that name.
pub open spec fn inv_for(invs: Seq<Invariant>, name: Seq<char>) -> Option<Invariant>
    decreases invs.len(),
{
    if invs.len() == 0 {
        None
    } else if invs.last().name@ == name {
        Some(invs.last())
    } else {
        inv_for(invs.drop_last(), name)
    }
}

/// The fields of an invariant-bearing type: the bare variables used by every
/// invariant declared by that name.
pub open spec fn inv_fields(invs: Seq<Invariant>, name: Seq<char>) -> Set<Seq<char>>
    decreases invs.len(),
{
    if invs.len() == 0 {
        Set::empty()
    } else {
        inv_fields(invs.drop_last(), name) + if invs.last().name@ == name {
            list_vars(invs.last().constraints@, invs.last().constraints@.len())
        } else {
            Set::empty()
        }
    }
}

pub open spec fn is_positive_type(n: Seq<char>) -> bool {
    "Positive"@.len() <= n.len() && n.take("Positive"@.len() as int) == "Positive"@
}

/// `x >= 1` for every parameter of a `Positive*` type.
pub open spec fn type_cons(ps: Seq<crate::ast::Param>) -> Seq<ConV>
    decreases ps.len(),
{
    if ps.len() == 0 {
        Seq::empty()
    } else {
        type_cons(ps.drop_last()) + if is_positive_type(type_name_spec(ps.last().ty)) {
            seq![(sub_v(var_lin(ps.last().name@), const_lin(1)), Relation::Ge)]
        } else {
            Seq::empty()
        }
    }
}

/// A clause that must lower to a single conjunction.
pub open spec fn single_form(e: Expr, post: bool, inst: Option<Seq<char>>, env: EnvV) -> Option<Seq<ConV>> {
    match dnf_form(e, post, inst, env) {
        Some(d) => if d.len() == 1 { Some(d[0]) } else { None },
        None => None,
    }
}

/// The first `n` invariant clauses, specialised for binding `pname`, in the
/// pre-state.
pub open spec fn clauses_form(cs: Seq<Expr>, pname: Seq<char>, n: nat) -> Option<Seq<ConV>>
    decreases n,
{
    if n == 0 || n > cs.len() {
        if n == 0 { Some(Seq::empty()) } else { None }
    } else {
        match (clauses_form(cs, pname, (n - 1) as nat), single_form(cs[n - 1], false, Some(pname), Seq::empty())) {
            (Some(a), Some(b)) => Some(a + b),
            _ => None,
        }
    }
}

/// Entry invariants of the parameters whose type has one.
pub open spec fn inv_cons(ps: Seq<crate::ast::Param>, invs: Seq<Invariant>) -> Option<Seq<ConV>>
    decreases ps.len(),
{
    if ps.len() == 0 {
        Some(Seq::empty())
    } else {
        match inv_cons(ps.drop_last(), invs) {
            Some(a) => match inv_for(invs, type_name_spec(ps.last().ty)) {
                Some(inv) => match clauses_form(inv.constraints@, ps.last().name@, inv.constraints@.len()) {
                    Some(b) => Some(a + b),
                    None => None,
                },
                None => Some(a),
            },
            None => None,
        }
    }
}

/// The equality an assignment to a field defines for its post-state name.
pub open spec fn assign_form(a: Assign) -> Option<ConV> {
    match a.target {
        Expr::Field { base, field } => match lin_form(a.value, false, None, Seq::empty(), None) {
            Some((v, _)) => {
                let post = var_lin(field_name(base@, field@, true));
                let pre = var_lin(field_name(base@, field@, false));
                match a.op {
                    AssignOp::Plain => if sub_ok(post, v) { Some((sub_v(post, v), Relation::Eq)) } else { None },
                    AssignOp::Add => if sub_ok(post, pre) && sub_ok(sub_v(post, pre), v) {
                        Some((sub_v(sub_v(post, pre), v), Relation::Eq))
                    } else {
                        None
                    },
                    AssignOp::Sub => if sub_ok(post, pre) && add_ok(sub_v(post, pre), v) {
                        Some((add_v(sub_v(post, pre), v), Relation::Eq))
                    } else {
                        None
                    },
                }
            },
            None => None,
        },
        _ => None,
    }
}

pub open spec fn assigns_form(asg: Seq<Assign>, n: nat) -> Option<Seq<ConV>>
    decreases n,
{
    if n == 0 || n > asg.len() {
        if n == 0 { Some(Seq::empty()) } else { None }
    } else {
        match (assigns_form(asg, (n - 1) as nat), assign_form(asg[n - 1])) {
            (Some(a), Some(c)) => Some(a.push(c)),
            _ => None,
        }
    }
}

/// The equalities defined by the body's assignments. A bare assignment
/// contributes its equality twice.
pub open spec fn mut_cons(body: Seq<Stmt>) -> Option<Seq<ConV>>
    decreases body.len(),
{
    if body.len() == 0 {
        Some(Seq::empty())
    } else {
        match mut_cons(body.drop_last()) {
            Some(a) => match body.last() {
                Stmt::MutateState(asg) => match assigns_form(asg@, asg@.len()) {
                    Some(b) => Some(a + b),
                    None => None,
                },
                Stmt::Assign(x) => match assign_form(x) {
                    Some(c) => Some(a + seq![c, c]),
                    None => None,
                },
                _ => Some(a),
            },
            None => None,
        }
    }
}

pub open spec fn assign_target(a: Assign) -> Set<(Seq<char>, Seq<char>)> {
    match a.target {
        Expr::Field { base, field } => set![(base@, field@)],
        _ => Set::empty(),
    }
}

pub open spec fn stmt_assigns(st: Stmt) -> Seq<Assign> {
    match st {
        Stmt::MutateState(asg) => asg@,
        Stmt::Assign(x) => seq![x],
        _ => Seq::empty(),
    }
}

/// Fields read by the values of, or written by, the first `n` assignments.
pub open spec fn assigns_fields(asg: Seq<Assign>, n: nat) -> Set<(Seq<char>, Seq<char>)>
    decreases n,
{
    if n == 0 || n > asg.len() {
        Set::empty()
    } else {
        assigns_fields(asg, (n - 1) as nat) + expr_fields(asg[n - 1].value) + assign_target(asg[n - 1])
    }
}

/// Fields written by the first `n` assignments.
pub open spec fn assigns_targets(asg: Seq<Assign>, n: nat) -> Set<(Seq<char>, Seq<char>)>
    decreases n,
{
    if n == 0 || n > asg.len() {
        Set::empty()
    } else {
        assigns_targets(asg, (n - 1) as nat) + assign_target(asg[n - 1])
    }
}

/// Fields the body assigns.
pub open spec fn assigned(body: Seq<Stmt>) -> Set<(Seq<char>, Seq<char>)>
    decreases body.len(),
{
    if body.len() == 0 {
        Set::empty()
    } else {
        assigned(body.drop_last()) + assigns_targets(stmt_assigns(body.last()), stmt_assigns(body.last()).len())
    }
}

/// Fields the body reads or writes.
pub open spec fn body_fields(body: Seq<Stmt>) -> Set<(Seq<char>, Seq<char>)>
    decreases body.len(),
{
    if body.len() == 0 {
        Set::empty()
    } else {
        body_fields(body.drop_last()) + assigns_fields(stmt_assigns(body.last()), stmt_assigns(body.last()).len())
    }
}

pub open spec fn with_base(base: Seq<char>, fields: Set<Seq<char>>) -> Set<(Seq<char>, Seq<char>)> {
    fields.map(|v: Seq<char>| (base, v))
}

/// `(param, field)` for every field of every invariant-bearing parameter.
pub open spec fn param_fields(ps: Seq<crate::ast::Param>, invs: Seq<Invariant>) -> Set<(Seq<char>, Seq<char>)>
    decreases ps.len(),
{
    if ps.len() == 0 {
        Set::empty()
    } else {
        param_fields(ps.drop_last(), invs) + with_base(ps.last().name@, inv_fields(invs, type_name_spec(ps.last().ty)))
    }
}

/// The function with its body replaced by `body`.
pub open spec fn with_body(f: Func, body: Vec<Stmt>) -> Func {
    Func { body, ..f }
}

/// Every field a function's contracts, body or invariant-bearing parameters
/// mention.
pub open spec fn referenced(f: Func, invs: Seq<Invariant>) -> Set<(Seq<char>, Seq<char>)> {
    list_fields(f.requires@, f.requires@.len()) + list_fields(f.ensures@, f.ensures@.len())
        + body_fields(f.body@) + param_fields(f.params@, invs)
}

/// `base.field' - base.field == 0`.
pub open spec fn frame_con(p: (Seq<char>, Seq<char>)) -> ConV {
    (sub_v(var_lin(field_name(p.0, p.1, true)), var_lin(field_name(p.0, p.1, false))), Relation::Eq)
}

pub open spec fn frames_of(fs: Seq<(Seq<char>, Seq<char>)>) -> Seq<ConV> {
    fs.map_values(|p: (Seq<char>, Seq<char>)| frame_con(p))
}

/// One frame equality for each referenced field that is not assigned.
pub open spec fn frames_ok(frames: Seq<ConV>, f: Func, invs: Seq<Invariant>) -> bool {
    exists|fs: Seq<(Seq<char>, Seq<char>)>|
        fs.no_duplicates() && fs.to_set() == referenced(f, invs).difference(assigned(f.body@))
        && frames == #[trigger] frames_of(fs)
}

/// The requires clauses combined into disjunctive normal form.
pub open spec fn req_form(reqs: Seq<Expr>, n: nat) -> Option<Seq<Seq<ConV>>>
    decreases n,
{
    if n == 0 || n > reqs.len() {
        if n == 0 { Some(seq![Seq::empty()]) } else { None }
    } else {
        match (req_form(reqs, (n - 1) as nat), dnf_form(reqs[n - 1], false, None, Seq::empty())) {
            (Some(a), Some(b)) => Some(combine(a, b)),
            _ => None,
        }
    }
}

pub open spec fn opt_max(o: Option<int>, x: int) -> int {
    match o {
        Some(e) => if e >= x { e } else { x },
        None => x,
    }
}

pub open spec fn opt_min(o: Option<int>, x: int) -> int {
    match o {
        Some(e) => if e <= x { e } else { x },
        None => x,
    }
}

/// The bounds read off a single-variable constraint are exact: under any
/// valuation the constraint holds exactly when its variable lies within
/// them.
pub proof fn lemma_bound_delta_exact(c: ConV, m: Valuation)
    requires
        bound_delta(c) is Some,
    ensures
        bound_delta(c) matches Some((v, lo, hi)) && (crate::solver::holds_v(c, m) <==> (
            (lo matches Some(l) ==> l <= m(v)) && (hi matches Some(h) ==> m(v) <= h))),
{
    let ts = c.0.0;
    assert(ts.drop_last().len() == 0);
    assert(eval_terms(ts.drop_last(), m) == 0);
    assert(eval_terms(ts, m) == ts[0].1 * m(ts[0].0));
    if ts[0].1 == -1 {
        assert(ts[0].1 * m(ts[0].0) == -m(ts[0].0));
    }
}

pub open spec fn opt_fits(o: Option<int>) -> bool {
    match o {
        Some(x) => fits_i64(x),
        None => true,
    }
}

/// The bounds a single-variable constraint with coefficient `1` or `-1`
/// gives its variable (integers: `x > c` is `x >= c + 1`).
pub open spec fn bound_delta(c: ConV) -> Option<(Seq<char>, Option<int>, Option<int>)> {
    if c.0.0.len() != 1 {
        None
    } else {
        let v = c.0.0[0].0;
        let a = c.0.0[0].1;
        let k = c.0.1;
        let d: Option<(Option<int>, Option<int>)> = if a == 1 {
            if !fits_i64(-k) {
                None
            } else {
                match c.1 {
                    Relation::Ge => Some((Some(-k), None)),
                    Relation::Gt => Some((Some(-k + 1), None)),
                    Relation::Le => Some((None, Some(-k))),
                    Relation::Lt => Some((None, Some(-k - 1))),
                    Relation::Eq => Some((Some(-k), Some(-k))),
                    Relation::Ne => None,
                }
            }
        } else if a == -1 {
            match c.1 {
                Relation::Ge => Some((None, Some(k))),
                Relation::Gt => Some((None, Some(k - 1))),
                Relation::Le => Some((Some(k), None)),
                Relation::Lt => Some((Some(k + 1), None)),
                _ => None,
            }
        } else {
            None
        };
        match d {
            Some((lo, hi)) => if opt_fits(lo) && opt_fits(hi) { Some((v, lo, hi)) } else { None },
            None => None,
        }
    }
}

/// Index of the entry for `v`.
pub open spec fn bound_idx(b: BoundsV, v: Seq<char>) -> Option<int>
    decreases b.len(),
{
    if b.len() == 0 {
        None
    } else if b[0].0 == v {
        Some(0)
    } else {
        match bound_idx(b.drop_first(), v) {
            Some(i) => Some(i + 1),
            None => None,
        }
    }
}

/// Tighten the entry for a variable with new bounds.
pub open spec fn bound_update(b: BoundsV, d: (Seq<char>, Option<int>, Option<int>)) -> BoundsV {
    let (v, lo, hi) = d;
    match bound_idx(b, v) {
        Some(i) => {
            let nlo = match lo { Some(l) => Some(opt_max(b[i].1, l)), None => b[i].1 };
            let nhi = match hi { Some(h) => Some(opt_min(b[i].2, h)), None => b[i].2 };
            b.update(i, (v, nlo, nhi))
        },
        None => b.push((v, lo, hi)),
    }
}

/// Per-variable bounds collected from a list of premises, in order.
pub open spec fn bounds_form(cs: Seq<ConV>) -> BoundsV
    decreases cs.len(),
{
    if cs.len() == 0 {
        Seq::empty()
    } else {
        match bound_delta(cs.last()) {
            Some(d) => bound_update(bounds_form(cs.drop_last()), d),
            None => bounds_form(cs.drop_last()),
        }
    }
}

pub open spec fn tag(cs: Seq<ConV>, ens: bool, f: bool, loc: Span, g: Option<usize>, d: Seq<char>) -> Seq<ConclV> {
    cs.map_values(|c: ConV| (c, ens, f, loc, g, d))
}

/// The description of the conclusions of branch `b` of `ensures e`, where
/// `p` is the rendering of `e`.
pub open spec fn branch_desc(p: Seq<char>, b: int) -> Seq<char> {
    "ensures: "@ + p + " [branch "@ + crate::text::nat_digits(b as nat) + seq![']']
}

/// The conclusions of the branches of a disjunctive `ensures` clause, each
/// branch described by its index.
pub open spec fn branch_tags(d: Seq<Seq<ConV>>, f: bool, loc: Span, g: usize, p: Seq<char>) -> Seq<ConclV>
    decreases d.len(),
{
    if d.len() == 0 {
        Seq::empty()
    } else {
        branch_tags(d.drop_last(), f, loc, g, p) + tag(d.last(), true, f, loc, Some(g), branch_desc(p, d.len() - 1))
    }
}

/// The conclusions of the first `n` ensures clauses, and the next free
/// `or_group`: a clause with one branch gives its constraints, one with
/// several gives the constraints of every branch, tagged with a shared group.
pub open spec fn ens_concls(es: Seq<Expr>, spans: Seq<Span>, fspan: Span, bd: BoundsV, n: nat) -> Option<(Seq<ConclV>, nat)>
    decreases n,
{
    if n == 0 || n > es.len() {
        if n == 0 { Some((Seq::empty(), 0)) } else { None }
    } else {
        match (ens_concls(es, spans, fspan, bd, (n - 1) as nat), dnf_simple(es[n - 1], true, None, Seq::empty(), Some(bd))) {
            (Some((prev, g)), Some((d, f))) => {
                let loc = if n - 1 < spans.len() { spans[n - 1] } else { fspan };
                if d.len() == 1 {
                    Some((prev + tag(d[0], true, f, loc, None, "ensures: "@ + crate::render::pretty_spec(es[n - 1])), g))
                } else {
                    Some((prev + branch_tags(d, f, loc, g as usize, crate::render::pretty_spec(es[n - 1])), g + 1))
                }
            },
            _ => None,
        }
    }
}

/// The post-state conclusions of the first `n` clauses of `inv` for binding
/// `pname`.
pub open spec fn inv_clause_concls(inv: Invariant, pname: Seq<char>, bd: BoundsV, n: nat) -> Option<Seq<ConclV>>
    decreases n,
{
    if n == 0 || n > inv.constraints@.len() {
        if n == 0 { Some(Seq::empty()) } else { None }
    } else {
        match (inv_clause_concls(inv, pname, bd, (n - 1) as nat), conj_form(inv.constraints@[n - 1], true, Some(pname), Seq::empty(), Some(bd))) {
            (Some(prev), Some((cs, f))) => {
                let loc = if n - 1 < inv.constraint_spans@.len() { inv.constraint_spans@[n - 1] } else { inv.span };
                Some(prev + tag(cs, false, f, loc, None,
                    "invariant "@ + inv.name@ + " maintained: "@ + pretty_inst_spec(inv.constraints@[n - 1], pname)))
            },
            _ => None,
        }
    }
}

/// Invariants that must hold again for every invariant-bearing parameter.
pub open spec fn inv_concls(ps: Seq<crate::ast::Param>, invs: Seq<Invariant>, bd: BoundsV) -> Option<Seq<ConclV>>
    decreases ps.len(),
{
    if ps.len() == 0 {
        Some(Seq::empty())
    } else {
        match inv_concls(ps.drop_last(), invs, bd) {
            Some(a) => match inv_for(invs, type_name_spec(ps.last().ty)) {
                Some(inv) => match inv_clause_concls(inv, ps.last().name@, bd, inv.constraints@.len()) {
                    Some(b) => Some(a + b),
                    None => None,
                },
                None => Some(a),
            },
            None => None,
        }
    }
}

/// All conclusions for one branch of premises.
pub open spec fn concls_form(f: Func, invs: Seq<Invariant>, premises: Seq<ConV>) -> Option<Seq<ConclV>> {
    let bd = bounds_form(premises);
    match (ens_concls(f.ensures@, f.ensures_spans@, f.span, bd, f.ensures@.len()), inv_concls(f.params@, invs, bd)) {
        (Some((a, _)), Some(b)) => Some(a + b),
        _ => None,
    }
}

/// The premises every branch shares: type constraints, entry invariants,
/// assignments, then the frame equalities.
pub open spec fn fixed_premises(f: Func, invs: Seq<Invariant>, frames: Seq<ConV>) -> Option<Seq<ConV>> {
    match (inv_cons(f.params@, invs), mut_cons(f.body@)) {
        (Some(ic), Some(mc)) => Some(type_cons(f.params@) + ic + mc + frames),
        _ => None,
    }
}

/// The name of branch `idx` of a function with `n` branches.
pub open spec fn branch_name(name: Seq<char>, idx: int, n: int) -> Seq<char> {
    if n == 1 {
        name
    } else {
        name + "[branch "@ + nat_text(idx as nat) + seq![']']
    }
}

pub open spec fn nat_text(n: nat) -> Seq<char> {
    crate::text::nat_digits(n)
}

/// The problems of the first `n` premise branches.
pub open spec fn branch_problems(f: Func, invs: Seq<Invariant>, branches: Seq<Seq<ConV>>, fixed: Seq<ConV>, n: nat) -> Option<Seq<ProblemV>>
    decreases n,
{
    if n == 0 || n > branches.len() {
        if n == 0 { Some(Seq::empty()) } else { None }
    } else {
        let prem = branches[n - 1] + fixed;
        match (branch_problems(f, invs, branches, fixed, (n - 1) as nat), concls_form(f, invs, prem)) {
            (Some(a), Some(cs)) => Some(a.push((branch_name(f.name@, n - 1, branches.len() as int), f.span, prem, cs))),
            _ => None,
        }
    }
}

/// The verification problems of a function, given its frame equalities.
pub open spec fn func_problems(f: Func, invs: Seq<Invariant>, frames: Seq<ConV>) -> Option<Seq<ProblemV>> {
    match (req_form(f.requires@, f.requires@.len()), fixed_premises(f, invs, frames)) {
        (Some(br), Some(fixed)) => branch_problems(f, invs, br, fixed, br.len()),
        _ => None,
    }
}

/// A function lowers without error (the frame equalities never decide it).
pub open spec fn func_ok(f: Func, invs: Seq<Invariant>) -> bool {
    func_problems(f, invs, Seq::empty()) is Some
}

/// The problems of a list of functions, given the frame equalities of each.
pub open spec fn funcs_problems(fs: Seq<Func>, invs: Seq<Invariant>, frames: Seq<Seq<ConV>>) -> Option<Seq<ProblemV>>
    decreases fs.len(),
{
    if fs.len() == 0 {
        Some(Seq::empty())
    } else {
        match (funcs_problems(fs.drop_last(), invs, frames.drop_last()), func_problems(fs.last(), invs, frames.last())) {
            (Some(a), Some(b)) => Some(a + b),
            _ => None,
        }
    }
}

pub open spec fn frames_all_ok(fs: Seq<Func>, invs: Seq<Invariant>, frames: Seq<Seq<ConV>>) -> bool {
    frames.len() == fs.len() && forall|k: int| 0 <= k < fs.len() ==> frames_ok(#[trigger] frames[k], fs[k], invs)
}

// ---------------------------------------------------------------------------
// Meaning
// ---------------------------------------------------------------------------

/// The value of a linear form under a valuation.
pub open spec fn eval_lin(v: LinV, m: Valuation) -> int {
    eval_terms(v.0, m) + v.1
}

/// The integer value of an arithmetic expression under a valuation, naming
/// variables as the lowering does.
pub open spec fn expr_value(e: Expr, post: bool, inst: Option<Seq<char>>, env: EnvV, m: Valuation) -> int
    decreases e,
{
    match e {
        Expr::Int(n) => n as int,
        Expr::Var(v) => match env_lookup(env, v@) {
            Some(k) => k,
            None => match inst {
                Some(b) => m(field_name(b, v@, post)),
                None => m(v@),
            },
        },
        Expr::Field { base, field } => m(field_name(base@, field@, post)),
        Expr::Old(inner) => expr_value(*inner, false, None, env, m),
        Expr::Unary { op, expr } => -expr_value(*expr, post, inst, env, m),
        Expr::Bin { op, lhs, rhs } => {
            let a = expr_value(*lhs, post, inst, env, m);
            let b = expr_value(*rhs, post, inst, env, m);
            match op {
                BinOp::Add => a + b,
                BinOp::Sub => a - b,
                BinOp::Mul => a * b,
                BinOp::Div => a / b,
                _ => 0,
            }
        },
        Expr::Index(ix) => match (*ix.index, *ix.receiver) {
            (Expr::Int(idx), Expr::Field { base, field }) => m(field_name(base@, int_text(idx as int), post)),
            (Expr::Int(idx), Expr::Var(name)) => m(name@ + seq!['.'] + int_text(idx as int)),
            _ => 0,
        },
        _ => 0,
    }
}

proof fn lemma_eval_atoms(n: Seq<char>, k: int, m: Valuation)
    ensures
        eval_lin(var_lin(n), m) == m(n),
        eval_lin(const_lin(k), m) == k,
{
    let e = Seq::<(Seq<char>, int)>::empty();
    assert(eval_terms(e, m) == 0);
    lemma_eval_push(e, (n, 1int), m);
    assert(e.push((n, 1int)) == seq![(n, 1int)]);
}

proof fn lemma_int_of_value(e: Expr, post: bool, inst: Option<Seq<char>>, env: EnvV, m: Valuation)
    ensures
        int_of(e, env) matches Some(k) ==> expr_value(e, post, inst, env, m) == k,
{
}

proof fn lemma_eval_div(ts: Seq<(Seq<char>, int)>, k: int, m: Valuation)
    requires
        k != 0,
        forall|i: int| 0 <= i < ts.len() ==> #[trigger] ts[i].1 % k == 0,
    ensures
        eval_terms(ts, m) == k * eval_terms(div_terms(ts, k), m),
    decreases ts.len(),
{
    if ts.len() > 0 {
        let init = ts.drop_last();
        assert forall|i: int| 0 <= i < init.len() implies #[trigger] init[i].1 % k == 0 by {
            assert(init[i] == ts[i]);
        }
        lemma_eval_div(init, k, m);
        assert(div_terms(ts, k).drop_last() == div_terms(init, k));
        let c = ts.last().1;
        let x = m(ts.last().0);
        let e0 = eval_terms(div_terms(init, k), m);
        assert(c % k == 0);
        assert(c == k * (c / k)) by (nonlinear_arith)
            requires k != 0, c % k == 0;
        assert(k * e0 + c * x == k * (e0 + (c / k) * x)) by (nonlinear_arith)
            requires c == k * (c / k);
    }
}

/// The linear form of an expression, when no interval bound stood in for a
/// product, has the expression's value under every valuation.
pub proof fn lemma_lin_form_meaning(e: Expr, post: bool, inst: Option<Seq<char>>, env: EnvV, bd: Option<BoundsV>, m: Valuation)
    requires
        lin_form(e, post, inst, env, bd) matches Some((_, f)) && !f,
    ensures
        eval_lin(lin_form(e, post, inst, env, bd).unwrap().0, m) == expr_value(e, post, inst, env, m),
    decreases e,
{
    let name = match e {
        Expr::Var(v) => match inst {
            Some(b) => field_name(b, v@, post),
            None => v@,
        },
        Expr::Field { base, field } => field_name(base@, field@, post),
        Expr::Index(ix) => match (*ix.index, *ix.receiver) {
            (Expr::Int(idx), Expr::Field { base, field }) => field_name(base@, int_text(idx as int), post),
            (Expr::Int(idx), Expr::Var(nm)) => nm@ + seq!['.'] + int_text(idx as int),
            _ => Seq::empty(),
        },
        _ => Seq::empty(),
    };
    let k = match e {
        Expr::Int(n) => n as int,
        Expr::Var(v) => match env_lookup(env, v@) {
            Some(k) => k,
            None => 0,
        },
        _ => 0,
    };
    lemma_eval_atoms(name, k, m);
    match e {
        Expr::Int(n) => {},
        Expr::Var(v) => {},
        Expr::Field { base, field } => {},
        Expr::Old(inner) => {
            lemma_lin_form_meaning(*inner, false, None, env, bd, m);
        },
        Expr::Unary { op, expr } => {
            lemma_lin_form_meaning(*expr, post, inst, env, bd, m);
            let a = lin_form(*expr, post, inst, env, bd).unwrap().0;
            lemma_eval_negate(a.0, m);
        },
        Expr::Bin { op, lhs, rhs } => {
            let (a, fa) = lin_form(*lhs, post, inst, env, bd).unwrap();
            let (b, fb) = lin_form(*rhs, post, inst, env, bd).unwrap();
            lemma_lin_form_meaning(*lhs, post, inst, env, bd, m);
            lemma_lin_form_meaning(*rhs, post, inst, env, bd, m);
            lemma_int_of_value(*lhs, post, inst, env, m);
            lemma_int_of_value(*rhs, post, inst, env, m);
            let va = expr_value(*lhs, post, inst, env, m);
            let vb = expr_value(*rhs, post, inst, env, m);
            match op {
                BinOp::Add => {
                    lemma_eval_nonzero(merge_terms(a.0, b.0), m);
                    lemma_eval_merge_terms(a.0, b.0, m);
                },
                BinOp::Sub => {
                    lemma_eval_nonzero(merge_terms(a.0, negate_terms(b.0)), m);
                    lemma_eval_merge_terms(a.0, negate_terms(b.0), m);
                    lemma_eval_negate(b.0, m);
                },
                BinOp::Mul => {
                    match int_of(*rhs, env) {
                        Some(k) => {
                            lemma_eval_scale(a.0, k, m);
                            let t = eval_terms(a.0, m);
                            assert(k * t + a.1 * k == (t + a.1) * k) by (nonlinear_arith);
                        },
                        None => {
                            let k = int_of(*lhs, env).unwrap();
                            lemma_eval_scale(b.0, k, m);
                            let t = eval_terms(b.0, m);
                            assert(k * t + b.1 * k == k * (t + b.1)) by (nonlinear_arith);
                        },
                    }
                },
                BinOp::Div => {
                    let k = int_of(*rhs, env).unwrap();
                    lemma_eval_div(a.0, k, m);
                    let q = eval_terms(div_terms(a.0, k), m);
                    let c = a.1;
                    assert(c == k * (c / k)) by (nonlinear_arith)
                        requires k != 0, c % k == 0;
                    assert((k * q + c) / k == q + c / k) by (nonlinear_arith)
                        requires k != 0, c == k * (c / k);
                },
                _ => {},
            }
        },
        Expr::Index(ix) => {},
        _ => {},
    }
}

// ---------------------------------------------------------------------------
// Executable naming helpers
// ---------------------------------------------------------------------------

fn field_name_exec(base: &str, field: &str, post: bool) -> (r: String)
    ensures
        r@ == field_name(base@, field@, post),
{
    let mut s = string_of(base);
    push_char(&mut s, '.');
    push_str(&mut s, field);
    if post {
        push_char(&mut s, '\'');
    }
    s
}

fn env_get(env: &Vec<(String, i64)>, v: &str) -> (r: Option<i64>)
    ensures
        opt_int(r) == env_lookup(env_view(env@), v@),
{
    let ghost ev = env_view(env@);
    assert(ev.subrange(0, ev.len() as int) == ev);
    let mut i: usize = 0;
    while i < env.len()
        invariant
            i <= env@.len(),
            ev == env_view(env@),
            env_lookup(ev, v@) == env_lookup(ev.subrange(i as int, ev.len() as int), v@),
        decreases env@.len() - i,
    {
        assert(ev.subrange(i as int, ev.len() as int).drop_first() == ev.subrange(i + 1, ev.len() as int));
        if str_eq(env[i].0.as_str(), v) {
            return Some(env[i].1);
        }
        i = i + 1;
    }
    None
}

fn int_of_exec(e: &Expr, env: &Vec<(String, i64)>) -> (r: Option<i64>)
    ensures
        opt_int(r) == int_of(*e, env_view(env@)),
{
    match e {
        Expr::Int(n) => Some(*n),
        Expr::Var(v) => env_get(env, v.as_str()),
        _ => None,
    }
}

fn name_of_exec(e: &Expr, post: bool, inst: Option<&str>, env: &Vec<(String, i64)>) -> (r: Option<String>)
    ensures
        match r {
            Some(s) => name_of(*e, post, opt_str_view(inst), env_view(env@)) == Some(s@),
            None => name_of(*e, post, opt_str_view(inst), env_view(env@)) is None,
        },
{
    match e {
        Expr::Var(v) => {
            if env_get(env, v.as_str()).is_some() {
                None
            } else {
                match inst {
                    Some(b) => Some(field_name_exec(b, v.as_str(), post)),
                    None => Some(copy_string(v)),
                }
            }
        },
        Expr::Field { base, field } => Some(field_name_exec(base.as_str(), field.as_str(), post)),
        _ => None,
    }
}

fn bound_entry_exec(b: &VarBounds, v: &str) -> (r: Option<(Option<i64>, Option<i64>)>)
    ensures
        match r {
            Some((lo, hi)) => bound_entry(bounds_view(b@), v@) == Some((opt_int(lo), opt_int(hi))),
            None => bound_entry(bounds_view(b@), v@) is None,
        },
{
    let ghost bv = bounds_view(b@);
    assert(bv.subrange(0, bv.len() as int) == bv);
    let mut i: usize = 0;
    while i < b.len()
        invariant
            i <= b@.len(),
            bv == bounds_view(b@),
            bound_entry(bv, v@) == bound_entry(bv.subrange(i as int, bv.len() as int), v@),
        decreases b@.len() - i,
    {
        assert(bv.subrange(i as int, bv.len() as int).drop_first() == bv.subrange(i + 1, bv.len() as int));
        if str_eq(b[i].0.as_str(), v) {
            return Some((b[i].1, b[i].2));
        }
        i = i + 1;
    }
    None
}

/// Look up bounds for `var`, falling back to the pre-state version when
/// `var` is a post-state name (ends with `'`). Frame axioms make pre-state
/// bounds valid for unmodified post-state variables.
fn lookup_bounds_exec(b: &VarBounds, v: &str) -> (r: Option<(Option<i64>, Option<i64>)>)
    ensures
        match r {
            Some((lo, hi)) => lookup_bounds(bounds_view(b@), v@) == Some((opt_int(lo), opt_int(hi))),
            None => lookup_bounds(bounds_view(b@), v@) is None,
        },
{
    match bound_entry_exec(b, v) {
        Some(e) => Some(e),
        None => {
            let cs = crate::text::chars_of(v);
            let n = cs.len();
            if n > 0 && cs[n - 1] == '\'' {
                let mut pre: Vec<char> = Vec::new();
                let mut i: usize = 0;
                while i < n - 1
                    invariant
                        n == cs@.len(),
                        cs@ == v@,
                        0 < n,
                        i <= n - 1,
                        pre@ == cs@.take(i as int),
                    decreases n - 1 - i,
                {
                    pre.push(cs[i]);
                    assert(cs@.take(i + 1) == cs@.take(i as int).push(cs@[i as int]));
                    i = i + 1;
                }
                assert(pre@ == v@.drop_last());
                let ps = crate::text::string_from_chars(&pre);
                bound_entry_exec(b, ps.as_str())
            } else {
                None
            }
        },
    }
}

fn sat_mul(a: i64, b: i64) -> (r: i64)
    ensures
        r == sat_i64(a * b),
{
    match a.checked_mul(b) {
        Some(v) => v,
        None => {
            if (a > 0) == (b > 0) {
                assert(a * b > 0) by (nonlinear_arith)
                    requires (a > 0) == (b > 0), a != 0, b != 0;
                i64::MAX
            } else {
                assert(a * b < 0) by (nonlinear_arith)
                    requires (a > 0) != (b > 0), a != 0, b != 0;
                i64::MIN
            }
        },
    }
}

fn product_bound_exec(
    lhs: &Expr,
    rhs: &Expr,
    post: bool,
    inst: Option<&str>,
    env: &Vec<(String, i64)>,
    b: &VarBounds,
) -> (r: Option<i64>)
    ensures
        opt_int(r) == product_bound(*lhs, *rhs, post, opt_str_view(inst), env_view(env@), bounds_view(b@)),
{
    let an = name_of_exec(lhs, post, inst, env);
    let cn = name_of_exec(rhs, post, inst, env);
    match (an, cn) {
        (Some(a), Some(c)) => {
            let ab = lookup_bounds_exec(b, a.as_str());
            let cb = lookup_bounds_exec(b, c.as_str());
            match (ab, cb) {
                (Some((Some(alo), Some(ahi))), Some((Some(clo), Some(chi)))) => {
                    let p1 = sat_mul(alo, clo);
                    let p2 = sat_mul(alo, chi);
                    let p3 = sat_mul(ahi, clo);
                    let p4 = sat_mul(ahi, chi);
                    let m1 = if p1 >= p2 { p1 } else { p2 };
                    let m2 = if p3 >= p4 { p3 } else { p4 };
                    Some(if m1 >= m2 { m1 } else { m2 })
                },
                _ => None,
            }
        },
        _ => None,
    }
}

/// The term views of a linear expression, entry by entry.
proof fn lemma_terms_view(l: Linear)
    ensures
        terms_view(l.terms@).len() == l.terms@.len(),
        forall|i: int| 0 <= i < l.terms@.len() ==> #[trigger] terms_view(l.terms@)[i] == (l.terms@[i].0@, l.terms@[i].1 as int),
{
}

/// The `i64` range conditions of `ir` agree with those on linear forms.
proof fn lemma_fits_views(l: Linear, k: int)
    ensures
        crate::ir::neg_fits(l) == neg_ok(lin_view(l)),
        crate::ir::scale_fits(l, k) == scale_ok(lin_view(l), k),
{
    lemma_terms_view(l);
    let a = lin_view(l);
    if crate::ir::neg_fits(l) {
        assert forall|i: int| 0 <= i < a.0.len() implies #[trigger] a.0[i].1 != i64::MIN by {
            assert(l.terms@[i].1 != i64::MIN);
        }
    }
    if neg_ok(a) {
        assert forall|i: int| 0 <= i < l.terms@.len() implies #[trigger] l.terms@[i].1 != i64::MIN by {
            assert(a.0[i].1 != i64::MIN);
        }
    }
    if crate::ir::scale_fits(l, k) {
        assert forall|i: int| 0 <= i < a.0.len() implies fits_i64(#[trigger] a.0[i].1 * k) by {
            assert(fits_i64(l.terms@[i].1 * k));
        }
    }
    if scale_ok(a, k) {
        assert forall|i: int| 0 <= i < l.terms@.len() implies fits_i64(#[trigger] l.terms@[i].1 * k) by {
            assert(fits_i64(a.0[i].1 * k));
        }
    }
}

fn overflow_err() -> (r: String) {
    string_of("arithmetic overflow in constraint")
}

/// Divide every coefficient and the constant by `k`, which must divide each
/// of them exactly.
fn scale_exact(l: &Linear, k: i64) -> (r: Result<Linear, String>)
    requires
        k != 0,
    ensures
        r is Ok <==> div_ok(lin_view(*l), k as int),
        r matches Ok(m) ==> lin_view(m) == div_v(lin_view(*l), k as int),
{
    proof { lemma_terms_view(*l); }
    let ghost a = lin_view(*l);
    match l.constant.checked_rem_euclid(k) {
        None => { return Err(overflow_err()); },
        Some(rem) => {
            if rem != 0 {
                return Err(string_of("non-integer division in constraint"));
            }
        },
    }
    let mut terms: Vec<(String, i64)> = Vec::new();
    let mut i: usize = 0;
    while i < l.terms.len()
        invariant
            i <= l.terms@.len(),
            a == lin_view(*l),
            a.0.len() == l.terms@.len(),
            forall|j: int| 0 <= j < l.terms@.len() ==> #[trigger] a.0[j] == (l.terms@[j].0@, l.terms@[j].1 as int),
            k != 0,
            terms_view(terms@) == div_terms(a.0.take(i as int), k as int),
            forall|j: int| 0 <= j < i ==> #[trigger] a.0[j].1 % (k as int) == 0 && fits_i64(a.0[j].1 / (k as int)),
        decreases l.terms@.len() - i,
    {
        let c = l.terms[i].1;
        match c.checked_rem_euclid(k) {
            None => {
                assert(!fits_i64(a.0[i as int].1 / (k as int)));
                return Err(overflow_err());
            },
            Some(rem) => {
                if rem != 0 {
                    assert(a.0[i as int].1 % (k as int) != 0);
                    return Err(string_of("non-integer division in constraint"));
                }
            },
        }
        match c.checked_div_euclid(k) {
            None => {
                assert(!fits_i64(a.0[i as int].1 / (k as int)));
                return Err(overflow_err());
            },
            Some(q) => {
                terms.push((copy_string(&l.terms[i].0), q));
                assert(div_terms(a.0.take(i + 1), k as int) == div_terms(a.0.take(i as int), k as int).push((a.0[i as int].0, a.0[i as int].1 / (k as int))));
            },
        }
        i = i + 1;
    }
    assert(a.0.take(a.0.len() as int) == a.0);
    match l.constant.checked_div_euclid(k) {
        None => Err(overflow_err()),
        Some(q) => Ok(Linear { terms, constant: q }),
    }
}

/// `l` is the linear form `res` describes, and the approximation flag went
/// from `before` to `after` accordingly.
pub open spec fn lin_result(res: Option<(LinV, bool)>, l: Linear, before: bool, after: bool) -> bool {
    match res {
        Some((v, f)) => lin_view(l) == v && after == (before || f),
        None => false,
    }
}

/// Operand flags only add to the flag of a combination.
proof fn lemma_bin_flags(
    op: BinOp,
    lhs: Expr,
    rhs: Expr,
    x: (LinV, bool),
    y: (LinV, bool),
    post: bool,
    inst: Option<Seq<char>>,
    env: EnvV,
    bd: Option<BoundsV>,
)
    ensures
        bin_form(op, lhs, rhs, x, y, post, inst, env, bd) == match bin_form(op, lhs, rhs, (x.0, false), (y.0, false), post, inst, env, bd) {
            Some((v, f)) => Some((v, f || x.1 || y.1)),
            None => None,
        },
{
}

/// Combine the linear forms of the operands of `lhs op rhs`.
fn lin_bin(
    op: BinOp,
    lhs: &Expr,
    rhs: &Expr,
    a: Linear,
    b: Linear,
    post: bool,
    inst: Option<&str>,
    env: &Vec<(String, i64)>,
    bd: Option<&VarBounds>,
    approx: &mut bool,
) -> (r: Result<Linear, String>)
    ensures
        ({
            let x = (lin_view(a), false);
            let y = (lin_view(b), false);
            let res = bin_form(op, *lhs, *rhs, x, y, post, opt_str_view(inst), env_view(env@), opt_bounds_view(bd));
            &&& r is Ok <==> res is Some
            &&& r matches Ok(l) ==> lin_result(res, l, *old(approx), *final(approx))
        }),
{
    proof {
        lemma_terms_view(a);
        lemma_terms_view(b);
    }
    match op {
        BinOp::Add => match a.try_add(&b) {
            Some(s) => Ok(s),
            None => Err(overflow_err()),
        },
        BinOp::Sub => match { proof { lemma_fits_views(b, 0); } a.try_sub(&b) } {
            Some(s) => Ok(s),
            None => Err(overflow_err()),
        },
        BinOp::Mul => {
            match int_of_exec(rhs, env) {
                Some(k) => match { proof { lemma_fits_views(a, k as int); } a.try_scale(k) } {
                    Some(s) => Ok(s),
                    None => Err(overflow_err()),
                },
                None => match int_of_exec(lhs, env) {
                    Some(k) => match { proof { lemma_fits_views(b, k as int); } b.try_scale(k) } {
                        Some(s) => Ok(s),
                        None => Err(overflow_err()),
                    },
                    None => match bd {
                        None => Err(string_of("non-linear multiplication is not supported in constraints")),
                        Some(bounds) => match product_bound_exec(lhs, rhs, post, inst, env, bounds) {
                            Some(p) => {
                                *approx = true;
                                let l = Linear::constant_only(p);
                                assert(lin_view(l).0 == Seq::<(Seq<char>, int)>::empty());
                                Ok(l)
                            },
                            None => {
                                let mut msg = string_of("non-linear multiplication (");
                                let pl = pretty(lhs);
                                push_str(&mut msg, pl.as_str());
                                push_str(&mut msg, " * ");
                                let pr = pretty(rhs);
                                push_str(&mut msg, pr.as_str());
                                push_str(&mut msg, ") cannot be verified; add `requires` bounds on both variables to enable interval-bounding approximation");
                                Err(msg)
                            },
                        },
                    },
                },
            }
        },
        BinOp::Div => {
            match int_of_exec(rhs, env) {
                Some(k) => {
                    if k == 0 {
                        Err(string_of("division by zero"))
                    } else {
                        scale_exact(&a, k)
                    }
                },
                None => Err(string_of("division must be by a constant in constraints")),
            }
        },
        _ => Err(string_of("expected arithmetic expression")),
    }
}

/// Lower an arithmetic expression to linear form. With `bd`, a product of
/// two variables whose bounds are both known is replaced by its worst-case
/// value and `approx` is set.
fn lin(
    e: &Expr,
    post: bool,
    inst: Option<&str>,
    env: &Vec<(String, i64)>,
    bd: Option<&VarBounds>,
    approx: &mut bool,
) -> (r: Result<Linear, String>)
    ensures
        r is Ok <==> lin_form(*e, post, opt_str_view(inst), env_view(env@), opt_bounds_view(bd)) is Some,
        r matches Ok(l) ==> lin_result(lin_form(*e, post, opt_str_view(inst), env_view(env@), opt_bounds_view(bd)), l, *old(approx), *final(approx)),
    decreases e,
{
    let ghost iv = opt_str_view(inst);
    let ghost ev = env_view(env@);
    let ghost bv = opt_bounds_view(bd);
    match e {
        Expr::Int(n) => {
            let l = Linear::constant_only(*n);
            assert(lin_view(l).0 == Seq::<(Seq<char>, int)>::empty());
            Ok(l)
        },
        Expr::Var(v) => {
            match env_get(env, v.as_str()) {
                Some(k) => {
                    let l = Linear::constant_only(k);
                    assert(lin_view(l).0 == Seq::<(Seq<char>, int)>::empty());
                    Ok(l)
                },
                None => match inst {
                    Some(b) => {
                        let name = field_name_exec(b, v.as_str(), post);
                        Ok(Linear::var(name.as_str()))
                    },
                    None => Ok(Linear::var(v.as_str())),
                },
            }
        },
        Expr::Field { base, field } => {
            let name = field_name_exec(base.as_str(), field.as_str(), post);
            Ok(Linear::var(name.as_str()))
        },
        Expr::Old(inner) => lin(inner, false, None, env, bd, approx),
        Expr::Unary { op, expr } => {
            match op {
                UnOp::Neg => {
                    let a = lin(expr, post, inst, env, bd, approx)?;
                    proof { lemma_fits_views(a, 0); }
                    match a.try_neg() {
                        Some(n) => Ok(n),
                        None => Err(overflow_err()),
                    }
                },
            }
        },
        Expr::Bin { op, lhs, rhs } => {
            let a = lin(lhs, post, inst, env, bd, approx)?;
            let b = lin(rhs, post, inst, env, bd, approx)?;
            proof {
                let x = lin_form(**lhs, post, iv, ev, bv).unwrap();
                let y = lin_form(**rhs, post, iv, ev, bv).unwrap();
                lemma_bin_flags(*op, **lhs, **rhs, x, y, post, iv, ev, bv);
            }
            lin_bin(*op, lhs, rhs, a, b, post, inst, env, bd, approx)
        },
        Expr::Index(ix) => {
            match &*ix.index {
                Expr::Int(idx) => {
                    let it = i64_text(*idx);
                    match &*ix.receiver {
                        Expr::Field { base, .. } => {
                            let name = field_name_exec(base.as_str(), it.as_str(), post);
                            Ok(Linear::var(name.as_str()))
                        },
                        Expr::Var(name) => {
                            let mut s = copy_string(name);
                            push_char(&mut s, '.');
                            push_str(&mut s, it.as_str());
                            assert(s@ == name@ + seq!['.'] + int_text(*idx as int));
                            Ok(Linear::var(s.as_str()))
                        },
                        _ => Err(string_of("array index receiver must be a field or variable")),
                    }
                },
                _ => Err(string_of("non-constant array index in contract is not supported")),
            }
        },
        _ => {
            let mut msg = string_of("expression `");
            let p = pretty(e);
            push_str(&mut msg, p.as_str());
            push_str(&mut msg, "` cannot be lowered to linear arithmetic");
            Err(msg)
        },
    }
}

// ---------------------------------------------------------------------------
// Executable boolean lowering
// ---------------------------------------------------------------------------

/// `a` followed by copies of the constraints of `b`.
fn append_cons(a: &mut Vec<Constraint>, b: &Vec<Constraint>)
    ensures
        cons_view(final(a)@) == cons_view(old(a)@) + cons_view(b@),
{
    let ghost a0 = cons_view(a@);
    let mut j: usize = 0;
    while j < b.len()
        invariant
            j <= b@.len(),
            cons_view(a@) == a0 + cons_view(b@.take(j as int)),
        decreases b@.len() - j,
    {
        let c = b[j].copy();
        assert(con_view(c) == con_view(b@[j as int]));
        let ghost prev = a@;
        a.push(c);
        assert(cons_view(prev.push(c)) == cons_view(prev).push(con_view(c)));
        assert(cons_view(b@.take(j + 1)) == cons_view(b@.take(j as int)).push(con_view(b@[j as int])));
        j = j + 1;
    }
    assert(b@.take(b@.len() as int) == b@);
}

fn copy_cons(b: &Vec<Constraint>) -> (r: Vec<Constraint>)
    ensures
        cons_view(r@) == cons_view(b@),
{
    let mut out: Vec<Constraint> = Vec::new();
    append_cons(&mut out, b);
    assert(cons_view(Seq::<Constraint>::empty()) + cons_view(b@) == cons_view(b@));
    out
}

/// `a` followed by the branches of `b` (moved).
fn append_branches(a: &mut Vec<Vec<Constraint>>, b: Vec<Vec<Constraint>>)
    ensures
        dnf_view(final(a)@) == dnf_view(old(a)@) + dnf_view(b@),
{
    let mut b = b;
    let ghost a0 = a@;
    let ghost b0 = b@;
    a.append(&mut b);
    assert(dnf_view(a0 + b0) == dnf_view(a0) + dnf_view(b0));
}

/// Cartesian product of two DNF forms: every branch in `a` combined with
/// every branch in `b`.
fn negate_branch_exec(b: &Vec<Constraint>) -> (r: Vec<Vec<Constraint>>)
    ensures
        dnf_view(r@) == negate_branch(cons_view(b@)),
{
    let ghost bv = cons_view(b@);
    let mut out: Vec<Vec<Constraint>> = Vec::new();
    let mut i: usize = 0;
    while i < b.len()
        invariant
            i <= b@.len(),
            bv == cons_view(b@),
            dnf_view(out@) == negate_branch(bv.take(i as int)),
        decreases b@.len() - i,
    {
        let ghost ci = bv[i as int];
        let rels = crate::solver::negation_exec(b[i].1);
        let ghost start = dnf_view(out@);
        let mut j: usize = 0;
        while j < rels.len()
            invariant
                i < b@.len(),
                j <= rels@.len(),
                bv == cons_view(b@),
                ci == bv[i as int],
                rels@ == crate::solver::negation(ci.1),
                dnf_view(out@) == start + rels@.take(j as int).map_values(|r: Relation| seq![(ci.0, r)]),
            decreases rels@.len() - j,
        {
            let c = Constraint(b[i].0.copy(), rels[j]);
            let mut one: Vec<Constraint> = Vec::new();
            one.push(c);
            assert(cons_view(one@) == seq![(ci.0, rels@[j as int])]);
            let ghost prev = out@;
            out.push(one);
            assert(dnf_view(prev.push(one)) == dnf_view(prev).push(cons_view(one@)));
            assert(rels@.take(j + 1).map_values(|r: Relation| seq![(ci.0, r)])
                == rels@.take(j as int).map_values(|r: Relation| seq![(ci.0, r)]).push(seq![(ci.0, rels@[j as int])]));
            j = j + 1;
        }
        assert(rels@.take(rels@.len() as int) == rels@);
        assert(bv.take(i + 1).drop_last() == bv.take(i as int));
        assert(bv.take(i + 1).last() == ci);
        i = i + 1;
    }
    assert(bv.take(bv.len() as int) == bv);
    out
}

fn negate_dnf_exec(d: &Vec<Vec<Constraint>>) -> (r: Vec<Vec<Constraint>>)
    ensures
        dnf_view(r@) == negate_dnf(dnf_view(d@)),
{
    let ghost dv = dnf_view(d@);
    let mut out: Vec<Vec<Constraint>> = Vec::new();
    let empty: Vec<Constraint> = Vec::new();
    assert(cons_view(empty@) =~= Seq::<ConV>::empty());
    out.push(empty);
    assert(dnf_view(out@) =~= seq![Seq::<ConV>::empty()]);
    assert(dv.take(0) == Seq::<Seq<ConV>>::empty());
    let mut i: usize = 0;
    while i < d.len()
        invariant
            i <= d@.len(),
            dv == dnf_view(d@),
            dnf_view(out@) == negate_dnf(dv.take(i as int)),
        decreases d@.len() - i,
    {
        let nb = negate_branch_exec(&d[i]);
        assert(dv[i as int] == cons_view(d@[i as int]@));
        out = combine_dnf(&out, &nb);
        assert(dv.take(i + 1).drop_last() == dv.take(i as int));
        assert(dv.take(i + 1).last() == dv[i as int]);
        i = i + 1;
    }
    assert(dv.take(dv.len() as int) == dv);
    out
}

fn combine_dnf(a: &Vec<Vec<Constraint>>, b: &Vec<Vec<Constraint>>) -> (r: Vec<Vec<Constraint>>)
    ensures
        dnf_view(r@) == combine(dnf_view(a@), dnf_view(b@)),
{
    let ghost av = dnf_view(a@);
    let ghost bv = dnf_view(b@);
    let mut out: Vec<Vec<Constraint>> = Vec::new();
    let mut i: usize = 0;
    while i < a.len()
        invariant
            i <= a@.len(),
            av == dnf_view(a@),
            bv == dnf_view(b@),
            dnf_view(out@) == combine(av.take(i as int), bv),
        decreases a@.len() - i,
    {
        let ghost ai = av[i as int];
        let ghost start = dnf_view(out@);
        let mut j: usize = 0;
        while j < b.len()
            invariant
                i < a@.len(),
                j <= b@.len(),
                av == dnf_view(a@),
                bv == dnf_view(b@),
                ai == av[i as int],
                dnf_view(out@) == start + bv.take(j as int).map_values(|bj: Seq<ConV>| ai + bj),
            decreases b@.len() - j,
        {
            let mut combined = copy_cons(&a[i]);
            append_cons(&mut combined, &b[j]);
            let ghost prev = out@;
            out.push(combined);
            assert(bv.take(j + 1).map_values(|bj: Seq<ConV>| ai + bj) == bv.take(j as int).map_values(|bj: Seq<ConV>| ai + bj).push(ai + bv[j as int]));
            assert(dnf_view(prev.push(combined)) == dnf_view(prev).push(cons_view(combined@)));
            j = j + 1;
        }
        assert(bv.take(bv.len() as int) == bv);
        assert(av.take(i + 1).drop_last() == av.take(i as int));
        i = i + 1;
    }
    assert(av.take(av.len() as int) == av);
    out
}

fn rel_of_exec(op: BinOp) -> (r: Option<Relation>)
    ensures
        r == rel_of(op),
{
    match op {
        BinOp::Eq => Some(Relation::Eq),
        BinOp::Ne => Some(Relation::Ne),
        BinOp::Lt => Some(Relation::Lt),
        BinOp::Le => Some(Relation::Le),
        BinOp::Gt => Some(Relation::Gt),
        BinOp::Ge => Some(Relation::Ge),
        _ => None,
    }
}

/// `conj` describes `cs` and the flag went from `before` to `after`.
pub open spec fn conj_result(res: Option<(Seq<ConV>, bool)>, cs: Seq<Constraint>, before: bool, after: bool) -> bool {
    match res {
        Some((v, f)) => cons_view(cs) == v && after == (before || f),
        None => false,
    }
}

pub open spec fn dnf_result(res: Option<(Seq<Seq<ConV>>, bool)>, d: Seq<Vec<Constraint>>, before: bool, after: bool) -> bool {
    match res {
        Some((v, f)) => dnf_view(d) == v && after == (before || f),
        None => false,
    }
}

/// Lower a comparison `lhs op rhs` to the constraint `lhs - rhs op 0`.
fn atom(
    e: &Expr,
    post: bool,
    inst: Option<&str>,
    env: &Vec<(String, i64)>,
    bd: Option<&VarBounds>,
    approx: &mut bool,
) -> (r: Result<Constraint, String>)
    requires
        *e matches Expr::Bin { op, .. } && rel_of(op) is Some,
    ensures
        r is Ok <==> atom_form(*e, post, opt_str_view(inst), env_view(env@), opt_bounds_view(bd)) is Some,
        r matches Ok(c) ==> (atom_form(*e, post, opt_str_view(inst), env_view(env@), opt_bounds_view(bd)) matches Some((v, f))
            && con_view(c) == v && *final(approx) == (*old(approx) || f)),
{
    match e {
        Expr::Bin { op, lhs, rhs } => {
            let rel = rel_of_exec(*op).unwrap();
            let l = lin(lhs, post, inst, env, bd, approx)?;
            let r = lin(rhs, post, inst, env, bd, approx)?;
            proof {
                lemma_fits_views(r, 0);
                lemma_terms_view(l);
            }
            match l.try_sub(&r) {
                Some(d) => Ok(Constraint(d, rel)),
                None => Err(overflow_err()),
            }
        },
        _ => Err(overflow_err()),
    }
}

/// Lower a conjunction of comparisons (`&&` only) into a list of
/// constraints, bounding products with `bd`.
fn to_constraints_bounded(
    e: &Expr,
    post: bool,
    inst: Option<&str>,
    env: &Vec<(String, i64)>,
    bd: Option<&VarBounds>,
    approx: &mut bool,
) -> (r: Result<Vec<Constraint>, String>)
    ensures
        r is Ok <==> conj_form(*e, post, opt_str_view(inst), env_view(env@), opt_bounds_view(bd)) is Some,
        r matches Ok(cs) ==> conj_result(conj_form(*e, post, opt_str_view(inst), env_view(env@), opt_bounds_view(bd)), cs@, *old(approx), *final(approx)),
    decreases e,
{
    match e {
        Expr::Bin { op, lhs, rhs } => {
            if *op == BinOp::And {
                let mut out = to_constraints_bounded(lhs, post, inst, env, bd, approx)?;
                let more = to_constraints_bounded(rhs, post, inst, env, bd, approx)?;
                append_cons(&mut out, &more);
                Ok(out)
            } else if rel_of_exec(*op).is_some() {
                let c = atom(e, post, inst, env, bd, approx)?;
                let mut out: Vec<Constraint> = Vec::new();
                out.push(c);
                assert(cons_view(out@) == seq![con_view(c)]);
                Ok(out)
            } else {
                Err(string_of("expected a boolean constraint (comparison or `&&`)"))
            }
        },
        _ => Err(string_of("expected a boolean constraint (comparison or `&&`)")),
    }
}

/// Like [`to_constraints_bounded`] but produces Disjunctive Normal Form: a
/// list of branches, each a conjunction of constraints. `||` creates two
/// branches; `&&` flattens within each branch.
fn to_constraints_bounded_dnf(
    e: &Expr,
    post: bool,
    inst: Option<&str>,
    env: &Vec<(String, i64)>,
    bd: Option<&VarBounds>,
    approx: &mut bool,
) -> (r: Result<Vec<Vec<Constraint>>, String>)
    ensures
        r is Ok <==> dnf_simple(*e, post, opt_str_view(inst), env_view(env@), opt_bounds_view(bd)) is Some,
        r matches Ok(d) ==> dnf_result(dnf_simple(*e, post, opt_str_view(inst), env_view(env@), opt_bounds_view(bd)), d@, *old(approx), *final(approx)),
    decreases e,
{
    match e {
        Expr::Bin { op, lhs, rhs } => {
            if *op == BinOp::Or {
                let mut out = to_constraints_bounded_dnf(lhs, post, inst, env, bd, approx)?;
                let right = to_constraints_bounded_dnf(rhs, post, inst, env, bd, approx)?;
                append_branches(&mut out, right);
                Ok(out)
            } else if *op == BinOp::And {
                let left = to_constraints_bounded_dnf(lhs, post, inst, env, bd, approx)?;
                let right = to_constraints_bounded_dnf(rhs, post, inst, env, bd, approx)?;
                Ok(combine_dnf(&left, &right))
            } else if rel_of_exec(*op).is_some() {
                let c = atom(e, post, inst, env, bd, approx)?;
                let mut branch: Vec<Constraint> = Vec::new();
                branch.push(c);
                let mut out: Vec<Vec<Constraint>> = Vec::new();
                out.push(branch);
                assert(cons_view(branch@) == seq![con_view(c)]);
                assert(dnf_view(out@) == seq![cons_view(branch@)]);
                Ok(out)
            } else {
                Err(string_of("expected a boolean constraint (comparison, `&&`, or `||`)"))
            }
        },
        _ => Err(string_of("expected a boolean constraint (comparison, `&&`, or `||`)")),
    }
}

/// Evaluate an expression to a constant integer. Returns `None` for
/// non-constant expressions and when a step leaves `i64`.
fn eval_const_expr(e: &Expr, env: &Vec<(String, i64)>) -> (r: Option<i64>)
    ensures
        opt_int(r) == const_value(*e, env_view(env@)),
    decreases e,
{
    match e {
        Expr::Int(n) => Some(*n),
        Expr::Var(v) => env_get(env, v.as_str()),
        Expr::Unary { op, expr } => {
            match eval_const_expr(expr, env) {
                Some(v) => if v == i64::MIN { None } else { Some(-v) },
                None => None,
            }
        },
        Expr::Bin { op, lhs, rhs } => {
            let l = eval_const_expr(lhs, env);
            let r = eval_const_expr(rhs, env);
            match (l, r) {
                (Some(l), Some(r)) => match op {
                    BinOp::Add => l.checked_add(r),
                    BinOp::Sub => l.checked_sub(r),
                    BinOp::Mul => l.checked_mul(r),
                    BinOp::Div => {
                        if r == 0 {
                            None
                        } else {
                            let q = l.checked_div(r);
                            proof {
                                let x = l as int;
                                let d = r as int;
                                assert(x * -1 == -x);
                                assert(d * -1 == -d);
                            }
                            assert(opt_int(q) == (if fits_i64(tdiv(l as int, r as int)) { Some(tdiv(l as int, r as int)) } else { None }));
                            q
                        }
                    },
                    _ => None,
                },
                _ => None,
            }
        },
        _ => None,
    }
}

fn env_with(env: &Vec<(String, i64)>, var: &String, v: i64) -> (r: Vec<(String, i64)>)
    ensures
        env_view(r@) == env_view(env@).push((var@, v as int)),
{
    let mut out: Vec<(String, i64)> = Vec::new();
    let mut i: usize = 0;
    while i < env.len()
        invariant
            i <= env@.len(),
            env_view(out@) == env_view(env@.take(i as int)),
        decreases env@.len() - i,
    {
        let ghost prev = out@;
        let p = (copy_string(&env[i].0), env[i].1);
        out.push(p);
        assert(env_view(prev.push(p)) == env_view(prev).push((p.0@, p.1 as int)));
        assert(env_view(env@.take(i + 1)) == env_view(env@.take(i as int)).push((env@[i as int].0@, env@[i as int].1 as int)));
        i = i + 1;
    }
    assert(env@.take(env@.len() as int) == env@);
    let ghost prev = out@;
    let p = (copy_string(var), v);
    out.push(p);
    assert(env_view(prev.push(p)) == env_view(prev).push((p.0@, p.1 as int)));
    out
}

proof fn lemma_unroll_none(body: Expr, var: Seq<char>, post: bool, env: EnvV, lo: int, k: nat, n: nat)
    requires
        k <= n,
        unroll_form(body, var, post, env, lo, k) is None,
    ensures
        unroll_form(body, var, post, env, lo, n) is None,
    decreases n,
{
    if k < n {
        lemma_unroll_none(body, var, post, env, lo, k, (n - 1) as nat);
    }
}

proof fn lemma_arms_none(arms: Seq<crate::ast::ExprMatchArm>, post: bool, k: nat, n: nat)
    requires
        k <= n <= arms.len(),
        arms_form(arms, post, k) is None,
    ensures
        arms_form(arms, post, n) is None,
    decreases n,
{
    if k < n {
        lemma_arms_none(arms, post, k, (n - 1) as nat);
    }
}

/// The body of `f` lowers with its variable bound to `k`.
pub open spec fn instance_lowers(a: &crate::ast::AggregateExpr, f: &ForallExpr, post: bool, env: &Vec<(String, i64)>, k: int) -> bool {
    lin_form(*f.body, post, None, env_view(env@).push((f.var@, k)), None) is Some
}

/// An aggregate over a non-empty range stands for a value, not a
/// constraint: report the first instance that cannot be lowered, or why the
/// aggregate cannot stand here.
fn aggregate_error(
    a: &crate::ast::AggregateExpr,
    f: &ForallExpr,
    lo: i64,
    hi: i64,
    post: bool,
    env: &Vec<(String, i64)>,
) -> (r: Result<Vec<Vec<Constraint>>, String>)
    ensures
        r is Err,
        (lo < hi && instance_lowers(a, f, post, env, lo as int) && (a.op is Min || a.op is Max))
            ==> (r matches Err(e) && e@ == op_name_spec(a.op) + " over ranges is not yet supported in contracts"@),
        ((a.op is Sum || a.op is Count) && forall|k: int| lo <= k < hi ==> #[trigger] instance_lowers(a, f, post, env, k))
            ==> (r matches Err(e) && e@ == "aggregate result must be used in a comparison (e.g. sum(...) == value)"@),
{
    let mut i: i64 = lo;
    while i < hi
        invariant
            lo <= i,
            i > lo ==> !(a.op is Min || a.op is Max),
            forall|k: int| lo <= k < i ==> #[trigger] instance_lowers(a, f, post, env, k),
        decreases hi - i,
    {
        let env2 = env_with(env, &f.var, i);
        let mut unused = false;
        proof {
            assert(opt_str_view(None::<&str>) == None::<Seq<char>>);
            assert(opt_bounds_view(None::<&VarBounds>) == None::<BoundsV>);
        }
        match lin(&f.body, post, None, &env2, None, &mut unused) {
            Ok(_) => {},
            Err(e) => {
                assert(!instance_lowers(a, f, post, env, i as int));
                return Err(e);
            },
        }
        match a.op {
            AggregateOp::Min | AggregateOp::Max => {
                let mut msg = string_of(a.op.op_name());
                push_str(&mut msg, " over ranges is not yet supported in contracts");
                return Err(msg);
            },
            _ => {},
        }
        i = i + 1;
    }
    Err(string_of("aggregate result must be used in a comparison (e.g. sum(...) == value)"))
}

/// Lower a boolean expression into Disjunctive Normal Form (DNF): a list of
/// conjunction branches. `||` creates two branches; `&&` flattens within
/// each branch; `if`, `match` and bounded `forall` are expanded.
fn to_constraints_dnf(e: &Expr, post: bool, inst: Option<&str>, env: &Vec<(String, i64)>) -> (r: Result<Vec<Vec<Constraint>>, String>)
    ensures
        r is Ok <==> dnf_form(*e, post, opt_str_view(inst), env_view(env@)) is Some,
        r matches Ok(d) ==> dnf_view(d@) == dnf_form(*e, post, opt_str_view(inst), env_view(env@)).unwrap(),
    decreases e, 0nat,
{
    let empty_env: Vec<(String, i64)> = Vec::new();
    assert(env_view(empty_env@) == Seq::<(Seq<char>, int)>::empty());
    match e {
        Expr::Bin { op, lhs, rhs } => {
            if *op == BinOp::Or {
                let mut out = to_constraints_dnf(lhs, post, inst, env)?;
                let right = to_constraints_dnf(rhs, post, inst, env)?;
                append_branches(&mut out, right);
                Ok(out)
            } else if *op == BinOp::And {
                let left = to_constraints_dnf(lhs, post, inst, env)?;
                let right = to_constraints_dnf(rhs, post, inst, env)?;
                Ok(combine_dnf(&left, &right))
            } else if rel_of_exec(*op).is_some() {
                let mut unused = false;
                let c = atom(e, post, inst, env, None, &mut unused)?;
                let mut branch: Vec<Constraint> = Vec::new();
                branch.push(c);
                let mut out: Vec<Vec<Constraint>> = Vec::new();
                out.push(branch);
                assert(cons_view(branch@) == seq![con_view(c)]);
                assert(dnf_view(out@) == seq![cons_view(branch@)]);
                Ok(out)
            } else {
                Err(string_of("expected a boolean constraint (comparison, `&&`, or `||`)"))
            }
        },
        Expr::If(i) => {
            // if cond { a } else { b }  =>  (cond && a) || (!cond && b)
            let cond_branch = to_constraints_dnf(&i.condition, post, None, &empty_env)?;
            let then_branch = to_constraints_dnf(&i.then_expr, post, None, &empty_env)?;
            let else_branch = to_constraints_dnf(&i.else_expr, post, None, &empty_env)?;
            let mut out = combine_dnf(&cond_branch, &then_branch);
            let not_cond = negate_dnf_exec(&cond_branch);
            let else_part = combine_dnf(&not_cond, &else_branch);
            append_branches(&mut out, else_part);
            Ok(out)
        },
        Expr::Match(m) => {
            // Expand each arm as a separate DNF path.
            let ghost arms = m.arms@;
            let mut out: Vec<Vec<Constraint>> = Vec::new();
            let mut k: usize = 0;
            while k < m.arms.len()
                invariant
                    k <= arms.len(),
                    arms == m.arms@,
                    *e == Expr::Match(*m),
                    arms_form(arms, post, k as nat) == Some(dnf_view(out@)),
                    env_view(empty_env@) == Seq::<(Seq<char>, int)>::empty(),
                decreases arms.len() - k,
            {
                proof {
                    assert(decreases_to!(m.arms => m.arms@[k as int]));
                    assert(decreases_to!(m.arms@[k as int] => m.arms@[k as int].expr));
                }
                match to_constraints_dnf(&m.arms[k].expr, post, None, &empty_env) {
                    Ok(branch) => {
                        append_branches(&mut out, branch);
                    },
                    Err(msg) => {
                        proof {
                            lemma_arms_none(arms, post, (k + 1) as nat, arms.len());
                        }
                        return Err(msg);
                    },
                }
                k = k + 1;
            }
            if out.len() == 0 {
                let mut one: Vec<Vec<Constraint>> = Vec::new();
                one.push(Vec::new());
                assert(cons_view(Seq::<Constraint>::empty()) == Seq::<ConV>::empty());
                assert(dnf_view(one@) == seq![Seq::<ConV>::empty()]);
                Ok(one)
            } else {
                Ok(out)
            }
        },
        Expr::Forall(f) => {
            match &f.domain {
                Some(d) => {
                    match &**d {
                        Expr::Range { lo, hi } => {
                            let lo_val = match eval_const_expr(lo, env) {
                                Some(v) => v,
                                None => {
                                    let mut msg = string_of("forall range lower bound `");
                                    let p = pretty(lo);
                                    push_str(&mut msg, p.as_str());
                                    push_str(&mut msg, "` must be a constant");
                                    return Err(msg);
                                },
                            };
                            let hi_val = match eval_const_expr(hi, env) {
                                Some(v) => v,
                                None => {
                                    let mut msg = string_of("forall range upper bound `");
                                    let p = pretty(hi);
                                    push_str(&mut msg, p.as_str());
                                    push_str(&mut msg, "` must be a constant");
                                    return Err(msg);
                                },
                            };
                            let mut combined: Vec<Vec<Constraint>> = Vec::new();
                            combined.push(Vec::new());
                            assert(cons_view(Seq::<Constraint>::empty()) == Seq::<ConV>::empty());
                            assert(dnf_view(combined@) == seq![Seq::<ConV>::empty()]);
                            if lo_val >= hi_val {
                                return Ok(combined);
                            }
                            let ghost ev = env_view(env@);
                            let mut i: i64 = lo_val;
                            while i < hi_val
                                invariant
                                    lo_val <= i <= hi_val,
                                    ev == env_view(env@),
                                    *e == Expr::Forall(*f),
                                    f.domain matches Some(dd) && range_of(*dd, ev) == Some((lo_val as int, hi_val as int)),
                                    unroll_form(*f.body, f.var@, post, ev, lo_val as int, (i - lo_val) as nat) == Some(dnf_view(combined@)),
                                decreases hi_val - i,
                            {
                                let env2 = env_with(env, &f.var, i);
                                match to_constraints_dnf(&f.body, post, None, &env2) {
                                    Ok(branch) => {
                                        combined = combine_dnf(&combined, &branch);
                                    },
                                    Err(msg) => {
                                        proof {
                                            lemma_unroll_none(*f.body, f.var@, post, ev, lo_val as int, (i + 1 - lo_val) as nat, (hi_val - lo_val) as nat);
                                        }
                                        return Err(msg);
                                    },
                                }
                                i = i + 1;
                            }
                            Ok(combined)
                        },
                        _ => {
                            let mut msg = string_of("forall with non-range domain `");
                            let p = pretty(d);
                            push_str(&mut msg, p.as_str());
                            push_str(&mut msg, "` is not supported in contracts");
                            Err(msg)
                        },
                    }
                },
                None => Err(string_of("forall without domain is not supported in contracts")),
            }
        },
        Expr::Aggregate(a) => {
            if a.args.len() == 1 {
                if let Expr::Forall(f) = &a.args[0] {
                    if let Some(d) = &f.domain {
                        if let Expr::Range { lo, hi } = &**d {
                            let lo_val = match eval_const_expr(lo, env) {
                                Some(v) => v,
                                None => { return Err(string_of("aggregate range lower bound must be a constant")); },
                            };
                            let hi_val = match eval_const_expr(hi, env) {
                                Some(v) => v,
                                None => { return Err(string_of("aggregate range upper bound must be a constant")); },
                            };
                            if lo_val >= hi_val {
                                let mut one: Vec<Vec<Constraint>> = Vec::new();
                                one.push(Vec::new());
                                assert(cons_view(Seq::<Constraint>::empty()) == Seq::<ConV>::empty());
                                assert(dnf_view(one@) == seq![Seq::<ConV>::empty()]);
                                return Ok(one);
                            }
                            return aggregate_error(a, f, lo_val, hi_val, post, env);
                        }
                    }
                }
            }
            Err(string_of("aggregate expressions are not fully supported in contracts"))
        },
        _ => Err(string_of("expected a boolean constraint (comparison, `&&`, or `||`)")),
    }
}

// ---------------------------------------------------------------------------
// Field and variable collection
// ---------------------------------------------------------------------------

pub open spec fn pairs_view(v: Seq<(String, String)>) -> Seq<(Seq<char>, Seq<char>)> {
    v.map_values(|p: (String, String)| (p.0@, p.1@))
}

pub open spec fn names_view(v: Seq<String>) -> Seq<Seq<char>> {
    v.map_values(|s: String| s@)
}

pub(crate) fn pair_index(v: &Vec<(String, String)>, b: &str, f: &str) -> (r: Option<usize>)
    ensures
        r matches Some(i) ==> i < v@.len() && pairs_view(v@)[i as int] == (b@, f@),
        r is None ==> !pairs_view(v@).contains((b@, f@)),
{
    let mut i: usize = 0;
    while i < v.len()
        invariant
            i <= v@.len(),
            forall|j: int| 0 <= j < i ==> pairs_view(v@)[j] != (b@, f@),
        decreases v@.len() - i,
    {
        if str_eq(v[i].0.as_str(), b) && str_eq(v[i].1.as_str(), f) {
            return Some(i);
        }
        i = i + 1;
    }
    None
}

/// Add `(b, f)` unless it is present.
pub(crate) fn insert_pair(v: &mut Vec<(String, String)>, b: &str, f: &str)
    requires
        pairs_view(old(v)@).no_duplicates(),
    ensures
        pairs_view(final(v)@).no_duplicates(),
        pairs_view(final(v)@).to_set() == pairs_view(old(v)@).to_set().insert((b@, f@)),
{
    match pair_index(v, b, f) {
        None => {
            let ghost prev = pairs_view(v@);
            let p = (string_of(b), string_of(f));
            v.push(p);
            assert(pairs_view(v@) == prev.push((b@, f@)));
            proof { prev.lemma_push_to_set_commute((b@, f@)); }
        },
        Some(i) => {
            assert(pairs_view(v@).contains((b@, f@)));
            assert(pairs_view(v@).to_set() =~= pairs_view(v@).to_set().insert((b@, f@)));
        },
    }
}

pub(crate) fn name_index(v: &Vec<String>, n: &str) -> (r: Option<usize>)
    ensures
        r matches Some(i) ==> i < v@.len() && v@[i as int]@ == n@,
        r is None ==> !names_view(v@).contains(n@),
{
    let mut i: usize = 0;
    while i < v.len()
        invariant
            i <= v@.len(),
            forall|j: int| 0 <= j < i ==> names_view(v@)[j] != n@,
        decreases v@.len() - i,
    {
        if str_eq(v[i].as_str(), n) {
            return Some(i);
        }
        i = i + 1;
    }
    None
}

pub(crate) fn insert_name(v: &mut Vec<String>, n: &str)
    requires
        names_view(old(v)@).no_duplicates(),
    ensures
        names_view(final(v)@).no_duplicates(),
        names_view(final(v)@).to_set() == names_view(old(v)@).to_set().insert(n@),
{
    match name_index(v, n) {
        None => {
            let ghost prev = names_view(v@);
            v.push(string_of(n));
            assert(names_view(v@) == prev.push(n@));
            proof { prev.lemma_push_to_set_commute(n@); }
        },
        Some(i) => {
            assert(names_view(v@)[i as int] == n@);
            assert(names_view(v@).contains(n@));
            assert(names_view(v@).to_set() =~= names_view(v@).to_set().insert(n@));
        },
    }
}

/// Collect every `Field { base, field }` referenced in an expression.
fn collect_fields(e: &Expr, out: &mut Vec<(String, String)>)
    requires
        pairs_view(old(out)@).no_duplicates(),
    ensures
        pairs_view(final(out)@).no_duplicates(),
        pairs_view(final(out)@).to_set() == pairs_view(old(out)@).to_set() + expr_fields(*e),
    decreases e, 0nat,
{
    let ghost s0 = pairs_view(out@).to_set();
    match e {
        Expr::Field { base, field } => {
            insert_pair(out, base.as_str(), field.as_str());
            assert(s0.insert((base@, field@)) == s0 + set![(base@, field@)]);
        },
        Expr::Old(x) => collect_fields(x, out),
        Expr::Unary { expr, .. } => collect_fields(expr, out),
        Expr::Bin { lhs, rhs, .. } => {
            collect_fields(lhs, out);
            collect_fields(rhs, out);
            assert(s0 + expr_fields(**lhs) + expr_fields(**rhs) == s0 + (expr_fields(**lhs) + expr_fields(**rhs)));
        },
        Expr::Index(ix) => {
            collect_fields(&ix.receiver, out);
            collect_fields(&ix.index, out);
            assert(s0 + expr_fields(*ix.receiver) + expr_fields(*ix.index) == s0 + (expr_fields(*ix.receiver) + expr_fields(*ix.index)));
        },
        Expr::Call(c) => collect_fields_list(&c.args, out),
        Expr::MethodCall(mc) => {
            collect_fields(&mc.receiver, out);
            collect_fields_list(&mc.args, out);
            assert(s0 + expr_fields(*mc.receiver) + list_fields(mc.args@, mc.args@.len()) == s0 + (expr_fields(*mc.receiver) + list_fields(mc.args@, mc.args@.len())));
        },
        Expr::If(i) => {
            collect_fields(&i.condition, out);
            collect_fields(&i.then_expr, out);
            collect_fields(&i.else_expr, out);
            assert(s0 + expr_fields(*i.condition) + expr_fields(*i.then_expr) + expr_fields(*i.else_expr) == s0 + (expr_fields(*i.condition) + expr_fields(*i.then_expr) + expr_fields(*i.else_expr)));
        },
        Expr::Match(mx) => {
            collect_fields(&mx.scrutinee, out);
            collect_fields_arms(&mx.arms, out);
            assert(s0 + expr_fields(*mx.scrutinee) + arm_fields(mx.arms@, mx.arms@.len()) == s0 + (expr_fields(*mx.scrutinee) + arm_fields(mx.arms@, mx.arms@.len())));
        },
        _ => {
            assert(s0 + Set::empty() == s0);
        },
    }
}

fn collect_fields_list(es: &Vec<Expr>, out: &mut Vec<(String, String)>)
    requires
        pairs_view(old(out)@).no_duplicates(),
    ensures
        pairs_view(final(out)@).no_duplicates(),
        pairs_view(final(out)@).to_set() == pairs_view(old(out)@).to_set() + list_fields(es@, es@.len()),
    decreases es, 1nat,
{
    let ghost s0 = pairs_view(out@).to_set();
    let mut i: usize = 0;
    assert(s0 + Set::empty() == s0);
    while i < es.len()
        invariant
            i <= es@.len(),
            pairs_view(out@).no_duplicates(),
            pairs_view(out@).to_set() == s0 + list_fields(es@, i as nat),
        decreases es@.len() - i,
    {
        proof {
            assert(decreases_to!(es => es@[i as int]));
        }
        collect_fields(&es[i], out);
        assert(s0 + list_fields(es@, i as nat) + expr_fields(es@[i as int]) == s0 + (list_fields(es@, i as nat) + expr_fields(es@[i as int])));
        i = i + 1;
    }
}

fn collect_fields_arms(arms: &Vec<crate::ast::ExprMatchArm>, out: &mut Vec<(String, String)>)
    requires
        pairs_view(old(out)@).no_duplicates(),
    ensures
        pairs_view(final(out)@).no_duplicates(),
        pairs_view(final(out)@).to_set() == pairs_view(old(out)@).to_set() + arm_fields(arms@, arms@.len()),
    decreases arms, 1nat,
{
    let ghost s0 = pairs_view(out@).to_set();
    let mut i: usize = 0;
    assert(s0 + Set::empty() == s0);
    while i < arms.len()
        invariant
            i <= arms@.len(),
            pairs_view(out@).no_duplicates(),
            pairs_view(out@).to_set() == s0 + arm_fields(arms@, i as nat),
        decreases arms@.len() - i,
    {
        proof {
            assert(decreases_to!(arms => arms@[i as int]));
            assert(decreases_to!(arms@[i as int] => arms@[i as int].expr));
        }
        collect_fields(&arms[i].expr, out);
        assert(s0 + arm_fields(arms@, i as nat) + expr_fields(arms@[i as int].expr) == s0 + (arm_fields(arms@, i as nat) + expr_fields(arms@[i as int].expr)));
        i = i + 1;
    }
}

/// Collect bare variable names referenced in an expression (used to
/// discover an invariant-bearing type's fields).
fn collect_vars(e: &Expr, out: &mut Vec<String>)
    requires
        names_view(old(out)@).no_duplicates(),
    ensures
        names_view(final(out)@).no_duplicates(),
        names_view(final(out)@).to_set() == names_view(old(out)@).to_set() + expr_vars(*e),
    decreases e, 0nat,
{
    let ghost s0 = names_view(out@).to_set();
    match e {
        Expr::Var(v) => {
            insert_name(out, v.as_str());
            assert(s0.insert(v@) == s0 + set![v@]);
        },
        Expr::Old(x) => collect_vars(x, out),
        Expr::Unary { expr, .. } => collect_vars(expr, out),
        Expr::Bin { lhs, rhs, .. } => {
            collect_vars(lhs, out);
            collect_vars(rhs, out);
            assert(s0 + expr_vars(**lhs) + expr_vars(**rhs) == s0 + (expr_vars(**lhs) + expr_vars(**rhs)));
        },
        Expr::Index(ix) => {
            collect_vars(&ix.receiver, out);
            collect_vars(&ix.index, out);
            assert(s0 + expr_vars(*ix.receiver) + expr_vars(*ix.index) == s0 + (expr_vars(*ix.receiver) + expr_vars(*ix.index)));
        },
        Expr::Call(c) => collect_vars_list(&c.args, out),
        Expr::MethodCall(mc) => {
            collect_vars(&mc.receiver, out);
            collect_vars_list(&mc.args, out);
            assert(s0 + expr_vars(*mc.receiver) + list_vars(mc.args@, mc.args@.len()) == s0 + (expr_vars(*mc.receiver) + list_vars(mc.args@, mc.args@.len())));
        },
        Expr::If(i) => {
            collect_vars(&i.condition, out);
            collect_vars(&i.then_expr, out);
            collect_vars(&i.else_expr, out);
            assert(s0 + expr_vars(*i.condition) + expr_vars(*i.then_expr) + expr_vars(*i.else_expr) == s0 + (expr_vars(*i.condition) + expr_vars(*i.then_expr) + expr_vars(*i.else_expr)));
        },
        Expr::Match(mx) => {
            collect_vars(&mx.scrutinee, out);
            collect_vars_arms(&mx.arms, out);
            assert(s0 + expr_vars(*mx.scrutinee) + arm_vars(mx.arms@, mx.arms@.len()) == s0 + (expr_vars(*mx.scrutinee) + arm_vars(mx.arms@, mx.arms@.len())));
        },
        _ => {
            assert(s0 + Set::empty() == s0);
        },
    }
}

fn collect_vars_list(es: &Vec<Expr>, out: &mut Vec<String>)
    requires
        names_view(old(out)@).no_duplicates(),
    ensures
        names_view(final(out)@).no_duplicates(),
        names_view(final(out)@).to_set() == names_view(old(out)@).to_set() + list_vars(es@, es@.len()),
    decreases es, 1nat,
{
    let ghost s0 = names_view(out@).to_set();
    let mut i: usize = 0;
    assert(s0 + Set::empty() == s0);
    while i < es.len()
        invariant
            i <= es@.len(),
            names_view(out@).no_duplicates(),
            names_view(out@).to_set() == s0 + list_vars(es@, i as nat),
        decreases es@.len() - i,
    {
        proof {
            assert(decreases_to!(es => es@[i as int]));
        }
        collect_vars(&es[i], out);
        assert(s0 + list_vars(es@, i as nat) + expr_vars(es@[i as int]) == s0 + (list_vars(es@, i as nat) + expr_vars(es@[i as int])));
        i = i + 1;
    }
}

fn collect_vars_arms(arms: &Vec<crate::ast::ExprMatchArm>, out: &mut Vec<String>)
    requires
        names_view(old(out)@).no_duplicates(),
    ensures
        names_view(final(out)@).no_duplicates(),
        names_view(final(out)@).to_set() == names_view(old(out)@).to_set() + arm_vars(arms@, arms@.len()),
    decreases arms, 1nat,
{
    let ghost s0 = names_view(out@).to_set();
    let mut i: usize = 0;
    assert(s0 + Set::empty() == s0);
    while i < arms.len()
        invariant
            i <= arms@.len(),
            names_view(out@).no_duplicates(),
            names_view(out@).to_set() == s0 + arm_vars(arms@, i as nat),
        decreases arms@.len() - i,
    {
        proof {
            assert(decreases_to!(arms => arms@[i as int]));
            assert(decreases_to!(arms@[i as int] => arms@[i as int].expr));
        }
        collect_vars(&arms[i].expr, out);
        assert(s0 + arm_vars(arms@, i as nat) + expr_vars(arms@[i as int].expr) == s0 + (arm_vars(arms@, i as nat) + expr_vars(arms@[i as int].expr)));
        i = i + 1;
    }
}

// ---------------------------------------------------------------------------
// Invariant lookup
// ---------------------------------------------------------------------------

proof fn lemma_all_invs_step(mods: Seq<Module>, k: int)
    requires
        0 <= k < mods.len(),
    ensures
        all_invs(mods.take(k + 1)) == all_invs(mods.take(k)) + item_invs(mods[k].items@),
{
    assert(mods.take(k + 1).drop_last() == mods.take(k));
}

proof fn lemma_item_invs_step(items: Seq<Item>, k: int)
    requires
        0 <= k < items.len(),
    ensures
        item_invs(items.take(k + 1)) == item_invs(items.take(k)) + match items[k] {
            Item::Invariant(inv) => seq![inv],
            _ => Seq::empty(),
        },
{
    assert(items.take(k + 1).drop_last() == items.take(k));
}

/// Every invariant declared by the modules, in order.
fn flat_invs<'a>(mods: &'a Vec<Module>) -> (r: Vec<&'a Invariant>)
    ensures
        r@.len() == all_invs(mods@).len(),
        forall|k: int| 0 <= k < r@.len() ==> *r@[k] == all_invs(mods@)[k],
{
    let mut out: Vec<&'a Invariant> = Vec::new();
    let mut i: usize = 0;
    while i < mods.len()
        invariant
            i <= mods@.len(),
            out@.len() == all_invs(mods@.take(i as int)).len(),
            forall|k: int| 0 <= k < out@.len() ==> *out@[k] == all_invs(mods@.take(i as int))[k],
        decreases mods@.len() - i,
    {
        let items = &mods[i].items;
        let ghost base = all_invs(mods@.take(i as int));
        let mut j: usize = 0;
        while j < items.len()
            invariant
                i < mods@.len(),
                *items == mods@[i as int].items,
                j <= items@.len(),
                base == all_invs(mods@.take(i as int)),
                out@.len() == base.len() + item_invs(items@.take(j as int)).len(),
                forall|k: int| 0 <= k < out@.len() ==> *out@[k] == (base + item_invs(items@.take(j as int)))[k],
            decreases items@.len() - j,
        {
            proof { lemma_item_invs_step(items@, j as int); }
            match &items[j] {
                Item::Invariant(inv) => {
                    out.push(inv);
                },
                _ => {},
            }
            j = j + 1;
        }
        proof {
            assert(items@.take(items@.len() as int) == items@);
            lemma_all_invs_step(mods@, i as int);
        }
        i = i + 1;
    }
    assert(mods@.take(mods@.len() as int) == mods@);
    out
}

/// The invariants one module declares, in order.
pub(crate) fn module_invs<'a>(m: &'a Module) -> (r: Vec<&'a Invariant>)
    ensures
        invs_match(r@, item_invs(m.items@)),
{
    let items = &m.items;
    let mut out: Vec<&'a Invariant> = Vec::new();
    let mut j: usize = 0;
    while j < items.len()
        invariant
            *items == m.items,
            j <= items@.len(),
            out@.len() == item_invs(items@.take(j as int)).len(),
            forall|k: int| 0 <= k < out@.len() ==> *out@[k] == item_invs(items@.take(j as int))[k],
        decreases items@.len() - j,
    {
        proof { lemma_item_invs_step(items@, j as int); }
        match &items[j] {
            Item::Invariant(inv) => {
                out.push(inv);
            },
            _ => {},
        }
        j = j + 1;
    }
    assert(items@.take(items@.len() as int) == items@);
    out
}

/// How many problems a function lowers to: one per premise branch.
pub open spec fn branch_count(f: Func) -> nat {
    match req_form(f.requires@, f.requires@.len()) {
        Some(br) => br.len(),
        None => 0,
    }
}

proof fn lemma_branch_len(f: Func, invs: Seq<Invariant>, br: Seq<Seq<ConV>>, fixed: Seq<ConV>, n: nat)
    ensures
        branch_problems(f, invs, br, fixed, n) matches Some(ps) ==> ps.len() == n,
    decreases n,
{
    if n > 0 && n <= br.len() {
        lemma_branch_len(f, invs, br, fixed, (n - 1) as nat);
    }
}

/// Whatever the frame equalities, a function that lowers yields one problem
/// per premise branch.
pub proof fn lemma_problem_count(f: Func, invs: Seq<Invariant>, frames: Seq<ConV>)
    ensures
        func_problems(f, invs, frames) matches Some(ps) ==> ps.len() == branch_count(f),
{
    match (req_form(f.requires@, f.requires@.len()), fixed_premises(f, invs, frames)) {
        (Some(br), Some(fixed)) => lemma_branch_len(f, invs, br, fixed, br.len()),
        _ => {},
    }
}

/// The invariants as values, for contracts over a list of references.
pub open spec fn invs_match(invs: Seq<&Invariant>, iv: Seq<Invariant>) -> bool {
    invs.len() == iv.len() && forall|k: int| 0 <= k < invs.len() ==> *invs[k] == iv[k]
}

proof fn lemma_inv_for_take(iv: Seq<Invariant>, k: int, name: Seq<char>)
    requires
        0 <= k < iv.len(),
    ensures
        inv_for(iv.take(k + 1), name) == if iv[k].name@ == name { Some(iv[k]) } else { inv_for(iv.take(k), name) },
{
    assert(iv.take(k + 1).drop_last() == iv.take(k));
}

/// The invariant a type name refers to: the last one declared by that name.
fn find_inv<'a>(invs: &Vec<&'a Invariant>, name: &str, Ghost(iv): Ghost<Seq<Invariant>>) -> (r: Option<&'a Invariant>)
    requires
        invs_match(invs@, iv),
    ensures
        match r {
            Some(i) => inv_for(iv, name@) == Some(*i),
            None => inv_for(iv, name@) is None,
        },
{
    let mut found: Option<&'a Invariant> = None;
    let mut k: usize = 0;
    while k < invs.len()
        invariant
            k <= invs@.len(),
            invs_match(invs@, iv),
            match found {
                Some(i) => inv_for(iv.take(k as int), name@) == Some(*i),
                None => inv_for(iv.take(k as int), name@) is None,
            },
        decreases invs@.len() - k,
    {
        proof { lemma_inv_for_take(iv, k as int, name@); }
        let inv: &'a Invariant = invs[k];
        if str_eq(inv.name.as_str(), name) {
            found = Some(inv);
        }
        k = k + 1;
    }
    assert(iv.take(iv.len() as int) == iv);
    found
}

proof fn lemma_inv_fields_take(iv: Seq<Invariant>, k: int, name: Seq<char>)
    requires
        0 <= k < iv.len(),
    ensures
        inv_fields(iv.take(k + 1), name) == inv_fields(iv.take(k), name) + if iv[k].name@ == name {
            list_vars(iv[k].constraints@, iv[k].constraints@.len())
        } else {
            Set::empty()
        },
{
    assert(iv.take(k + 1).drop_last() == iv.take(k));
}

/// Fields declared by an invariant-bearing type, derived from the bare
/// variable names used in its invariants' constraints.
fn inv_fields_exec(invs: &Vec<&Invariant>, name: &str, Ghost(iv): Ghost<Seq<Invariant>>) -> (r: Vec<String>)
    requires
        invs_match(invs@, iv),
    ensures
        names_view(r@).no_duplicates(),
        names_view(r@).to_set() == inv_fields(iv, name@),
{
    let mut out: Vec<String> = Vec::new();
    assert(names_view(out@).to_set() =~= Set::<Seq<char>>::empty());
    assert(inv_fields(iv.take(0), name@) == Set::<Seq<char>>::empty());
    let mut k: usize = 0;
    while k < invs.len()
        invariant
            k <= invs@.len(),
            invs_match(invs@, iv),
            names_view(out@).no_duplicates(),
            names_view(out@).to_set() == inv_fields(iv.take(k as int), name@),
        decreases invs@.len() - k,
    {
        proof { lemma_inv_fields_take(iv, k as int, name@); }
        let inv = invs[k];
        if str_eq(inv.name.as_str(), name) {
            collect_vars_list(&inv.constraints, &mut out);
        } else {
            assert(inv_fields(iv.take(k as int), name@) + Set::empty() == inv_fields(iv.take(k as int), name@));
        }
        k = k + 1;
    }
    assert(iv.take(iv.len() as int) == iv);
    out
}

/// Lower a boolean expression into a single conjunction; a disjunction is
/// rejected here.
fn to_constraints(e: &Expr, post: bool, inst: Option<&str>, env: &Vec<(String, i64)>) -> (r: Result<Vec<Constraint>, String>)
    ensures
        r is Ok <==> single_form(*e, post, opt_str_view(inst), env_view(env@)) is Some,
        r matches Ok(cs) ==> cons_view(cs@) == single_form(*e, post, opt_str_view(inst), env_view(env@)).unwrap(),
{
    let mut dnf = to_constraints_dnf(e, post, inst, env)?;
    if dnf.len() == 1 {
        let ghost d = dnf@;
        let b = dnf.pop().unwrap();
        assert(cons_view(b@) == dnf_view(d)[0]);
        Ok(b)
    } else {
        Err(string_of("disjunction (`||`) is not allowed in this position"))
    }
}

fn assign_constraint(a: &Assign) -> (r: Result<Constraint, String>)
    ensures
        r is Ok <==> assign_form(*a) is Some,
        r matches Ok(c) ==> con_view(c) == assign_form(*a).unwrap(),
{
    match &a.target {
        Expr::Field { base, field } => {
            let post_name = field_name_exec(base.as_str(), field.as_str(), true);
            let pre_name = field_name_exec(base.as_str(), field.as_str(), false);
            let post = Linear::var(post_name.as_str());
            let pre = Linear::var(pre_name.as_str());
            let empty_env: Vec<(String, i64)> = Vec::new();
            assert(env_view(empty_env@) == Seq::<(Seq<char>, int)>::empty());
            let mut unused = false;
            let value = lin(&a.value, false, None, &empty_env, None, &mut unused)?;
            proof {
                lemma_fits_views(value, 0);
                lemma_fits_views(pre, 0);
                lemma_terms_view(post);
            }
            let terms = match a.op {
                AssignOp::Plain => post.try_sub(&value),
                AssignOp::Add => match post.try_sub(&pre) {
                    Some(d) => {
                        proof { lemma_terms_view(d); }
                        d.try_sub(&value)
                    },
                    None => None,
                },
                AssignOp::Sub => match post.try_sub(&pre) {
                    Some(d) => {
                        proof { lemma_terms_view(d); }
                        d.try_add(&value)
                    },
                    None => None,
                },
            };
            match terms {
                Some(t) => Ok(Constraint(t, Relation::Eq)),
                None => Err(overflow_err()),
            }
        },
        other => {
            let mut msg = string_of("assignment target must be a field, found `");
            let p = pretty(other);
            push_str(&mut msg, p.as_str());
            push_char(&mut msg, '`');
            Err(msg)
        },
    }
}

// ---------------------------------------------------------------------------
// Variable bounds
// ---------------------------------------------------------------------------

fn bound_delta_exec(c: &Constraint) -> (r: Option<(Option<i64>, Option<i64>)>)
    ensures
        match r {
            Some((lo, hi)) => c.0.terms@.len() == 1
                && bound_delta(con_view(*c)) == Some((c.0.terms@[0].0@, opt_int(lo), opt_int(hi))),
            None => bound_delta(con_view(*c)) is None,
        },
{
    proof { lemma_terms_view(c.0); }
    if c.0.terms.len() != 1 {
        return None;
    }
    let a = c.0.terms[0].1;
    let k = c.0.constant;
    if a == 1 {
        if k == i64::MIN {
            return None;
        }
        let nk = -k;
        match c.1 {
            Relation::Ge => Some((Some(nk), None)),
            Relation::Gt => match nk.checked_add(1) {
                Some(v) => Some((Some(v), None)),
                None => None,
            },
            Relation::Le => Some((None, Some(nk))),
            Relation::Lt => match nk.checked_sub(1) {
                Some(v) => Some((None, Some(v))),
                None => None,
            },
            Relation::Eq => Some((Some(nk), Some(nk))),
            Relation::Ne => None,
        }
    } else if a == -1 {
        match c.1 {
            Relation::Ge => Some((None, Some(k))),
            Relation::Gt => match k.checked_sub(1) {
                Some(v) => Some((None, Some(v))),
                None => None,
            },
            Relation::Le => Some((Some(k), None)),
            Relation::Lt => match k.checked_add(1) {
                Some(v) => Some((Some(v), None)),
                None => None,
            },
            _ => None,
        }
    } else {
        None
    }
}

fn bound_idx_exec(b: &VarBounds, v: &str) -> (r: Option<usize>)
    ensures
        match r {
            Some(i) => i < b@.len() && bound_idx(bounds_view(b@), v@) == Some(i as int),
            None => bound_idx(bounds_view(b@), v@) is None,
        },
{
    let ghost bv = bounds_view(b@);
    assert(bv.subrange(0, bv.len() as int) == bv);
    let mut i: usize = 0;
    while i < b.len()
        invariant
            i <= b@.len(),
            bv == bounds_view(b@),
            bound_idx(bv, v@) == match bound_idx(bv.subrange(i as int, bv.len() as int), v@) {
                Some(j) => Some(j + i),
                None => None,
            },
        decreases b@.len() - i,
    {
        assert(bv.subrange(i as int, bv.len() as int).drop_first() == bv.subrange(i + 1, bv.len() as int));
        if str_eq(b[i].0.as_str(), v) {
            return Some(i);
        }
        i = i + 1;
    }
    None
}

/// Scan premise constraints to extract per-variable lower and upper bounds.
///
/// Only single-variable constraints with coefficient ±1 are processed;
/// multi-variable constraints are ignored because they don't isolate a
/// single bound.
fn collect_var_bounds(premises: &Vec<Constraint>) -> (r: VarBounds)
    ensures
        bounds_view(r@) == bounds_form(cons_view(premises@)),
{
    let ghost pv = cons_view(premises@);
    let mut bounds: VarBounds = Vec::new();
    let mut i: usize = 0;
    while i < premises.len()
        invariant
            i <= premises@.len(),
            pv == cons_view(premises@),
            bounds_view(bounds@) == bounds_form(pv.take(i as int)),
        decreases premises@.len() - i,
    {
        assert(pv.take(i + 1).drop_last() == pv.take(i as int));
        assert(pv.take(i + 1).last() == con_view(premises@[i as int]));
        let c = &premises[i];
        match bound_delta_exec(c) {
            Some((lo, hi)) => {
                let var = &c.0.terms[0].0;
                let ghost before = bounds_view(bounds@);
                match bound_idx_exec(&bounds, var.as_str()) {
                    Some(j) => {
                        let (old_lo, old_hi) = (bounds[j].1, bounds[j].2);
                        let nlo = match lo {
                            Some(l) => Some(match old_lo {
                                Some(e) => if e >= l { e } else { l },
                                None => l,
                            }),
                            None => old_lo,
                        };
                        let nhi = match hi {
                            Some(h) => Some(match old_hi {
                                Some(e) => if e <= h { e } else { h },
                                None => h,
                            }),
                            None => old_hi,
                        };
                        let entry = (copy_string(var), nlo, nhi);
                        bounds.set(j, entry);
                        assert(bounds_view(bounds@) == before.update(j as int, (var@, opt_int(nlo), opt_int(nhi))));
                    },
                    None => {
                        let entry = (copy_string(var), lo, hi);
                        bounds.push(entry);
                        assert(bounds_view(bounds@) == before.push((var@, opt_int(lo), opt_int(hi))));
                    },
                }
            },
            None => {},
        }
        i = i + 1;
    }
    assert(pv.take(pv.len() as int) == pv);
    bounds
}

// ---------------------------------------------------------------------------
// Premises of a function
// ---------------------------------------------------------------------------

proof fn lemma_req_none(reqs: Seq<Expr>, k: nat, n: nat)
    requires
        k <= n <= reqs.len(),
        req_form(reqs, k) is None,
    ensures
        req_form(reqs, n) is None,
    decreases n,
{
    if k < n {
        lemma_req_none(reqs, k, (n - 1) as nat);
    }
}

/// The requires clauses combined into disjunctive normal form: `requires a
/// || b` and `requires c` yield the branches `{a, c}` and `{b, c}`.
fn premise_branches(f: &Func) -> (r: Result<Vec<Vec<Constraint>>, String>)
    ensures
        r is Ok <==> req_form(f.requires@, f.requires@.len()) is Some,
        r matches Ok(d) ==> dnf_view(d@) == req_form(f.requires@, f.requires@.len()).unwrap(),
{
    let empty_env: Vec<(String, i64)> = Vec::new();
    assert(env_view(empty_env@) == Seq::<(Seq<char>, int)>::empty());
    let mut combined: Vec<Vec<Constraint>> = Vec::new();
    combined.push(Vec::new());
    assert(cons_view(Seq::<Constraint>::empty()) == Seq::<ConV>::empty());
    assert(dnf_view(combined@) == seq![Seq::<ConV>::empty()]);
    let mut k: usize = 0;
    while k < f.requires.len()
        invariant
            k <= f.requires@.len(),
            env_view(empty_env@) == Seq::<(Seq<char>, int)>::empty(),
            req_form(f.requires@, k as nat) == Some(dnf_view(combined@)),
        decreases f.requires@.len() - k,
    {
        match to_constraints_dnf(&f.requires[k], false, None, &empty_env) {
            Ok(branches) => {
                combined = combine_dnf(&combined, &branches);
            },
            Err(msg) => {
                proof { lemma_req_none(f.requires@, (k + 1) as nat, f.requires@.len()); }
                return Err(msg);
            },
        }
        k = k + 1;
    }
    Ok(combined)
}

/// `x >= 1` for every parameter of a `Positive*` type.
fn type_constraints(f: &Func) -> (r: Vec<Constraint>)
    ensures
        cons_view(r@) == type_cons(f.params@),
{
    let ghost ps = f.params@;
    let mut out: Vec<Constraint> = Vec::new();
    let mut k: usize = 0;
    while k < f.params.len()
        invariant
            k <= ps.len(),
            ps == f.params@,
            cons_view(out@) == type_cons(ps.take(k as int)),
        decreases ps.len() - k,
    {
        assert(ps.take(k + 1).drop_last() == ps.take(k as int));
        let p = &f.params[k];
        if crate::text::starts_with(p.ty.name(), "Positive") {
            let x = Linear::var(p.name.as_str());
            let one = Linear::constant_only(1);
            proof { lemma_terms_view(one); }
            let ge = match x.try_sub(&one) {
                Some(d) => d,
                None => {
                    proof {
                        assert(terms_view(one.terms@) == Seq::<(Seq<char>, int)>::empty());
                        assert(negate_terms(terms_view(one.terms@)) == Seq::<(Seq<char>, int)>::empty());
                        assert(merge_fits(terms_view(x.terms@), Seq::<(Seq<char>, int)>::empty()));
                        assert(false);
                    }
                    return out;
                },
            };
            let ghost prev = out@;
            let c = Constraint(ge, Relation::Ge);
            out.push(c);
            assert(terms_view(one.terms@) == Seq::<(Seq<char>, int)>::empty());
            assert(cons_view(prev.push(c)) == cons_view(prev).push(con_view(c)));
        } else {
            assert(type_cons(ps.take(k as int)) + Seq::<ConV>::empty() == type_cons(ps.take(k as int)));
        }
        k = k + 1;
    }
    assert(ps.take(ps.len() as int) == ps);
    out
}

proof fn lemma_clauses_none(cs: Seq<Expr>, pname: Seq<char>, k: nat, n: nat)
    requires
        k <= n <= cs.len(),
        clauses_form(cs, pname, k) is None,
    ensures
        clauses_form(cs, pname, n) is None,
    decreases n,
{
    if k < n {
        lemma_clauses_none(cs, pname, k, (n - 1) as nat);
    }
}

proof fn lemma_inv_cons_none(ps: Seq<crate::ast::Param>, invs: Seq<Invariant>, k: int)
    requires
        0 <= k <= ps.len(),
        inv_cons(ps.take(k), invs) is None,
    ensures
        inv_cons(ps, invs) is None,
    decreases ps.len() - k,
{
    if k < ps.len() {
        assert(ps.take(k + 1).drop_last() == ps.take(k));
        lemma_inv_cons_none(ps, invs, k + 1);
    } else {
        assert(ps.take(k) == ps);
    }
}

/// Entry invariants for parameters whose type has an invariant.
fn inv_constraints(f: &Func, invs: &Vec<&Invariant>, Ghost(iv): Ghost<Seq<Invariant>>) -> (r: Result<Vec<Constraint>, String>)
    requires
        invs_match(invs@, iv),
    ensures
        r is Ok <==> inv_cons(f.params@, iv) is Some,
        r matches Ok(cs) ==> cons_view(cs@) == inv_cons(f.params@, iv).unwrap(),
{
    let ghost ps = f.params@;
    let empty_env: Vec<(String, i64)> = Vec::new();
    assert(env_view(empty_env@) == Seq::<(Seq<char>, int)>::empty());
    let mut out: Vec<Constraint> = Vec::new();
    let mut k: usize = 0;
    while k < f.params.len()
        invariant
            k <= ps.len(),
            ps == f.params@,
            invs_match(invs@, iv),
            env_view(empty_env@) == Seq::<(Seq<char>, int)>::empty(),
            inv_cons(ps.take(k as int), iv) == Some(cons_view(out@)),
        decreases ps.len() - k,
    {
        assert(ps.take(k + 1).drop_last() == ps.take(k as int));
        let p = &f.params[k];
        match find_inv(invs, p.ty.name(), Ghost(iv)) {
            Some(inv) => {
                let ghost before = cons_view(out@);
                let mut j: usize = 0;
                while j < inv.constraints.len()
                    invariant
                        k < ps.len(),
                        ps == f.params@,
                        *p == ps[k as int],
                        invs_match(invs@, iv),
                        env_view(empty_env@) == Seq::<(Seq<char>, int)>::empty(),
                        j <= inv.constraints@.len(),
                        inv_cons(ps.take(k as int), iv) == Some(before),
                        inv_for(iv, type_name_spec(p.ty)) == Some(*inv),
                        ps.take(k + 1).drop_last() == ps.take(k as int),
                        clauses_form(inv.constraints@, p.name@, j as nat) matches Some(b) && cons_view(out@) == before + b,
                    decreases inv.constraints@.len() - j,
                {
                    match to_constraints(&inv.constraints[j], false, Some(p.name.as_str()), &empty_env) {
                        Ok(cs) => {
                            let ghost mid = cons_view(out@);
                            append_cons(&mut out, &cs);
                        },
                        Err(msg) => {
                            proof {
                                lemma_clauses_none(inv.constraints@, p.name@, (j + 1) as nat, inv.constraints@.len());
                                assert(inv_cons(ps.take(k + 1), iv) is None);
                                lemma_inv_cons_none(ps, iv, k + 1);
                            }
                            return Err(msg);
                        },
                    }
                    j = j + 1;
                }
            },
            None => {},
        }
        k = k + 1;
    }
    assert(ps.take(ps.len() as int) == ps);
    Ok(out)
}

proof fn lemma_assigns_none(asg: Seq<Assign>, k: nat, n: nat)
    requires
        k <= n <= asg.len(),
        assigns_form(asg, k) is None,
    ensures
        assigns_form(asg, n) is None,
    decreases n,
{
    if k < n {
        lemma_assigns_none(asg, k, (n - 1) as nat);
    }
}

proof fn lemma_mut_none(body: Seq<Stmt>, k: int)
    requires
        0 <= k <= body.len(),
        mut_cons(body.take(k)) is None,
    ensures
        mut_cons(body) is None,
    decreases body.len() - k,
{
    if k < body.len() {
        assert(body.take(k + 1).drop_last() == body.take(k));
        lemma_mut_none(body, k + 1);
    } else {
        assert(body.take(k) == body);
    }
}

/// `mutate state` assignments: equality premises defining post-state
/// variables.
fn mutation_constraints(stmts: &Vec<Stmt>) -> (r: Result<Vec<Constraint>, String>)
    ensures
        r is Ok <==> mut_cons(stmts@) is Some,
        r matches Ok(cs) ==> cons_view(cs@) == mut_cons(stmts@).unwrap(),
{
    let ghost body = stmts@;
    let mut out: Vec<Constraint> = Vec::new();
    let mut k: usize = 0;
    while k < stmts.len()
        invariant
            k <= body.len(),
            body == stmts@,
            mut_cons(body.take(k as int)) == Some(cons_view(out@)),
        decreases body.len() - k,
    {
        assert(body.take(k + 1).drop_last() == body.take(k as int));
        match &stmts[k] {
            Stmt::MutateState(asg) => {
                let ghost before = cons_view(out@);
                let mut j: usize = 0;
                while j < asg.len()
                    invariant
                        k < body.len(),
                        body == stmts@,
                        body[k as int] == Stmt::MutateState(*asg),
                        j <= asg@.len(),
                        mut_cons(body.take(k as int)) == Some(before),
                        assigns_form(asg@, j as nat) matches Some(b) && cons_view(out@) == before + b,
                    decreases asg@.len() - j,
                {
                    match assign_constraint(&asg[j]) {
                        Ok(c) => {
                            let ghost prev = out@;
                            out.push(c);
                            assert(cons_view(prev.push(c)) == cons_view(prev).push(con_view(c)));
                        },
                        Err(msg) => {
                            proof {
                                lemma_assigns_none(asg@, (j + 1) as nat, asg@.len());
                                lemma_mut_none(body, k + 1);
                            }
                            return Err(msg);
                        },
                    }
                    j = j + 1;
                }
            },
            Stmt::Assign(a) => {
                match assign_constraint(a) {
                    Ok(c) => {
                        let ghost prev = out@;
                        let c2 = c.copy();
                        out.push(c);
                        out.push(c2);
                        assert(cons_view(prev.push(c).push(c2)) == cons_view(prev) + seq![con_view(c), con_view(c)]);
                    },
                    Err(msg) => {
                        proof { lemma_mut_none(body, k + 1); }
                        return Err(msg);
                    },
                }
            },
            _ => {
                assert(mut_cons(body.take(k + 1)) == mut_cons(body.take(k as int)));
            },
        }
        k = k + 1;
    }
    assert(body.take(body.len() as int) == body);
    Ok(out)
}

// ---------------------------------------------------------------------------
// Frame axioms
// ---------------------------------------------------------------------------

/// `base.field' - base.field == 0`.
fn frame_constraint(base: &str, field: &str) -> (r: Constraint)
    ensures
        con_view(r) == frame_con((base@, field@)),
{
    let post_name = field_name_exec(base, field, true);
    let pre_name = field_name_exec(base, field, false);
    let post = Linear::var(post_name.as_str());
    let pre = Linear::var(pre_name.as_str());
    proof {
        lemma_fits_views(pre, 0);
        let ts = terms_view(post.terms@);
        let bs = negate_terms(terms_view(pre.terms@));
        let e = Seq::<(Seq<char>, int)>::empty();
        assert(ts == seq![(post_name@, 1int)]);
        assert(bs.len() == 1 && bs[0] == (pre_name@, -1int));
        assert(bs.drop_last() == e);
        assert(merge_fits(ts, e));
        assert(merge_terms(ts, e) == ts);
        assert(ts.drop_last() == e);
        assert(crate::ir::find_term(e, pre_name@) is None);
        assert(merge_fits(ts, bs));
    }
    match post.try_sub(&pre) {
        Some(d) => Constraint(d, Relation::Eq),
        None => {
            proof { assert(false); }
            Constraint(Linear::constant_only(0), Relation::Eq)
        },
    }
}

/// Every field mentioned by the value of, or assigned by, an assignment.
fn note_assign(a: &Assign, refs: &mut Vec<(String, String)>, asgd: &mut Vec<(String, String)>)
    requires
        pairs_view(old(refs)@).no_duplicates(),
        pairs_view(old(asgd)@).no_duplicates(),
    ensures
        pairs_view(final(refs)@).no_duplicates(),
        pairs_view(final(asgd)@).no_duplicates(),
        pairs_view(final(refs)@).to_set() == pairs_view(old(refs)@).to_set() + expr_fields(a.value) + assign_target(*a),
        pairs_view(final(asgd)@).to_set() == pairs_view(old(asgd)@).to_set() + assign_target(*a),
{
    let ghost r0 = pairs_view(refs@).to_set();
    let ghost a0 = pairs_view(asgd@).to_set();
    collect_fields(&a.value, refs);
    match &a.target {
        Expr::Field { base, field } => {
            insert_pair(refs, base.as_str(), field.as_str());
            insert_pair(asgd, base.as_str(), field.as_str());
            assert(r0 + expr_fields(a.value) + assign_target(*a) == (r0 + expr_fields(a.value)).insert((base@, field@)));
            assert(a0 + assign_target(*a) == a0.insert((base@, field@)));
        },
        _ => {
            assert(r0 + expr_fields(a.value) + assign_target(*a) == r0 + expr_fields(a.value));
            assert(a0 + assign_target(*a) == a0);
        },
    }
}

/// Every field mentioned by the value of, or assigned by, each assignment.
fn note_assigns(asg: &Vec<Assign>, refs: &mut Vec<(String, String)>, asgd: &mut Vec<(String, String)>)
    requires
        pairs_view(old(refs)@).no_duplicates(),
        pairs_view(old(asgd)@).no_duplicates(),
    ensures
        pairs_view(final(refs)@).no_duplicates(),
        pairs_view(final(asgd)@).no_duplicates(),
        pairs_view(final(refs)@).to_set() == pairs_view(old(refs)@).to_set() + assigns_fields(asg@, asg@.len()),
        pairs_view(final(asgd)@).to_set() == pairs_view(old(asgd)@).to_set() + assigns_targets(asg@, asg@.len()),
{
    let ghost r0 = pairs_view(refs@).to_set();
    let ghost a0 = pairs_view(asgd@).to_set();
    assert(r0 + Set::empty() == r0);
    assert(a0 + Set::empty() == a0);
    let mut j: usize = 0;
    while j < asg.len()
        invariant
            j <= asg@.len(),
            pairs_view(refs@).no_duplicates(),
            pairs_view(asgd@).no_duplicates(),
            pairs_view(refs@).to_set() == r0 + assigns_fields(asg@, j as nat),
            pairs_view(asgd@).to_set() == a0 + assigns_targets(asg@, j as nat),
        decreases asg@.len() - j,
    {
        let a = &asg[j];
        note_assign(a, refs, asgd);
        assert(r0 + assigns_fields(asg@, j as nat) + expr_fields(a.value) + assign_target(*a)
            == r0 + assigns_fields(asg@, (j + 1) as nat));
        assert(a0 + assigns_targets(asg@, j as nat) + assign_target(*a) == a0 + assigns_targets(asg@, (j + 1) as nat));
        j = j + 1;
    }
}

proof fn lemma_with_base_insert(base: Seq<char>, s: Set<Seq<char>>, x: Seq<char>)
    ensures
        with_base(base, s.insert(x)) == with_base(base, s).insert((base, x)),
{
    let l = with_base(base, s.insert(x));
    let r = with_base(base, s).insert((base, x));
    assert forall|y: (Seq<char>, Seq<char>)| l.contains(y) implies r.contains(y) by {
        let z = choose|z: Seq<char>| s.insert(x).contains(z) && y == (base, z);
        if z != x {
            assert(s.contains(z));
            assert(with_base(base, s).contains(y));
        }
    }
    assert forall|y: (Seq<char>, Seq<char>)| r.contains(y) implies l.contains(y) by {
        if y == (base, x) {
            assert(s.insert(x).contains(x));
        } else {
            let z = choose|z: Seq<char>| s.contains(z) && y == (base, z);
            assert(s.insert(x).contains(z));
        }
    }
    assert(l =~= r);
}

/// Frame axioms: every referenced field that is not assigned keeps its
/// value.
fn frame_constraints(f: &Func, stmts: &Vec<Stmt>, invs: &Vec<&Invariant>, Ghost(iv): Ghost<Seq<Invariant>>) -> (r: Vec<Constraint>)
    requires
        invs_match(invs@, iv),
    ensures
        frames_ok(cons_view(r@), with_body(*f, *stmts), iv),
{
    let mut refs: Vec<(String, String)> = Vec::new();
    let mut asgd: Vec<(String, String)> = Vec::new();
    assert(pairs_view(refs@).to_set() =~= Set::<(Seq<char>, Seq<char>)>::empty());
    collect_fields_list(&f.requires, &mut refs);
    collect_fields_list(&f.ensures, &mut refs);
    let ghost r1 = pairs_view(refs@).to_set();
    assert(r1 == list_fields(f.requires@, f.requires@.len()) + list_fields(f.ensures@, f.ensures@.len()));
    let ghost body = stmts@;
    let mut k: usize = 0;
    assert(r1 + Set::empty() == r1);
    assert(pairs_view(asgd@).to_set() =~= Set::<(Seq<char>, Seq<char>)>::empty());
    while k < stmts.len()
        invariant
            k <= body.len(),
            body == stmts@,
            pairs_view(refs@).no_duplicates(),
            pairs_view(asgd@).no_duplicates(),
            pairs_view(refs@).to_set() == r1 + body_fields(body.take(k as int)),
            pairs_view(asgd@).to_set() == assigned(body.take(k as int)),
        decreases body.len() - k,
    {
        assert(body.take(k + 1).drop_last() == body.take(k as int));
        let ghost rb = pairs_view(refs@).to_set();
        match &stmts[k] {
            Stmt::MutateState(asg) => {
                note_assigns(asg, &mut refs, &mut asgd);
            },
            Stmt::Assign(a) => {
                let ghost ab = pairs_view(asgd@).to_set();
                note_assign(a, &mut refs, &mut asgd);
                assert(assigns_fields(seq![*a], 0) == Set::<(Seq<char>, Seq<char>)>::empty());
                assert(assigns_targets(seq![*a], 0) == Set::<(Seq<char>, Seq<char>)>::empty());
                assert(seq![*a][0] == *a);
                assert(assigns_fields(seq![*a], 1) == Set::<(Seq<char>, Seq<char>)>::empty() + expr_fields(a.value) + assign_target(*a));
                assert(assigns_targets(seq![*a], 1) == Set::<(Seq<char>, Seq<char>)>::empty() + assign_target(*a));
                assert(rb + expr_fields(a.value) + assign_target(*a) == rb + assigns_fields(seq![*a], 1));
                assert(ab + assign_target(*a) == ab + assigns_targets(seq![*a], 1));
            },
            _ => {
                assert(rb + Set::empty() == rb);
                assert(pairs_view(asgd@).to_set() + Set::empty() == pairs_view(asgd@).to_set());
            },
        }
        assert(r1 + body_fields(body.take(k as int)) + assigns_fields(stmt_assigns(body[k as int]), stmt_assigns(body[k as int]).len())
            == r1 + body_fields(body.take(k + 1)));
        k = k + 1;
    }
    assert(body.take(body.len() as int) == body);
    let ghost r2 = pairs_view(refs@).to_set();
    let ghost ps = f.params@;
    let mut k: usize = 0;
    assert(r2 + Set::empty() == r2);
    while k < f.params.len()
        invariant
            k <= ps.len(),
            ps == f.params@,
            invs_match(invs@, iv),
            pairs_view(refs@).no_duplicates(),
            pairs_view(refs@).to_set() == r2 + param_fields(ps.take(k as int), iv),
        decreases ps.len() - k,
    {
        assert(ps.take(k + 1).drop_last() == ps.take(k as int));
        let p = &f.params[k];
        let fields = inv_fields_exec(invs, p.ty.name(), Ghost(iv));
        let ghost rb = pairs_view(refs@).to_set();
        let mut j: usize = 0;
        assert(with_base(p.name@, names_view(fields@.take(0)).to_set()) =~= Set::<(Seq<char>, Seq<char>)>::empty());
        while j < fields.len()
            invariant
                j <= fields@.len(),
                pairs_view(refs@).no_duplicates(),
                pairs_view(refs@).to_set() == rb + with_base(p.name@, names_view(fields@.take(j as int)).to_set()),
            decreases fields@.len() - j,
        {
            let ghost before = pairs_view(refs@).to_set();
            insert_pair(&mut refs, p.name.as_str(), fields[j].as_str());
            proof {
                let tj = names_view(fields@.take(j as int));
                assert(names_view(fields@.take(j + 1)) == tj.push(fields@[j as int]@));
                tj.lemma_push_to_set_commute(fields@[j as int]@);
                lemma_with_base_insert(p.name@, tj.to_set(), fields@[j as int]@);
            }
            j = j + 1;
        }
        assert(fields@.take(fields@.len() as int) == fields@);
        assert(r2 + param_fields(ps.take(k as int), iv) + with_base(p.name@, inv_fields(iv, type_name_spec(p.ty)))
            == r2 + param_fields(ps.take(k + 1), iv));
        k = k + 1;
    }
    assert(ps.take(ps.len() as int) == ps);
    let ghost all = pairs_view(refs@).to_set();
    assert(all == referenced(with_body(*f, *stmts), iv));
    let ghost asg_set = pairs_view(asgd@).to_set();
    let mut out: Vec<Constraint> = Vec::new();
    let ghost mut fs: Seq<(Seq<char>, Seq<char>)> = Seq::empty();
    let ghost rv = pairs_view(refs@);
    let mut i: usize = 0;
    assert(rv.take(0).to_set() =~= Set::<(Seq<char>, Seq<char>)>::empty());
    assert(fs.to_set() =~= Set::<(Seq<char>, Seq<char>)>::empty());
    while i < refs.len()
        invariant
            i <= refs@.len(),
            rv == pairs_view(refs@),
            rv.no_duplicates(),
            asg_set == pairs_view(asgd@).to_set(),
            fs.no_duplicates(),
            fs.to_set() == rv.take(i as int).to_set().difference(asg_set),
            cons_view(out@) == frames_of(fs),
        decreases refs@.len() - i,
    {
        let ghost x = rv[i as int];
        proof {
            assert(rv.take(i + 1) == rv.take(i as int).push(x));
            rv.take(i as int).lemma_push_to_set_commute(x);
            assert(!rv.take(i as int).contains(x));
        }
        if pair_index(&asgd, refs[i].0.as_str(), refs[i].1.as_str()).is_none() {
            let c = frame_constraint(refs[i].0.as_str(), refs[i].1.as_str());
            let ghost prev = out@;
            out.push(c);
            proof {
                if fs.contains(x) {
                    assert(fs.to_set().contains(x));
                    assert(rv.take(i as int).to_set().contains(x));
                    assert(false);
                }
                let nfs = fs.push(x);
                assert(nfs.no_duplicates());
                fs.lemma_push_to_set_commute(x);
                assert(nfs.to_set() =~= rv.take(i + 1).to_set().difference(asg_set));
                assert(cons_view(prev.push(c)) == cons_view(prev).push(con_view(c)));
                assert(frames_of(nfs) == frames_of(fs).push(frame_con(x)));
                fs = nfs;
            }
        } else {
            assert(fs.to_set() =~= rv.take(i + 1).to_set().difference(asg_set));
        }
        i = i + 1;
    }
    assert(rv.take(rv.len() as int) == rv);
    assert(asg_set == assigned(stmts@));
    assert(frames_ok(cons_view(out@), with_body(*f, *stmts), iv));
    out
}

// ---------------------------------------------------------------------------
// Conclusions and problems
// ---------------------------------------------------------------------------

/// An invariant clause as written for binding `base`: its names become
/// fields of `base`.
pub open spec fn pretty_inst_spec(e: Expr, base: Seq<char>) -> Seq<char>
    decreases e,
{
    match e {
        Expr::Var(v) => base + seq!['.'] + v@,
        Expr::Unary { expr, .. } => "-"@ + pretty_inst_spec(*expr, base),
        Expr::Bin { op, lhs, rhs } =>
            pretty_inst_spec(*lhs, base) + seq![' '] + crate::render::bin_op_spec(op) + seq![' '] + pretty_inst_spec(*rhs, base),
        _ => crate::render::pretty_spec(e),
    }
}

/// Rendering of an invariant clause specialised for binding `base`.
fn pretty_inst(e: &Expr, base: &str) -> (r: String)
    ensures
        r@ == pretty_inst_spec(*e, base@),
    decreases e,
{
    match e {
        Expr::Var(v) => {
            let mut s = string_of(base);
            push_char(&mut s, '.');
            push_str(&mut s, v.as_str());
            s
        },
        Expr::Unary { expr, .. } => {
            let mut s = string_of("-");
            let t = pretty_inst(expr, base);
            push_str(&mut s, t.as_str());
            s
        },
        Expr::Bin { op, lhs, rhs } => {
            let mut s = pretty_inst(lhs, base);
            push_char(&mut s, ' ');
            push_str(&mut s, bin_op_text(*op));
            push_char(&mut s, ' ');
            let t = pretty_inst(rhs, base);
            push_str(&mut s, t.as_str());
            s
        },
        _ => pretty(e),
    }
}

proof fn lemma_tag_add(a: Seq<ConV>, b: Seq<ConV>, ens: bool, f: bool, loc: Span, g: Option<usize>, d: Seq<char>)
    ensures
        tag(a + b, ens, f, loc, g, d) == tag(a, ens, f, loc, g, d) + tag(b, ens, f, loc, g, d),
{
    assert(tag(a + b, ens, f, loc, g, d) =~= tag(a, ens, f, loc, g, d) + tag(b, ens, f, loc, g, d));
}

/// Push one conclusion per constraint of `cs`.
fn push_conclusions(
    out: &mut Vec<Conclusion>,
    cs: &Vec<Constraint>,
    desc: &String,
    ens: bool,
    approx: bool,
    loc: Span,
    group: Option<usize>,
)
    ensures
        concls_view(final(out)@) == concls_view(old(out)@) + tag(cons_view(cs@), ens, approx, loc, group, desc@),
{
    let ghost start = concls_view(out@);
    let mut j: usize = 0;
    while j < cs.len()
        invariant
            j <= cs@.len(),
            concls_view(out@) == start + tag(cons_view(cs@.take(j as int)), ens, approx, loc, group, desc@),
        decreases cs@.len() - j,
    {
        let c = Conclusion {
            description: copy_string(desc),
            constraint: cs[j].copy(),
            is_ensures: ens,
            is_approximation: approx,
            location: loc,
            or_group: group,
        };
        let ghost prev = out@;
        out.push(c);
        proof {
            assert(concls_view(prev.push(c)) == concls_view(prev).push(concl_view(c)));
            assert(cons_view(cs@.take(j + 1)) == cons_view(cs@.take(j as int)).push(con_view(cs@[j as int])));
            lemma_tag_add(cons_view(cs@.take(j as int)), seq![con_view(cs@[j as int])], ens, approx, loc, group, desc@);
        }
        j = j + 1;
    }
    assert(cs@.take(cs@.len() as int) == cs@);
}

proof fn lemma_ens_none(es: Seq<Expr>, spans: Seq<Span>, fspan: Span, bd: BoundsV, k: nat, n: nat)
    requires
        k <= n <= es.len(),
        ens_concls(es, spans, fspan, bd, k) is None,
    ensures
        ens_concls(es, spans, fspan, bd, n) is None,
    decreases n,
{
    if k < n {
        lemma_ens_none(es, spans, fspan, bd, k, (n - 1) as nat);
    }
}

/// Conclusions from the `ensures` clauses, against the post-state.
fn ensures_conclusions(f: &Func, bounds: &VarBounds) -> (r: Result<Vec<Conclusion>, String>)
    ensures
        r is Ok <==> ens_concls(f.ensures@, f.ensures_spans@, f.span, bounds_view(bounds@), f.ensures@.len()) is Some,
        r matches Ok(cs) ==> concls_view(cs@) == ens_concls(f.ensures@, f.ensures_spans@, f.span, bounds_view(bounds@), f.ensures@.len()).unwrap().0,
{
    let ghost bd = bounds_view(bounds@);
    let empty_env: Vec<(String, i64)> = Vec::new();
    assert(env_view(empty_env@) == Seq::<(Seq<char>, int)>::empty());
    let mut out: Vec<Conclusion> = Vec::new();
    let mut next_or_group: usize = 0;
    let mut i: usize = 0;
    while i < f.ensures.len()
        invariant
            i <= f.ensures@.len(),
            next_or_group <= i,
            bd == bounds_view(bounds@),
            env_view(empty_env@) == Seq::<(Seq<char>, int)>::empty(),
            ens_concls(f.ensures@, f.ensures_spans@, f.span, bd, i as nat) == Some((concls_view(out@), next_or_group as nat)),
        decreases f.ensures@.len() - i,
    {
        let e = &f.ensures[i];
        let mut approximated = false;
        let dnf = match to_constraints_bounded_dnf(e, true, None, &empty_env, Some(bounds), &mut approximated) {
            Ok(d) => d,
            Err(msg) => {
                proof { lemma_ens_none(f.ensures@, f.ensures_spans@, f.span, bd, (i + 1) as nat, f.ensures@.len()); }
                return Err(msg);
            },
        };
        let location = if i < f.ensures_spans.len() { f.ensures_spans[i] } else { f.span };
        let p = pretty(e);
        let ghost dv = dnf_view(dnf@);
        if dnf.len() == 1 {
            let mut desc = string_of("ensures: ");
            push_str(&mut desc, p.as_str());
            push_conclusions(&mut out, &dnf[0], &desc, true, approximated, location, None);
        } else {
            // Disjunction: each branch is an alternative. At least one branch
            // must be entailed; a shared `or_group` marks them.
            let group_id = next_or_group;
            next_or_group = next_or_group + 1;
            let ghost start = concls_view(out@);
            let mut b: usize = 0;
            assert(dv.take(0) == Seq::<Seq<ConV>>::empty());
            while b < dnf.len()
                invariant
                    b <= dnf@.len(),
                    dv == dnf_view(dnf@),
                    p@ == crate::render::pretty_spec(*e),
                    concls_view(out@) == start + branch_tags(dv.take(b as int), approximated, location, group_id, p@),
                decreases dnf@.len() - b,
            {
                let mut desc = string_of("ensures: ");
                push_str(&mut desc, p.as_str());
                push_str(&mut desc, " [branch ");
                let bt = crate::text::usize_text(b);
                push_str(&mut desc, bt.as_str());
                push_char(&mut desc, ']');
                assert(desc@ == branch_desc(p@, b as int));
                push_conclusions(&mut out, &dnf[b], &desc, true, approximated, location, Some(group_id));
                proof {
                    assert(dv.take(b + 1).drop_last() == dv.take(b as int));
                    assert(dv.take(b + 1).last() == dv[b as int]);
                }
                b = b + 1;
            }
            assert(dv.take(dv.len() as int) == dv);
        }
        i = i + 1;
    }
    Ok(out)
}

proof fn lemma_icc_none(inv: Invariant, pname: Seq<char>, bd: BoundsV, k: nat, n: nat)
    requires
        k <= n <= inv.constraints@.len(),
        inv_clause_concls(inv, pname, bd, k) is None,
    ensures
        inv_clause_concls(inv, pname, bd, n) is None,
    decreases n,
{
    if k < n {
        lemma_icc_none(inv, pname, bd, k, (n - 1) as nat);
    }
}

proof fn lemma_inv_concls_none(ps: Seq<crate::ast::Param>, invs: Seq<Invariant>, bd: BoundsV, k: int)
    requires
        0 <= k <= ps.len(),
        inv_concls(ps.take(k), invs, bd) is None,
    ensures
        inv_concls(ps, invs, bd) is None,
    decreases ps.len() - k,
{
    if k < ps.len() {
        assert(ps.take(k + 1).drop_last() == ps.take(k));
        lemma_inv_concls_none(ps, invs, bd, k + 1);
    } else {
        assert(ps.take(k) == ps);
    }
}

/// Invariants of invariant-bearing parameters, re-established in the
/// post-state.
fn invariant_conclusions(f: &Func, invs: &Vec<&Invariant>, bounds: &VarBounds, Ghost(iv): Ghost<Seq<Invariant>>) -> (r: Result<Vec<Conclusion>, String>)
    requires
        invs_match(invs@, iv),
    ensures
        r is Ok <==> inv_concls(f.params@, iv, bounds_view(bounds@)) is Some,
        r matches Ok(cs) ==> concls_view(cs@) == inv_concls(f.params@, iv, bounds_view(bounds@)).unwrap(),
{
    let ghost bd = bounds_view(bounds@);
    let ghost ps = f.params@;
    let empty_env: Vec<(String, i64)> = Vec::new();
    assert(env_view(empty_env@) == Seq::<(Seq<char>, int)>::empty());
    let mut out: Vec<Conclusion> = Vec::new();
    let mut k: usize = 0;
    while k < f.params.len()
        invariant
            k <= ps.len(),
            ps == f.params@,
            bd == bounds_view(bounds@),
            invs_match(invs@, iv),
            env_view(empty_env@) == Seq::<(Seq<char>, int)>::empty(),
            inv_concls(ps.take(k as int), iv, bd) == Some(concls_view(out@)),
        decreases ps.len() - k,
    {
        assert(ps.take(k + 1).drop_last() == ps.take(k as int));
        let p = &f.params[k];
        match find_inv(invs, p.ty.name(), Ghost(iv)) {
            Some(inv) => {
                let ghost before = concls_view(out@);
                let mut j: usize = 0;
                while j < inv.constraints.len()
                    invariant
                        k < ps.len(),
                        ps == f.params@,
                        *p == ps[k as int],
                        bd == bounds_view(bounds@),
                        invs_match(invs@, iv),
                        env_view(empty_env@) == Seq::<(Seq<char>, int)>::empty(),
                        j <= inv.constraints@.len(),
                        inv_concls(ps.take(k as int), iv, bd) == Some(before),
                        inv_for(iv, type_name_spec(p.ty)) == Some(*inv),
                        ps.take(k + 1).drop_last() == ps.take(k as int),
                        inv_clause_concls(*inv, p.name@, bd, j as nat) matches Some(b) && concls_view(out@) == before + b,
                    decreases inv.constraints@.len() - j,
                {
                    let c = &inv.constraints[j];
                    let mut approximated = false;
                    match to_constraints_bounded(c, true, Some(p.name.as_str()), &empty_env, Some(bounds), &mut approximated) {
                        Ok(cs) => {
                            let location = if j < inv.constraint_spans.len() { inv.constraint_spans[j] } else { inv.span };
                            let mut desc = string_of("invariant ");
                            push_str(&mut desc, inv.name.as_str());
                            push_str(&mut desc, " maintained: ");
                            let pi = pretty_inst(c, p.name.as_str());
                            push_str(&mut desc, pi.as_str());
                            push_conclusions(&mut out, &cs, &desc, false, approximated, location, None);
                        },
                        Err(msg) => {
                            proof {
                                lemma_icc_none(*inv, p.name@, bd, (j + 1) as nat, inv.constraints@.len());
                                assert(inv_concls(ps.take(k + 1), iv, bd) is None);
                                lemma_inv_concls_none(ps, iv, bd, k + 1);
                            }
                            return Err(msg);
                        },
                    }
                    j = j + 1;
                }
            },
            None => {},
        }
        k = k + 1;
    }
    assert(ps.take(ps.len() as int) == ps);
    Ok(out)
}

// ---------------------------------------------------------------------------
// Frame equalities never decide whether a function lowers
// ---------------------------------------------------------------------------

proof fn lemma_frame_two_terms(p: (Seq<char>, Seq<char>))
    ensures
        frame_con(p).0.0.len() == 2,
{
    let post = field_name(p.0, p.1, true);
    let pre = field_name(p.0, p.1, false);
    assert(post.len() == pre.len() + 1);
    assert(post != pre);
    let e = Seq::<(Seq<char>, int)>::empty();
    let ts = seq![(post, 1int)];
    let bs = negate_terms(seq![(pre, 1int)]);
    assert(bs == seq![(pre, -1int)]);
    assert(bs.drop_last() == e);
    assert(merge_terms(ts, e) == ts);
    assert(ts.drop_last() == e);
    assert(crate::ir::find_term(e, pre) is None);
    assert(crate::ir::find_term(ts, pre) is None);
    let m = merge_terms(ts, bs);
    assert(m == seq![(post, 1int), (pre, -1int)]);
    reveal_with_fuel(Seq::filter, 3);
    assert(m.drop_last() == ts);
    assert(ts.drop_last() == e);
    assert(nonzero_terms(m).len() == 2);
}

proof fn lemma_bounds_frames(a: Seq<ConV>, fs: Seq<(Seq<char>, Seq<char>)>)
    ensures
        bounds_form(a + frames_of(fs)) == bounds_form(a),
    decreases fs.len(),
{
    if fs.len() == 0 {
        assert(a + frames_of(fs) == a);
    } else {
        let init = fs.drop_last();
        assert(frames_of(fs) == frames_of(init).push(frame_con(fs.last())));
        assert((a + frames_of(fs)).drop_last() == a + frames_of(init));
        lemma_frame_two_terms(fs.last());
        lemma_bounds_frames(a, init);
    }
}

proof fn lemma_branch_frames(
    f: Func,
    invs: Seq<Invariant>,
    br: Seq<Seq<ConV>>,
    base: Seq<ConV>,
    fs: Seq<(Seq<char>, Seq<char>)>,
    n: nat,
)
    ensures
        (branch_problems(f, invs, br, base + frames_of(fs), n) is Some) == (branch_problems(f, invs, br, base, n) is Some),
    decreases n,
{
    if n > 0 && n <= br.len() {
        lemma_branch_frames(f, invs, br, base, fs, (n - 1) as nat);
        let b = br[n - 1];
        assert(b + (base + frames_of(fs)) == (b + base) + frames_of(fs));
        lemma_bounds_frames(b + base, fs);
    }
}

/// With any valid frame equalities, a function lowers exactly when it lowers
/// without them.
proof fn lemma_frames_irrelevant(f: Func, invs: Seq<Invariant>, frames: Seq<ConV>)
    requires
        frames_ok(frames, f, invs),
    ensures
        (func_problems(f, invs, frames) is Some) == func_ok(f, invs),
{
    let fs = choose|fs: Seq<(Seq<char>, Seq<char>)>|
        fs.no_duplicates() && fs.to_set() == referenced(f, invs).difference(assigned(f.body@))
        && frames == #[trigger] frames_of(fs);
    match (req_form(f.requires@, f.requires@.len()), inv_cons(f.params@, invs), mut_cons(f.body@)) {
        (Some(br), Some(ic), Some(mc)) => {
            let base = type_cons(f.params@) + ic + mc;
            assert(base + Seq::<ConV>::empty() == base);
            lemma_branch_frames(f, invs, br, base, fs, br.len());
        },
        _ => {},
    }
}

proof fn lemma_branch_none(f: Func, invs: Seq<Invariant>, br: Seq<Seq<ConV>>, fixed: Seq<ConV>, k: nat, n: nat)
    requires
        k <= n <= br.len(),
        branch_problems(f, invs, br, fixed, k) is None,
    ensures
        branch_problems(f, invs, br, fixed, n) is None,
    decreases n,
{
    if k < n {
        lemma_branch_none(f, invs, br, fixed, k, (n - 1) as nat);
    }
}

/// The verification problems of one function: one per branch of its
/// `requires` clauses.
pub(crate) fn build_problems(f: &Func, stmts: &Vec<Stmt>, invs: &Vec<&Invariant>, Ghost(iv): Ghost<Seq<Invariant>>) -> (r: Result<Vec<VerificationProblem>, String>)
    requires
        invs_match(invs@, iv),
    ensures
        r is Ok <==> func_ok(with_body(*f, *stmts), iv),
        r matches Ok(ps) ==> exists|fr: Seq<ConV>| frames_ok(fr, with_body(*f, *stmts), iv)
            && func_problems(with_body(*f, *stmts), iv, fr) == Some(problems_view(ps@)),
{
    let ghost g = with_body(*f, *stmts);
    let frames = frame_constraints(f, stmts, invs, Ghost(iv));
    let ghost fr = cons_view(frames@);
    proof { lemma_frames_irrelevant(g, iv, fr); }
    let branches = premise_branches(f)?;
    let mut fixed = type_constraints(f);
    let ic = inv_constraints(f, invs, Ghost(iv))?;
    let mc = mutation_constraints(stmts)?;
    append_cons(&mut fixed, &ic);
    append_cons(&mut fixed, &mc);
    append_cons(&mut fixed, &frames);
    let ghost fixv = cons_view(fixed@);
    assert(fixed_premises(g, iv, fr) == Some(fixv));
    let ghost brv = dnf_view(branches@);
    let n = branches.len();
    let mut problems: Vec<VerificationProblem> = Vec::new();
    let mut idx: usize = 0;
    while idx < n
        invariant
            n == branches@.len(),
            idx <= n,
            invs_match(invs@, iv),
            g == with_body(*f, *stmts),
            brv == dnf_view(branches@),
            fixv == cons_view(fixed@),
            req_form(f.requires@, f.requires@.len()) == Some(brv),
            fixed_premises(g, iv, fr) == Some(fixv),
            (func_problems(g, iv, fr) is Some) == func_ok(g, iv),
            branch_problems(g, iv, brv, fixv, idx as nat) == Some(problems_view(problems@)),
        decreases n - idx,
    {
        let mut premises = copy_cons(&branches[idx]);
        append_cons(&mut premises, &fixed);
        let bounds = collect_var_bounds(&premises);
        let ghost pv = cons_view(premises@);
        assert(pv == brv[idx as int] + fixv);
        let mut conclusions = match ensures_conclusions(f, &bounds) {
            Ok(c) => c,
            Err(msg) => {
                proof { lemma_branch_none(g, iv, brv, fixv, (idx + 1) as nat, n as nat); }
                return Err(msg);
            },
        };
        let more = match invariant_conclusions(f, invs, &bounds, Ghost(iv)) {
            Ok(c) => c,
            Err(msg) => {
                proof { lemma_branch_none(g, iv, brv, fixv, (idx + 1) as nat, n as nat); }
                return Err(msg);
            },
        };
        let ghost cv0 = concls_view(conclusions@);
        let mut more = more;
        let ghost mv = concls_view(more@);
        let ghost c0 = conclusions@;
        let ghost m0 = more@;
        conclusions.append(&mut more);
        assert(concls_view(c0 + m0) == concls_view(c0) + concls_view(m0));
        let func_name = if n == 1 {
            copy_string(&f.name)
        } else {
            let mut s = copy_string(&f.name);
            push_str(&mut s, "[branch ");
            let t = crate::text::usize_text(idx);
            push_str(&mut s, t.as_str());
            push_char(&mut s, ']');
            s
        };
        let prob = VerificationProblem {
            func_name,
            func_span: f.span,
            premises,
            conclusions,
        };
        let ghost prev = problems@;
        problems.push(prob);
        proof {
            assert(problems_view(prev.push(prob)) == problems_view(prev).push(problem_view(prob)));
            assert(brv.len() == n);
            assert(prob.func_name@ == branch_name(f.name@, idx as int, n as int));
            assert(bounds_form(pv) == bounds_view(bounds@));
            assert(concls_form(g, iv, pv) == Some(concls_view(prob.conclusions@)));
            assert(problem_view(prob) == (branch_name(f.name@, idx as int, brv.len() as int), f.span, brv[idx as int] + fixv, concls_view(prob.conclusions@)));
        }
        idx = idx + 1;
    }
    assert(func_problems(g, iv, fr) == Some(problems_view(problems@)));
    Ok(problems)
}

proof fn lemma_item_funcs_step(items: Seq<Item>, k: int)
    requires
        0 <= k < items.len(),
    ensures
        item_funcs(items.take(k + 1)) == item_funcs(items.take(k)) + match items[k] {
            Item::Func(f) => seq![f],
            _ => Seq::empty(),
        },
{
    assert(items.take(k + 1).drop_last() == items.take(k));
}

proof fn lemma_all_funcs_step(mods: Seq<Module>, k: int)
    requires
        0 <= k < mods.len(),
    ensures
        all_funcs(mods.take(k + 1)) == all_funcs(mods.take(k)) + item_funcs(mods[k].items@),
{
    assert(mods.take(k + 1).drop_last() == mods.take(k));
}

proof fn lemma_item_funcs_prefix(items: Seq<Item>, k: int)
    requires
        0 <= k <= items.len(),
    ensures
        item_funcs(items.take(k)).len() <= item_funcs(items).len(),
        forall|j: int| 0 <= j < item_funcs(items.take(k)).len() ==> #[trigger] item_funcs(items.take(k))[j] == item_funcs(items)[j],
    decreases items.len() - k,
{
    if k < items.len() {
        lemma_item_funcs_prefix(items, k + 1);
        lemma_item_funcs_step(items, k);
        assert forall|j: int| 0 <= j < item_funcs(items.take(k)).len() implies #[trigger] item_funcs(items.take(k))[j] == item_funcs(items)[j] by {
            assert(item_funcs(items.take(k + 1))[j] == item_funcs(items.take(k))[j]);
        }
    } else {
        assert(items.take(k) == items);
    }
}

proof fn lemma_all_funcs_prefix(mods: Seq<Module>, k: int)
    requires
        0 <= k <= mods.len(),
    ensures
        all_funcs(mods.take(k)).len() <= all_funcs(mods).len(),
        forall|j: int| 0 <= j < all_funcs(mods.take(k)).len() ==> #[trigger] all_funcs(mods.take(k))[j] == all_funcs(mods)[j],
    decreases mods.len() - k,
{
    if k < mods.len() {
        lemma_all_funcs_prefix(mods, k + 1);
        lemma_all_funcs_step(mods, k);
        assert forall|j: int| 0 <= j < all_funcs(mods.take(k)).len() implies #[trigger] all_funcs(mods.take(k))[j] == all_funcs(mods)[j] by {
            assert(all_funcs(mods.take(k + 1))[j] == all_funcs(mods.take(k))[j]);
        }
    } else {
        assert(mods.take(k) == mods);
    }
}

/// Extract all verification problems from a parsed program: for every
/// function, in order, one problem per branch of its `requires` clauses,
/// with invariants looked up across all modules.
#[verifier::rlimit(40)]
pub fn extract(modules: &Vec<Module>) -> (r: Result<Vec<VerificationProblem>, String>)
    ensures
        r is Ok <==> forall|k: int| 0 <= k < all_funcs(modules@).len() ==> func_ok(#[trigger] all_funcs(modules@)[k], all_invs(modules@)),
        r matches Ok(ps) ==> exists|frames: Seq<Seq<ConV>>|
            frames_all_ok(all_funcs(modules@), all_invs(modules@), frames)
            && #[trigger] funcs_problems(all_funcs(modules@), all_invs(modules@), frames) == Some(problems_view(ps@)),
{
    let invs = flat_invs(modules);
    let ghost iv = all_invs(modules@);
    let ghost mods = modules@;
    let ghost mut frames: Seq<Seq<ConV>> = Seq::empty();
    let mut problems: Vec<VerificationProblem> = Vec::new();
    let mut i: usize = 0;
    while i < modules.len()
        invariant
            i <= mods.len(),
            mods == modules@,
            invs_match(invs@, iv),
            iv == all_invs(mods),
            forall|k: int| 0 <= k < all_funcs(mods.take(i as int)).len() ==> func_ok(#[trigger] all_funcs(mods.take(i as int))[k], iv),
            frames_all_ok(all_funcs(mods.take(i as int)), iv, frames),
            funcs_problems(all_funcs(mods.take(i as int)), iv, frames) == Some(problems_view(problems@)),
        decreases mods.len() - i,
    {
        let items = &modules[i].items;
        let ghost pre = all_funcs(mods.take(i as int));
        let mut j: usize = 0;
        assert(items@.take(0) == Seq::<Item>::empty());
        assert(pre + item_funcs(items@.take(0)) == pre);
        while j < items.len()
            invariant
                i < mods.len(),
                mods == modules@,
                *items == mods[i as int].items,
                j <= items@.len(),
                invs_match(invs@, iv),
                iv == all_invs(mods),
                pre == all_funcs(mods.take(i as int)),
                forall|k: int| 0 <= k < (pre + item_funcs(items@.take(j as int))).len() ==> func_ok(#[trigger] (pre + item_funcs(items@.take(j as int)))[k], iv),
                frames_all_ok(pre + item_funcs(items@.take(j as int)), iv, frames),
                funcs_problems(pre + item_funcs(items@.take(j as int)), iv, frames) == Some(problems_view(problems@)),
            decreases items@.len() - j,
        {
            proof { lemma_item_funcs_step(items@, j as int); }
            let ghost cur = pre + item_funcs(items@.take(j as int));
            match &items[j] {
                Item::Func(f) => {
                    assert(with_body(*f, f.body) == *f);
                    match build_problems(f, &f.body, &invs, Ghost(iv)) {
                        Ok(ps) => {
                            let ghost fr = choose|fr: Seq<ConV>| frames_ok(fr, *f, iv) && func_problems(*f, iv, fr) == Some(problems_view(ps@));
                            let ghost p0 = problems@;
                            let mut ps = ps;
                            let ghost q0 = ps@;
                            problems.append(&mut ps);
                            proof {
                                assert(problems_view(p0 + q0) == problems_view(p0) + problems_view(q0));
                                let nxt = pre + item_funcs(items@.take(j + 1));
                                assert(nxt == cur.push(*f));
                                assert(nxt.drop_last() == cur);
                                let nf = frames.push(fr);
                                assert(nf.drop_last() == frames);
                                assert(funcs_problems(nxt, iv, nf) == Some(problems_view(problems@)));
                                assert forall|k: int| 0 <= k < nxt.len() implies frames_ok(#[trigger] nf[k], nxt[k], iv) by {
                                    if k < cur.len() {
                                        assert(nf[k] == frames[k]);
                                        assert(nxt[k] == cur[k]);
                                    }
                                }
                                assert forall|k: int| 0 <= k < nxt.len() implies func_ok(#[trigger] nxt[k], iv) by {
                                    if k < cur.len() {
                                        assert(nxt[k] == cur[k]);
                                    }
                                }
                                frames = nf;
                            }
                        },
                        Err(msg) => {
                            proof {
                                let k = cur.len() as int;
                                lemma_all_funcs_step(mods, i as int);
                                lemma_item_funcs_prefix(items@, j as int + 1);
                                lemma_all_funcs_prefix(mods, i as int + 1);
                                assert((pre + item_funcs(items@.take(j + 1)))[k] == *f);
                                assert(item_funcs(items@.take(j + 1))[j as int - j as int + (item_funcs(items@.take(j as int)).len() as int)] == *f);
                                assert(all_funcs(mods.take(i + 1))[k] == *f);
                                assert(all_funcs(mods)[k] == *f);
                                assert(!func_ok(all_funcs(mods)[k], iv));
                            }
                            return Err(msg);
                        },
                    }
                },
                _ => {
                    assert(pre + item_funcs(items@.take(j + 1)) == cur);
                },
            }
            j = j + 1;
        }
        proof {
            assert(items@.take(items@.len() as int) == items@);
            lemma_all_funcs_step(mods, i as int);
        }
        i = i + 1;
    }
    assert(mods.take(mods.len() as int) == mods);
    Ok(problems)
}

} // verus!
