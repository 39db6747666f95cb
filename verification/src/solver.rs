//! A self-contained decision procedure for linear arithmetic constraints,
//! by Fourier-Motzkin variable elimination over the reals. Strict relations
//! are tightened with integrality (`x < k` is `x <= k - 1`), and the result is
//! sound for integer valuations: a set reported unsatisfiable has no integer
//! model ([`lemma_unsat_sound`]).
//!
//! Every constraint is normalised into inequalities `sum(coeff * var) <= c`
//! with distinct variables and nonzero coefficients; [`fm_spec`] describes the
//! elimination exactly. Arithmetic is done in `i128` and checked: when a
//! coefficient would leave `i128`, the procedure reports that it could not
//! decide.

use vstd::prelude::*;
use crate::ir::{
    Linear, Constraint, Relation, Valuation, terms_view, eval_terms, holds, eval_linear,
    merge_terms, merge_term, find_term, nonzero_terms, negate_terms, scale_terms,
    lemma_eval_merge_terms, lemma_eval_nonzero, lemma_eval_negate, lemma_eval_scale,
    lemma_find_term, lemma_eval_push,
};
use crate::text::{str_eq, copy_string};
use crate::extract::{ConV, con_view, cons_view, eval_lin};

verus! {

/// An inequality `sum(coeff * var) <= c`.
pub type IneqV = (Seq<(Seq<char>, int)>, int);

pub open spec fn fits128(x: int) -> bool {
    i128::MIN <= x <= i128::MAX
}

pub open spec fn ineq_holds(q: IneqV, m: Valuation) -> bool {
    eval_terms(q.0, m) <= q.1
}

pub open spec fn all_hold(qs: Seq<IneqV>, m: Valuation) -> bool {
    forall|i: int| 0 <= i < qs.len() ==> #[trigger] ineq_holds(qs[i], m)
}

/// Every variable occurs at most once.
pub open spec fn distinct_names(ts: Seq<(Seq<char>, int)>) -> bool {
    forall|i: int, j: int| 0 <= i < ts.len() && 0 <= j < ts.len() && i != j ==> ts[i].0 != ts[j].0
}

pub open spec fn names_of(ts: Seq<(Seq<char>, int)>) -> Set<Seq<char>> {
    Set::new(|n: Seq<char>| exists|i: int| 0 <= i < ts.len() && #[trigger] ts[i].0 == n)
}

/// The terms of a linear expression with duplicates summed and zero
/// coefficients dropped.
pub open spec fn norm_terms(ts: Seq<(Seq<char>, int)>) -> Seq<(Seq<char>, int)> {
    nonzero_terms(merge_terms(Seq::empty(), ts))
}

/// Does a constraint hold under a valuation?
pub open spec fn holds_v(c: ConV, m: Valuation) -> bool {
    let v = eval_lin(c.0, m);
    match c.1 {
        Relation::Le => v <= 0,
        Relation::Lt => v < 0,
        Relation::Ge => v >= 0,
        Relation::Gt => v > 0,
        Relation::Eq => v == 0,
        Relation::Ne => v != 0,
    }
}

/// The inequalities a constraint stands for over the integers.
pub open spec fn ineqs_of(c: ConV) -> Seq<IneqV> {
    let t = norm_terms(c.0.0);
    let k = c.0.1;
    match c.1 {
        Relation::Le => seq![(t, -k)],
        Relation::Lt => seq![(t, -k - 1)],
        Relation::Ge => seq![(negate_terms(t), k)],
        Relation::Gt => seq![(negate_terms(t), k - 1)],
        Relation::Eq => seq![(t, -k), (negate_terms(t), k)],
        Relation::Ne => Seq::empty(),
    }
}

/// The inequalities of a list of constraints, in order.
pub open spec fn to_ineqs(cs: Seq<ConV>) -> Seq<IneqV>
    decreases cs.len(),
{
    if cs.len() == 0 {
        Seq::empty()
    } else {
        to_ineqs(cs.drop_last()) + ineqs_of(cs.last())
    }
}

/// Every constraint's duplicate terms can be summed within `i64`.
pub open spec fn norm_ok(cs: Seq<ConV>) -> bool {
    forall|i: int| 0 <= i < cs.len() ==> #[trigger] crate::ir::merge_fits(Seq::empty(), cs[i].0.0)
}

/// The coefficient of `v` (0 when absent).
pub open spec fn coef(ts: Seq<(Seq<char>, int)>, v: Seq<char>) -> int {
    match find_term(ts, v) {
        Some(i) => ts[i].1,
        None => 0,
    }
}

/// The terms without `v`.
pub open spec fn without(ts: Seq<(Seq<char>, int)>, v: Seq<char>) -> Seq<(Seq<char>, int)> {
    match find_term(ts, v) {
        Some(i) => ts.remove(i),
        None => ts,
    }
}

/// A bound on `v`: `(a, b, U)` for `a*v + U <= b` (upper, `a > 0`) or for
/// `a*v + U >= b` (lower, `a > 0`).
pub type BoundV = (int, int, Seq<(Seq<char>, int)>);

pub open spec fn is_upper(q: IneqV, v: Seq<char>) -> bool {
    coef(q.0, v) > 0
}

pub open spec fn is_lower(q: IneqV, v: Seq<char>) -> bool {
    coef(q.0, v) < 0
}

pub open spec fn upper_of(q: IneqV, v: Seq<char>) -> BoundV {
    (coef(q.0, v), q.1, without(q.0, v))
}

pub open spec fn lower_of(q: IneqV, v: Seq<char>) -> BoundV {
    (-coef(q.0, v), -q.1, negate_terms(without(q.0, v)))
}

pub open spec fn rest_of(qs: Seq<IneqV>, v: Seq<char>) -> Seq<IneqV> {
    qs.filter(|q: IneqV| coef(q.0, v) == 0)
}

pub open spec fn uppers_of(qs: Seq<IneqV>, v: Seq<char>) -> Seq<BoundV> {
    qs.filter(|q: IneqV| coef(q.0, v) > 0).map_values(|q: IneqV| upper_of(q, v))
}

pub open spec fn lowers_of(qs: Seq<IneqV>, v: Seq<char>) -> Seq<BoundV> {
    qs.filter(|q: IneqV| coef(q.0, v) < 0).map_values(|q: IneqV| lower_of(q, v))
}

/// Eliminating `v` between an upper and a lower bound:
/// `e*U - a*L <= e*b - a*d`.
pub open spec fn pair_ineq(u: BoundV, l: BoundV) -> IneqV {
    let (a, b, uu) = u;
    let (e, d, ll) = l;
    (nonzero_terms(merge_terms(scale_terms(uu, e), scale_terms(ll, -a))), e * b - a * d)
}

/// `merge_terms(ts, bs)` keeps every coefficient within `i128`.
pub open spec fn merge_fits128(ts: Seq<(Seq<char>, int)>, bs: Seq<(Seq<char>, int)>) -> bool
    decreases bs.len(),
{
    if bs.len() == 0 {
        true
    } else {
        let acc = merge_terms(ts, bs.drop_last());
        &&& merge_fits128(ts, bs.drop_last())
        &&& match find_term(acc, bs.last().0) {
            Some(i) => fits128(acc[i].1 + bs.last().1),
            None => true,
        }
    }
}

pub open spec fn scale_fits128(ts: Seq<(Seq<char>, int)>, k: int) -> bool {
    forall|i: int| 0 <= i < ts.len() ==> fits128(#[trigger] ts[i].1 * k)
}

pub open spec fn pair_ok(u: BoundV, l: BoundV) -> bool {
    let (a, b, uu) = u;
    let (e, d, ll) = l;
    &&& scale_fits128(uu, e)
    &&& scale_fits128(ll, -a)
    &&& merge_fits128(scale_terms(uu, e), scale_terms(ll, -a))
    &&& fits128(e * b)
    &&& fits128(a * d)
    &&& fits128(e * b - a * d)
}

/// Every upper bound paired with every lower bound, uppers outermost.
pub open spec fn pairs_of(us: Seq<BoundV>, ls: Seq<BoundV>) -> Seq<IneqV>
    decreases us.len(),
{
    if us.len() == 0 {
        Seq::empty()
    } else {
        pairs_of(us.drop_last(), ls) + ls.map_values(|l: BoundV| pair_ineq(us.last(), l))
    }
}

pub open spec fn pairs_ok(us: Seq<BoundV>, ls: Seq<BoundV>) -> bool {
    forall|i: int, j: int| 0 <= i < us.len() && 0 <= j < ls.len() ==> #[trigger] pair_ok(us[i], ls[j])
}

/// Negating an inequality's constant and coefficients stays within `i128`.
pub open spec fn neg_fits_q(q: IneqV) -> bool {
    fits128(-q.1) && forall|j: int| 0 <= j < q.0.len() ==> fits128(-(#[trigger] q.0[j]).1)
}

/// Every lower bound on `v` can be negated within `i128`.
pub open spec fn lowers_ok(qs: Seq<IneqV>, v: Seq<char>) -> bool {
    forall|i: int| 0 <= i < qs.len() && #[trigger] coef(qs[i].0, v) < 0 ==> neg_fits_q(qs[i])
}

/// One elimination step: the inequalities without `v`, then the pairs.
pub open spec fn step(qs: Seq<IneqV>, v: Seq<char>) -> Seq<IneqV> {
    rest_of(qs, v) + pairs_of(uppers_of(qs, v), lowers_of(qs, v))
}

pub open spec fn step_ok(qs: Seq<IneqV>, v: Seq<char>) -> bool {
    lowers_ok(qs, v) && pairs_ok(uppers_of(qs, v), lowers_of(qs, v))
}

/// The system after eliminating `vars[0..k]`, or `None` when a coefficient
/// leaves `i128` on the way.
pub open spec fn fm_spec(qs: Seq<IneqV>, vars: Seq<Seq<char>>, k: nat) -> Option<Seq<IneqV>>
    decreases k,
{
    if k == 0 || k > vars.len() {
        if k == 0 { Some(qs) } else { None }
    } else {
        match fm_spec(qs, vars, (k - 1) as nat) {
            Some(q) => if step_ok(q, vars[k - 1]) { Some(step(q, vars[k - 1])) } else { None },
            None => None,
        }
    }
}

/// Some inequality reads `0 <= c` with `c < 0`.
pub open spec fn has_false(qs: Seq<IneqV>) -> bool {
    exists|i: int| 0 <= i < qs.len() && #[trigger] qs[i].0.len() == 0 && qs[i].1 < 0
}

/// `acc` followed by the names of `ts` it lacks, in order of appearance.
pub open spec fn add_names(acc: Seq<Seq<char>>, ts: Seq<(Seq<char>, int)>) -> Seq<Seq<char>>
    decreases ts.len(),
{
    if ts.len() == 0 {
        acc
    } else {
        let a = add_names(acc, ts.drop_last());
        if a.contains(ts.last().0) { a } else { a.push(ts.last().0) }
    }
}

/// The variables of a system, in order of first appearance.
pub open spec fn vars_in(qs: Seq<IneqV>) -> Seq<Seq<char>>
    decreases qs.len(),
{
    if qs.len() == 0 {
        Seq::empty()
    } else {
        add_names(vars_in(qs.drop_last()), qs.last().0)
    }
}

/// The outcome of eliminating every variable of `cs`: whether a
/// contradiction `0 <= c < 0` was derived, or `None` when the arithmetic left
/// `i128` (or duplicate terms could not be summed within `i64`).
pub open spec fn unsat_spec(cs: Seq<ConV>) -> Option<bool> {
    if !norm_ok(cs) {
        None
    } else {
        let qs = to_ineqs(cs);
        match fm_spec(qs, vars_in(qs), vars_in(qs).len()) {
            Some(f) => Some(has_false(f)),
            None => None,
        }
    }
}

/// Every variable in `qs` appears in `vars`, and no variable twice in vars.
pub open spec fn vars_cover(qs: Seq<IneqV>, vars: Seq<Seq<char>>) -> bool {
    &&& vars.no_duplicates()
    &&& forall|i: int, n: Seq<char>| 0 <= i < qs.len() && #[trigger] names_of(qs[i].0).contains(n) ==> vars.contains(n)
}

// ---------------------------------------------------------------------------
// Term lists over `i128`
// ---------------------------------------------------------------------------

pub open spec fn t128_view(ts: Seq<(String, i128)>) -> Seq<(Seq<char>, int)> {
    ts.map_values(|p: (String, i128)| (p.0@, p.1 as int))
}

/// An inequality `sum(coeff * var) <= c`.
#[derive(Debug)]
struct Ineq {
    coeffs: Vec<(String, i128)>,
    c: i128,
}

spec fn ineq_view(q: Ineq) -> IneqV {
    (t128_view(q.coeffs@), q.c as int)
}

spec fn ineqs_view(qs: Seq<Ineq>) -> Seq<IneqV> {
    qs.map_values(|q: Ineq| ineq_view(q))
}

fn copy128(ts: &Vec<(String, i128)>) -> (r: Vec<(String, i128)>)
    ensures
        t128_view(r@) == t128_view(ts@),
{
    let mut out: Vec<(String, i128)> = Vec::new();
    let mut i: usize = 0;
    while i < ts.len()
        invariant
            i <= ts@.len(),
            t128_view(out@) == t128_view(ts@.take(i as int)),
        decreases ts@.len() - i,
    {
        let ghost prev = out@;
        let p = (copy_string(&ts[i].0), ts[i].1);
        out.push(p);
        assert(t128_view(prev.push(p)) == t128_view(prev).push((p.0@, p.1 as int)));
        assert(t128_view(ts@.take(i + 1)) == t128_view(ts@.take(i as int)).push((ts@[i as int].0@, ts@[i as int].1 as int)));
        i = i + 1;
    }
    assert(ts@.take(ts@.len() as int) == ts@);
    out
}

fn copy_ineq(q: &Ineq) -> (r: Ineq)
    ensures
        ineq_view(r) == ineq_view(*q),
{
    Ineq { coeffs: copy128(&q.coeffs), c: q.c }
}

fn find128(ts: &Vec<(String, i128)>, v: &str) -> (r: Option<usize>)
    ensures
        r matches Some(i) ==> find_term(t128_view(ts@), v@) == Some(i as int) && i < ts@.len(),
        r is None ==> find_term(t128_view(ts@), v@) is None,
{
    let ghost tv = t128_view(ts@);
    let mut i: usize = 0;
    while i < ts.len()
        invariant
            i <= ts@.len(),
            tv == t128_view(ts@),
            find_term(tv.take(i as int), v@) is None,
        decreases ts@.len() - i,
    {
        assert(tv.take(i + 1).drop_last() == tv.take(i as int));
        if str_eq(ts[i].0.as_str(), v) {
            proof {
                crate::ir::lemma_find_prefix(tv, i as int + 1, v@);
            }
            return Some(i);
        }
        i = i + 1;
    }
    assert(tv.take(tv.len() as int) == tv);
    None
}

fn scale128(ts: &Vec<(String, i128)>, k: i128) -> (r: Option<Vec<(String, i128)>>)
    ensures
        r is Some <==> scale_fits128(t128_view(ts@), k as int),
        r matches Some(o) ==> t128_view(o@) == scale_terms(t128_view(ts@), k as int),
{
    let ghost tv = t128_view(ts@);
    let mut out: Vec<(String, i128)> = Vec::new();
    let mut i: usize = 0;
    while i < ts.len()
        invariant
            i <= ts@.len(),
            tv == t128_view(ts@),
            t128_view(out@) == scale_terms(tv.take(i as int), k as int),
            forall|j: int| 0 <= j < i ==> fits128(#[trigger] tv[j].1 * k),
        decreases ts@.len() - i,
    {
        match ts[i].1.checked_mul(k) {
            Some(p) => {
                let ghost prev = out@;
                let e = (copy_string(&ts[i].0), p);
                out.push(e);
                assert(t128_view(prev.push(e)) == t128_view(prev).push((e.0@, e.1 as int)));
                assert(scale_terms(tv.take(i + 1), k as int) == scale_terms(tv.take(i as int), k as int).push((tv[i as int].0, tv[i as int].1 * k)));
            },
            None => {
                assert(!fits128(tv[i as int].1 * k));
                return None;
            },
        }
        i = i + 1;
    }
    assert(tv.take(tv.len() as int) == tv);
    Some(out)
}

proof fn lemma_merge_fits128_prefix(a: Seq<(Seq<char>, int)>, b: Seq<(Seq<char>, int)>, k: int)
    requires
        0 <= k <= b.len(),
        !merge_fits128(a, b.take(k)),
    ensures
        !merge_fits128(a, b),
    decreases b.len() - k,
{
    if k < b.len() {
        assert(b.take(k + 1).drop_last() == b.take(k));
        lemma_merge_fits128_prefix(a, b, k + 1);
    } else {
        assert(b.take(k) == b);
    }
}

/// Merge every term of `b`, in order, into `a`.
fn merge128(a: Vec<(String, i128)>, b: &Vec<(String, i128)>) -> (r: Option<Vec<(String, i128)>>)
    ensures
        r is Some <==> merge_fits128(t128_view(a@), t128_view(b@)),
        r matches Some(o) ==> t128_view(o@) == merge_terms(t128_view(a@), t128_view(b@)),
{
    let ghost av = t128_view(a@);
    let ghost bv = t128_view(b@);
    let mut terms = a;
    let mut i: usize = 0;
    while i < b.len()
        invariant
            i <= b@.len(),
            bv == t128_view(b@),
            av == t128_view(a@),
            t128_view(terms@) == merge_terms(av, bv.take(i as int)),
            merge_fits128(av, bv.take(i as int)),
        decreases b@.len() - i,
    {
        let v = &b[i].0;
        let c = b[i].1;
        assert(bv.take(i + 1).drop_last() == bv.take(i as int));
        assert(bv.take(i + 1).last() == (v@, c as int));
        let ghost before = terms@;
        match find128(&terms, v.as_str()) {
            Some(j) => {
                let old_c = terms[j].1;
                proof {
                    lemma_find_term(t128_view(terms@), v@);
                }
                match old_c.checked_add(c) {
                    Some(nc) => {
                        let name = copy_string(&terms[j].0);
                        terms.set(j, (name, nc));
                        assert(t128_view(terms@) == t128_view(before).update(j as int, (t128_view(before)[j as int].0, t128_view(before)[j as int].1 + c)));
                    },
                    None => {
                        proof {
                            let acc = t128_view(terms@);
                            assert(acc[j as int].1 == old_c);
                            assert(merge_terms(av, bv.take(i + 1).drop_last()) == acc);
                            assert(!merge_fits128(av, bv.take(i + 1)));
                            lemma_merge_fits128_prefix(av, bv, i as int + 1);
                        }
                        return None;
                    },
                }
            },
            None => {
                terms.push((copy_string(v), c));
                assert(t128_view(terms@) == t128_view(before).push((v@, c as int)));
            },
        }
        i = i + 1;
    }
    assert(bv.take(bv.len() as int) == bv);
    Some(terms)
}

/// The terms with a nonzero coefficient, in order.
fn nonzero128(ts: Vec<(String, i128)>) -> (r: Vec<(String, i128)>)
    ensures
        t128_view(r@) == nonzero_terms(t128_view(ts@)),
{
    let ghost tv = t128_view(ts@);
    let mut out: Vec<(String, i128)> = Vec::new();
    let mut i: usize = 0;
    while i < ts.len()
        invariant
            i <= ts@.len(),
            tv == t128_view(ts@),
            t128_view(out@) == nonzero_terms(tv.take(i as int)),
        decreases ts@.len() - i,
    {
        reveal_with_fuel(Seq::filter, 1);
        assert(tv.take(i + 1).drop_last() == tv.take(i as int));
        if ts[i].1 != 0 {
            let ghost prev = out@;
            let e = (copy_string(&ts[i].0), ts[i].1);
            out.push(e);
            assert(t128_view(prev.push(e)) == t128_view(prev).push((e.0@, e.1 as int)));
        }
        i = i + 1;
    }
    assert(tv.take(tv.len() as int) == tv);
    out
}

// ---------------------------------------------------------------------------
// One elimination step
// ---------------------------------------------------------------------------

/// `(a, b, rest)`: an upper bound `a*v + rest <= b` or a lower bound
/// `a*v + rest >= b`, with `a > 0`.
struct Bound {
    a: i128,
    b: i128,
    rest: Vec<(String, i128)>,
}

spec fn bound_view(x: Bound) -> BoundV {
    (x.a as int, x.b as int, t128_view(x.rest@))
}

spec fn bounds_v(s: Seq<Bound>) -> Seq<BoundV> {
    s.map_values(|x: Bound| bound_view(x))
}

fn neg_i128(x: i128) -> (r: Option<i128>)
    ensures
        r is Some <==> fits128(-x),
        r matches Some(y) ==> y == -x,
{
    if x == i128::MIN { None } else { Some(-x) }
}

fn neg128(ts: &Vec<(String, i128)>) -> (r: Option<Vec<(String, i128)>>)
    ensures
        r is Some <==> (forall|j: int| 0 <= j < ts@.len() ==> fits128(-(#[trigger] ts@[j]).1)),
        r matches Some(o) ==> t128_view(o@) == negate_terms(t128_view(ts@)),
{
    let ghost tv = t128_view(ts@);
    let mut out: Vec<(String, i128)> = Vec::new();
    let mut i: usize = 0;
    while i < ts.len()
        invariant
            i <= ts@.len(),
            tv == t128_view(ts@),
            t128_view(out@) == negate_terms(tv.take(i as int)),
            forall|j: int| 0 <= j < i ==> fits128(-(#[trigger] ts@[j]).1),
        decreases ts@.len() - i,
    {
        match neg_i128(ts[i].1) {
            Some(n) => {
                let ghost prev = out@;
                let e = (copy_string(&ts[i].0), n);
                out.push(e);
                assert(t128_view(prev.push(e)) == t128_view(prev).push((e.0@, e.1 as int)));
                assert(negate_terms(tv.take(i + 1)) == negate_terms(tv.take(i as int)).push((tv[i as int].0, -tv[i as int].1)));
            },
            None => {
                return None;
            },
        }
        i = i + 1;
    }
    assert(tv.take(tv.len() as int) == tv);
    Some(out)
}

/// Eliminate `v` between an upper and a lower bound.
fn pair(u: &Bound, l: &Bound) -> (r: Option<Ineq>)
    requires
        u.a > 0,
    ensures
        r is Some <==> pair_ok(bound_view(*u), bound_view(*l)),
        r matches Some(q) ==> ineq_view(q) == pair_ineq(bound_view(*u), bound_view(*l)),
{
    let su = scale128(&u.rest, l.a)?;
    let sl = scale128(&l.rest, -u.a)?;
    let merged = merge128(su, &sl)?;
    let coeffs = nonzero128(merged);
    let eb = l.a.checked_mul(u.b)?;
    let ad = u.a.checked_mul(l.b)?;
    let c = eb.checked_sub(ad)?;
    Some(Ineq { coeffs, c })
}

pub proof fn lemma_filter_step<A>(s: Seq<A>, i: int, p: spec_fn(A) -> bool)
    requires
        0 <= i < s.len(),
    ensures
        s.take(i + 1).filter(p) == if p(s[i]) { s.take(i).filter(p).push(s[i]) } else { s.take(i).filter(p) },
{
    reveal_with_fuel(Seq::filter, 1);
    assert(s.take(i + 1).drop_last() == s.take(i));
}

/// One Fourier-Motzkin step: keep the inequalities without `v` and pair
/// every upper bound on `v` with every lower bound.
fn eliminate(qs: &Vec<Ineq>, v: &str) -> (r: Option<(Vec<Ineq>, Vec<Bound>, Vec<Bound>)>)
    ensures
        r is Some <==> step_ok(ineqs_view(qs@), v@),
        r matches Some((n, us, ls)) ==> ineqs_view(n@) == step(ineqs_view(qs@), v@)
            && bounds_v(us@) == uppers_of(ineqs_view(qs@), v@)
            && bounds_v(ls@) == lowers_of(ineqs_view(qs@), v@)
            && (forall|k: int| 0 <= k < us@.len() ==> (#[trigger] us@[k]).a > 0)
            && (forall|k: int| 0 <= k < ls@.len() ==> (#[trigger] ls@[k]).a > 0),
{
    let ghost qv = ineqs_view(qs@);
    let ghost vv = v@;
    let ghost prest = |q: IneqV| coef(q.0, vv) == 0;
    let ghost pup = |q: IneqV| coef(q.0, vv) > 0;
    let ghost plow = |q: IneqV| coef(q.0, vv) < 0;
    let mut rest: Vec<Ineq> = Vec::new();
    let mut ups: Vec<Bound> = Vec::new();
    let mut lows: Vec<Bound> = Vec::new();
    let mut i: usize = 0;
    while i < qs.len()
        invariant
            i <= qs@.len(),
            qv == ineqs_view(qs@),
            vv == v@,
            prest == (|q: IneqV| coef(q.0, vv) == 0),
            pup == (|q: IneqV| coef(q.0, vv) > 0),
            plow == (|q: IneqV| coef(q.0, vv) < 0),
            ineqs_view(rest@) == qv.take(i as int).filter(prest),
            bounds_v(ups@) == qv.take(i as int).filter(pup).map_values(|q: IneqV| upper_of(q, vv)),
            bounds_v(lows@) == qv.take(i as int).filter(plow).map_values(|q: IneqV| lower_of(q, vv)),
            forall|k: int| 0 <= k < ups@.len() ==> (#[trigger] ups@[k]).a > 0,
            forall|k: int| 0 <= k < lows@.len() ==> (#[trigger] lows@[k]).a > 0,
            lowers_ok(qv.take(i as int), vv),
        decreases qs@.len() - i,
    {
        proof {
            lemma_filter_step(qv, i as int, prest);
            lemma_filter_step(qv, i as int, pup);
            lemma_filter_step(qv, i as int, plow);
            assert(qv.take(i + 1)[i as int] == qv[i as int]);
        }
        let q = &qs[i];
        let ghost qi = qv[i as int];
        assert(qi == ineq_view(*q));
        match find128(&q.coeffs, v) {
            None => {
                let ghost prev = rest@;
                let cq = copy_ineq(q);
                rest.push(cq);
                assert(ineqs_view(prev.push(cq)) == ineqs_view(prev).push(ineq_view(cq)));
                assert(lowers_ok(qv.take(i + 1), vv)) by {
                    assert forall|k: int| 0 <= k < qv.take(i + 1).len() && #[trigger] coef(qv.take(i + 1)[k].0, vv) < 0 implies
                        neg_fits_q(qv.take(i + 1)[k]) by {
                        assert(k < i);
                        assert(qv.take(i + 1)[k] == qv.take(i as int)[k]);
                    }
                }
            },
            Some(j) => {
                let t = q.coeffs[j].1;
                let mut others = copy128(&q.coeffs);
                let ghost ov = t128_view(others@);
                others.remove(j);
                assert(t128_view(others@) == ov.remove(j as int));
                if t > 0 {
                    let bnd = Bound { a: t, b: q.c, rest: others };
                    let ghost prev = ups@;
                    ups.push(bnd);
                    assert(bounds_v(prev.push(bnd)) == bounds_v(prev).push(bound_view(bnd)));
                } else if t < 0 {
                    let na = match neg_i128(t) { Some(x) => x, None => { return None; } };
                    let nb = match neg_i128(q.c) { Some(x) => x, None => { return None; } };
                    let nr = match neg128(&others) {
                        Some(x) => x,
                        None => {
                            proof {
                                let w = t128_view(others@);
                                let jj = choose|jj: int| 0 <= jj < others@.len() && !fits128(-(#[trigger] others@[jj]).1);
                                if jj < j {
                                    assert(qi.0[jj] == w[jj]);
                                } else {
                                    assert(qi.0[jj + 1] == w[jj]);
                                }
                            }
                            return None;
                        },
                    };
                    let bnd = Bound { a: na, b: nb, rest: nr };
                    let ghost prev = lows@;
                    lows.push(bnd);
                    assert(bounds_v(prev.push(bnd)) == bounds_v(prev).push(bound_view(bnd)));
                    assert(lowers_ok(qv.take(i + 1), vv)) by {
                        assert forall|k: int| 0 <= k < qv.take(i + 1).len() && #[trigger] coef(qv.take(i + 1)[k].0, vv) < 0 implies
                            neg_fits_q(qv.take(i + 1)[k]) by {
                            if k < i {
                                assert(qv.take(i + 1)[k] == qv.take(i as int)[k]);
                            } else {
                                assert forall|jx: int| 0 <= jx < qi.0.len() implies fits128(-qi.0[jx].1) by {
                                    let w = t128_view(others@);
                                    if jx < j {
                                        assert(qi.0[jx] == w[jx]);
                                    } else if jx > j {
                                        assert(qi.0[jx] == w[jx - 1]);
                                    }
                                }
                            }
                        }
                    }
                } else {
                    let ghost prev = rest@;
                    let cq = copy_ineq(q);
                    rest.push(cq);
                    assert(ineqs_view(prev.push(cq)) == ineqs_view(prev).push(ineq_view(cq)));
                }
                if t >= 0 {
                    assert(lowers_ok(qv.take(i + 1), vv)) by {
                        assert forall|k: int| 0 <= k < qv.take(i + 1).len() && #[trigger] coef(qv.take(i + 1)[k].0, vv) < 0 implies
                            neg_fits_q(qv.take(i + 1)[k]) by {
                            assert(k < i);
                            assert(qv.take(i + 1)[k] == qv.take(i as int)[k]);
                        }
                    }
                }
            },
        }
        i = i + 1;
    }
    assert(qv.take(qv.len() as int) == qv);
    let ghost us = bounds_v(ups@);
    let ghost ls = bounds_v(lows@);
    let ghost rv = ineqs_view(rest@);
    assert(us == uppers_of(qv, vv));
    assert(ls == lowers_of(qv, vv));
    let mut out = rest;
    let mut a: usize = 0;
    while a < ups.len()
        invariant
            a <= ups@.len(),
            us == bounds_v(ups@),
            ls == bounds_v(lows@),
            qv == ineqs_view(qs@),
            vv == v@,
            us == uppers_of(qv, vv),
            ls == lowers_of(qv, vv),
            rv == rest_of(qv, vv),
            lowers_ok(qv, vv),
            forall|k: int| 0 <= k < ups@.len() ==> (#[trigger] ups@[k]).a > 0,
            forall|k: int| 0 <= k < lows@.len() ==> (#[trigger] lows@[k]).a > 0,
            ineqs_view(out@) == rv + pairs_of(us.take(a as int), ls),
            pairs_ok(us.take(a as int), ls),
        decreases ups@.len() - a,
    {
        let ghost start = ineqs_view(out@);
        let mut b: usize = 0;
        while b < lows.len()
            invariant
                a < ups@.len(),
                b <= lows@.len(),
                us == bounds_v(ups@),
                ls == bounds_v(lows@),
                qv == ineqs_view(qs@),
                vv == v@,
                us == uppers_of(qv, vv),
                ls == lowers_of(qv, vv),
                lowers_ok(qv, vv),
                ups@[a as int].a > 0,
                ineqs_view(out@) == start + ls.take(b as int).map_values(|l: BoundV| pair_ineq(us[a as int], l)),
                forall|k: int| 0 <= k < b ==> #[trigger] pair_ok(us[a as int], ls[k]),
            decreases lows@.len() - b,
        {
            match pair(&ups[a], &lows[b]) {
                Some(q) => {
                    let ghost prev = out@;
                    out.push(q);
                    assert(ineqs_view(prev.push(q)) == ineqs_view(prev).push(ineq_view(q)));
                    assert(ls.take(b + 1).map_values(|l: BoundV| pair_ineq(us[a as int], l))
                        == ls.take(b as int).map_values(|l: BoundV| pair_ineq(us[a as int], l)).push(pair_ineq(us[a as int], ls[b as int])));
                },
                None => {
                    assert(!pair_ok(us[a as int], ls[b as int]));
                    assert(!pairs_ok(us, ls));
                    return None;
                },
            }
            b = b + 1;
        }
        proof {
            assert(ls.take(ls.len() as int) == ls);
            assert(us.take(a + 1).drop_last() == us.take(a as int));
            assert(us.take(a + 1).last() == us[a as int]);
            assert forall|x: int, y: int| 0 <= x < us.take(a + 1).len() && 0 <= y < ls.len() implies #[trigger] pair_ok(us.take(a + 1)[x], ls[y]) by {
                if x < a {
                    assert(us.take(a + 1)[x] == us.take(a as int)[x]);
                }
            }
        }
        a = a + 1;
    }
    assert(us.take(us.len() as int) == us);
    Some((out, ups, lows))
}

// ---------------------------------------------------------------------------
// Soundness
// ---------------------------------------------------------------------------

proof fn lemma_eval_remove(ts: Seq<(Seq<char>, int)>, i: int, m: Valuation)
    requires
        0 <= i < ts.len(),
    ensures
        eval_terms(ts, m) == eval_terms(ts.remove(i), m) + ts[i].1 * m(ts[i].0),
    decreases ts.len(),
{
    if i == ts.len() - 1 {
        assert(ts.remove(i) == ts.drop_last());
    } else {
        lemma_eval_remove(ts.drop_last(), i, m);
        assert(ts.remove(i).drop_last() == ts.drop_last().remove(i));
        assert(ts.remove(i).last() == ts.last());
    }
}

/// The value of a term list splits into `v`'s part and the rest.
proof fn lemma_eval_without(ts: Seq<(Seq<char>, int)>, v: Seq<char>, m: Valuation)
    ensures
        eval_terms(ts, m) == coef(ts, v) * m(v) + eval_terms(without(ts, v), m),
{
    lemma_find_term(ts, v);
    match find_term(ts, v) {
        Some(i) => lemma_eval_remove(ts, i, m),
        None => {},
    }
}

proof fn lemma_pair_sound(q1: IneqV, q2: IneqV, v: Seq<char>, m: Valuation)
    requires
        ineq_holds(q1, m),
        ineq_holds(q2, m),
        coef(q1.0, v) > 0,
        coef(q2.0, v) < 0,
    ensures
        ineq_holds(pair_ineq(upper_of(q1, v), lower_of(q2, v)), m),
{
    let (a, b, uu) = upper_of(q1, v);
    let (e, d, ll) = lower_of(q2, v);
    lemma_eval_without(q1.0, v, m);
    lemma_eval_without(q2.0, v, m);
    lemma_eval_negate(without(q2.0, v), m);
    let su = scale_terms(uu, e);
    let sl = scale_terms(ll, -a);
    lemma_eval_scale(uu, e, m);
    lemma_eval_scale(ll, -a, m);
    lemma_eval_merge_terms(su, sl, m);
    lemma_eval_nonzero(merge_terms(su, sl), m);
    let x = m(v);
    let eu = eval_terms(uu, m);
    let el = eval_terms(ll, m);
    assert(a * x + eu <= b);
    let t2 = coef(q2.0, v);
    assert((-t2) * x == -(t2 * x)) by (nonlinear_arith);
    assert(e * x + el >= d);
    assert(e * eu + (-a) * el <= e * b - a * d) by (nonlinear_arith)
        requires a > 0, e > 0, a * x + eu <= b, e * x + el >= d;
}

/// Every pair inequality comes from one upper and one lower bound.
proof fn lemma_pairs_index(us: Seq<BoundV>, ls: Seq<BoundV>, k: int)
    requires
        0 <= k < pairs_of(us, ls).len(),
    ensures
        exists|i: int, j: int| 0 <= i < us.len() && 0 <= j < ls.len() && pairs_of(us, ls)[k] == #[trigger] pair_ineq(us[i], ls[j]),
    decreases us.len(),
{
    let init = pairs_of(us.drop_last(), ls);
    assert(pairs_of(us, ls) == init + ls.map_values(|l: BoundV| pair_ineq(us.last(), l)));
    if k < init.len() {
        lemma_pairs_index(us.drop_last(), ls, k);
        let (i, j) = choose|i: int, j: int| 0 <= i < us.drop_last().len() && 0 <= j < ls.len() && init[k] == #[trigger] pair_ineq(us.drop_last()[i], ls[j]);
        assert(us.drop_last()[i] == us[i]);
    } else {
        let j = k - init.len();
        assert(pairs_of(us, ls)[k] == pair_ineq(us[us.len() - 1], ls[j]));
    }
}

/// An elimination step keeps every inequality a valuation satisfies.
pub proof fn lemma_step_sound(qs: Seq<IneqV>, v: Seq<char>, m: Valuation)
    requires
        all_hold(qs, m),
    ensures
        all_hold(step(qs, v), m),
{
    broadcast use vstd::seq_lib::group_filter_ensures;
    let rest = rest_of(qs, v);
    let us = uppers_of(qs, v);
    let ls = lowers_of(qs, v);
    let fu = qs.filter(|q: IneqV| coef(q.0, v) > 0);
    let fl = qs.filter(|q: IneqV| coef(q.0, v) < 0);
    assert forall|k: int| 0 <= k < step(qs, v).len() implies #[trigger] ineq_holds(step(qs, v)[k], m) by {
        if k < rest.len() {
            assert(step(qs, v)[k] == rest[k]);
            assert(rest.contains(rest[k]));
            qs.lemma_filter_contains_rev(|q: IneqV| coef(q.0, v) == 0, rest[k]);
            let w = choose|w: int| 0 <= w < qs.len() && qs[w] == rest[k];
            assert(ineq_holds(qs[w], m));
        } else {
            let kk = k - rest.len();
            assert(step(qs, v)[k] == pairs_of(us, ls)[kk]);
            lemma_pairs_index(us, ls, kk);
            let (i, j) = choose|i: int, j: int| 0 <= i < us.len() && 0 <= j < ls.len() && pairs_of(us, ls)[kk] == #[trigger] pair_ineq(us[i], ls[j]);
            let q1 = fu[i];
            let q2 = fl[j];
            assert(us[i] == upper_of(q1, v));
            assert(ls[j] == lower_of(q2, v));
            assert(fu.contains(q1));
            assert(fl.contains(q2));
            qs.lemma_filter_contains_rev(|q: IneqV| coef(q.0, v) > 0, q1);
            qs.lemma_filter_contains_rev(|q: IneqV| coef(q.0, v) < 0, q2);
            let w1 = choose|w: int| 0 <= w < qs.len() && qs[w] == q1;
            let w2 = choose|w: int| 0 <= w < qs.len() && qs[w] == q2;
            assert(ineq_holds(qs[w1], m));
            assert(ineq_holds(qs[w2], m));
            lemma_pair_sound(q1, q2, v, m);
        }
    }
}

/// Elimination keeps every inequality a valuation satisfies.
pub proof fn lemma_fm_sound(qs: Seq<IneqV>, vars: Seq<Seq<char>>, k: nat, m: Valuation)
    requires
        all_hold(qs, m),
        fm_spec(qs, vars, k) is Some,
    ensures
        all_hold(fm_spec(qs, vars, k).unwrap(), m),
    decreases k,
{
    if k > 0 {
        lemma_fm_sound(qs, vars, (k - 1) as nat, m);
        lemma_step_sound(fm_spec(qs, vars, (k - 1) as nat).unwrap(), vars[k - 1], m);
    }
}

proof fn lemma_norm_eval(ts: Seq<(Seq<char>, int)>, m: Valuation)
    ensures
        eval_terms(norm_terms(ts), m) == eval_terms(ts, m),
{
    lemma_eval_merge_terms(Seq::empty(), ts, m);
    lemma_eval_nonzero(merge_terms(Seq::empty(), ts), m);
    assert(eval_terms(Seq::<(Seq<char>, int)>::empty(), m) == 0);
}

/// A constraint that holds makes its inequalities hold (over the integers).
proof fn lemma_ineqs_of_sound(c: ConV, m: Valuation)
    requires
        holds_v(c, m),
    ensures
        all_hold(ineqs_of(c), m),
{
    let ts = c.0.0;
    lemma_norm_eval(ts, m);
    lemma_eval_negate(norm_terms(ts), m);
}

proof fn lemma_to_ineqs_sound(cs: Seq<ConV>, m: Valuation)
    requires
        forall|i: int| 0 <= i < cs.len() ==> #[trigger] holds_v(cs[i], m),
    ensures
        all_hold(to_ineqs(cs), m),
    decreases cs.len(),
{
    if cs.len() > 0 {
        let init = cs.drop_last();
        assert forall|i: int| 0 <= i < init.len() implies #[trigger] holds_v(init[i], m) by {
            assert(init[i] == cs[i]);
        }
        lemma_to_ineqs_sound(init, m);
        lemma_ineqs_of_sound(cs.last(), m);
        let a = to_ineqs(init);
        let b = ineqs_of(cs.last());
        assert forall|k: int| 0 <= k < (a + b).len() implies #[trigger] ineq_holds((a + b)[k], m) by {
            if k < a.len() {
                assert((a + b)[k] == a[k]);
            } else {
                assert((a + b)[k] == b[k - a.len()]);
            }
        }
    }
}

/// A set reported unsatisfiable has no integer model: some constraint
/// fails under every valuation.
pub proof fn lemma_unsat_sound(cs: Seq<ConV>, m: Valuation)
    requires
        unsat_spec(cs) == Some(true),
    ensures
        exists|i: int| 0 <= i < cs.len() && !#[trigger] holds_v(cs[i], m),
{
    if forall|i: int| 0 <= i < cs.len() ==> #[trigger] holds_v(cs[i], m) {
        let qs = to_ineqs(cs);
        lemma_to_ineqs_sound(cs, m);
        lemma_fm_sound(qs, vars_in(qs), vars_in(qs).len(), m);
        let f = fm_spec(qs, vars_in(qs), vars_in(qs).len()).unwrap();
        let i = choose|i: int| 0 <= i < f.len() && #[trigger] f[i].0.len() == 0 && f[i].1 < 0;
        assert(ineq_holds(f[i], m));
        assert(eval_terms(f[i].0, m) == 0);
        assert(false);
    }
}

/// A set that mentions no variable once normalized, and whose every
/// inequality `0 <= c` holds.
pub open spec fn constant_sat(cs: Seq<ConV>) -> bool {
    &&& norm_ok(cs)
    &&& vars_in(to_ineqs(cs)).len() == 0
    &&& forall|j: int| 0 <= j < to_ineqs(cs).len() ==> #[trigger] to_ineqs(cs)[j].1 >= 0
}

/// No valuation satisfies the inequalities of a set reported unsatisfiable.
proof fn lemma_unsat_no_model(cs: Seq<ConV>, m: Valuation)
    requires
        unsat_spec(cs) == Some(true),
    ensures
        !all_hold(to_ineqs(cs), m),
{
    let qs = to_ineqs(cs);
    if all_hold(qs, m) {
        lemma_fm_sound(qs, vars_in(qs), vars_in(qs).len(), m);
        let f = fm_spec(qs, vars_in(qs), vars_in(qs).len()).unwrap();
        let i = choose|i: int| 0 <= i < f.len() && #[trigger] f[i].0.len() == 0 && f[i].1 < 0;
        assert(ineq_holds(f[i], m));
        assert(eval_terms(f[i].0, m) == 0);
    }
}

// ---------------------------------------------------------------------------
// Deciding unsatisfiability
// ---------------------------------------------------------------------------

proof fn lemma_to_ineqs_take(cs: Seq<ConV>, i: int)
    requires
        0 <= i < cs.len(),
    ensures
        to_ineqs(cs.take(i + 1)) == to_ineqs(cs.take(i)) + ineqs_of(cs[i]),
{
    assert(cs.take(i + 1).drop_last() == cs.take(i));
}

fn push_ineq(out: &mut Vec<Ineq>, q: Ineq)
    ensures
        ineqs_view(final(out)@) == ineqs_view(old(out)@).push(ineq_view(q)),
{
    let ghost prev = out@;
    out.push(q);
    assert(ineqs_view(prev.push(q)) == ineqs_view(prev).push(ineq_view(q)));
}

fn widen(ts: &Vec<(String, i64)>) -> (r: Vec<(String, i128)>)
    ensures
        t128_view(r@) == terms_view(ts@),
{
    let mut out: Vec<(String, i128)> = Vec::new();
    let mut i: usize = 0;
    while i < ts.len()
        invariant
            i <= ts@.len(),
            t128_view(out@) == terms_view(ts@.take(i as int)),
        decreases ts@.len() - i,
    {
        let ghost prev = out@;
        let e = (copy_string(&ts[i].0), ts[i].1 as i128);
        out.push(e);
        assert(t128_view(prev.push(e)) == t128_view(prev).push((e.0@, e.1 as int)));
        assert(terms_view(ts@.take(i + 1)) == terms_view(ts@.take(i as int)).push((ts@[i as int].0@, ts@[i as int].1 as int)));
        i = i + 1;
    }
    assert(ts@.take(ts@.len() as int) == ts@);
    out
}

/// Convert constraints into `<= c` inequalities: `Eq` gives two, `Ne` none
/// (it is only ever a conclusion). `None` when duplicate terms of a
/// constraint cannot be summed within `i64`.
fn to_inequalities(cs: &[Constraint]) -> (r: Option<Vec<Ineq>>)
    ensures
        r is Some <==> norm_ok(cons_view(cs@)),
        r matches Some(qs) ==> ineqs_view(qs@) == to_ineqs(cons_view(cs@)),
{
    let ghost cv = cons_view(cs@);
    let mut out: Vec<Ineq> = Vec::new();
    let mut i: usize = 0;
    while i < cs.len()
        invariant
            i <= cs@.len(),
            cv == cons_view(cs@),
            ineqs_view(out@) == to_ineqs(cv.take(i as int)),
            norm_ok(cv.take(i as int)),
        decreases cs@.len() - i,
    {
        proof { lemma_to_ineqs_take(cv, i as int); }
        let c = &cs[i];
        let zero = Linear::constant_only(0);
        assert(terms_view(zero.terms@) == Seq::<(Seq<char>, int)>::empty());
        let n = match zero.try_add(&c.0) {
            Some(n) => n,
            None => {
                assert(!crate::ir::merge_fits(Seq::empty(), cv[i as int].0.0));
                return None;
            },
        };
        let k = c.0.constant as i128;
        let t = widen(&n.terms);
        let ghost tv = norm_terms(terms_view(c.0.terms@));
        assert(t128_view(t@) == tv);
        assert forall|j: int| 0 <= j < t@.len() implies fits128(-(#[trigger] t@[j]).1) by {
            assert(t128_view(t@)[j] == terms_view(n.terms@)[j]);
            assert(terms_view(n.terms@)[j] == (n.terms@[j].0@, n.terms@[j].1 as int));
        }
        match c.1 {
            Relation::Le => push_ineq(&mut out, Ineq { coeffs: t, c: -k }),
            Relation::Lt => push_ineq(&mut out, Ineq { coeffs: t, c: -k - 1 }),
            Relation::Ge => {
                let nt = neg128(&t).unwrap();
                push_ineq(&mut out, Ineq { coeffs: nt, c: k });
            },
            Relation::Gt => {
                let nt = neg128(&t).unwrap();
                push_ineq(&mut out, Ineq { coeffs: nt, c: k - 1 });
            },
            Relation::Eq => {
                let nt = neg128(&t).unwrap();
                push_ineq(&mut out, Ineq { coeffs: t, c: -k });
                push_ineq(&mut out, Ineq { coeffs: nt, c: k });
            },
            Relation::Ne => {},
        }
        assert(norm_ok(cv.take(i + 1))) by {
            assert forall|j: int| 0 <= j < cv.take(i + 1).len() implies #[trigger] crate::ir::merge_fits(Seq::empty(), cv.take(i + 1)[j].0.0) by {
                if j < i {
                    assert(cv.take(i + 1)[j] == cv.take(i as int)[j]);
                }
            }
        }
        i = i + 1;
    }
    assert(cv.take(cv.len() as int) == cv);
    Some(out)
}

pub open spec fn strs_view(v: Seq<String>) -> Seq<Seq<char>> {
    v.map_values(|s: String| s@)
}

fn contains_name(v: &Vec<String>, n: &str) -> (r: bool)
    ensures
        r == strs_view(v@).contains(n@),
{
    let mut i: usize = 0;
    while i < v.len()
        invariant
            i <= v@.len(),
            forall|j: int| 0 <= j < i ==> strs_view(v@)[j] != n@,
        decreases v@.len() - i,
    {
        if str_eq(v[i].as_str(), n) {
            assert(strs_view(v@)[i as int] == n@);
            return true;
        }
        i = i + 1;
    }
    false
}

/// The variables of a system, in order of first appearance.
fn collect_vars(qs: &Vec<Ineq>) -> (r: Vec<String>)
    ensures
        strs_view(r@) == vars_in(ineqs_view(qs@)),
{
    let ghost qv = ineqs_view(qs@);
    let mut out: Vec<String> = Vec::new();
    let mut i: usize = 0;
    while i < qs.len()
        invariant
            i <= qs@.len(),
            qv == ineqs_view(qs@),
            strs_view(out@) == vars_in(qv.take(i as int)),
        decreases qs@.len() - i,
    {
        assert(qv.take(i + 1).drop_last() == qv.take(i as int));
        let ts = &qs[i].coeffs;
        let ghost base = vars_in(qv.take(i as int));
        let ghost tv = t128_view(ts@);
        assert(tv == qv[i as int].0);
        let mut j: usize = 0;
        assert(tv.take(0) == Seq::<(Seq<char>, int)>::empty());
        while j < ts.len()
            invariant
                j <= ts@.len(),
                tv == t128_view(ts@),
                strs_view(out@) == add_names(base, tv.take(j as int)),
            decreases ts@.len() - j,
        {
            assert(tv.take(j + 1).drop_last() == tv.take(j as int));
            let n = &ts[j].0;
            if !contains_name(&out, n.as_str()) {
                let ghost prev = out@;
                out.push(copy_string(n));
                assert(strs_view(out@) == strs_view(prev).push(n@));
            }
            j = j + 1;
        }
        assert(tv.take(tv.len() as int) == tv);
        assert(qv.take(i + 1).last() == qv[i as int]);
        i = i + 1;
    }
    assert(qv.take(qv.len() as int) == qv);
    out
}

proof fn lemma_fm_none(qs: Seq<IneqV>, vars: Seq<Seq<char>>, k: nat, n: nat)
    requires
        k <= n <= vars.len(),
        fm_spec(qs, vars, k) is None,
    ensures
        fm_spec(qs, vars, n) is None,
    decreases n,
{
    if k < n {
        lemma_fm_none(qs, vars, k, (n - 1) as nat);
    }
}

/// Whether the constraint set is unsatisfiable, by eliminating every
/// variable; `None` when the arithmetic would leave `i128`, so no answer is
/// given rather than a wrong one.
pub fn unsat_checked(cs: &[Constraint]) -> (r: Option<bool>)
    ensures
        r == unsat_spec(cons_view(cs@)),
{
    let mut qs = to_inequalities(cs)?;
    let ghost q0 = ineqs_view(qs@);
    let vars = collect_vars(&qs);
    let ghost vv = strs_view(vars@);
    let mut k: usize = 0;
    while k < vars.len()
        invariant
            k <= vars@.len(),
            vv == strs_view(vars@),
            vv == vars_in(q0),
            q0 == to_ineqs(cons_view(cs@)),
            norm_ok(cons_view(cs@)),
            fm_spec(q0, vv, k as nat) == Some(ineqs_view(qs@)),
        decreases vars@.len() - k,
    {
        match eliminate(&qs, vars[k].as_str()) {
            Some((n, _, _)) => {
                assert(vv[k as int] == vars@[k as int]@);
                qs = n;
            },
            None => {
                proof { lemma_fm_none(q0, vv, (k + 1) as nat, vv.len()); }
                return None;
            },
        }
        k = k + 1;
    }
    let ghost f = ineqs_view(qs@);
    let mut i: usize = 0;
    while i < qs.len()
        invariant
            i <= qs@.len(),
            f == ineqs_view(qs@),
            vv == vars_in(q0),
            q0 == to_ineqs(cons_view(cs@)),
            norm_ok(cons_view(cs@)),
            fm_spec(q0, vv, vv.len()) == Some(f),
            forall|j: int| 0 <= j < i ==> !(#[trigger] f[j].0.len() == 0 && f[j].1 < 0),
        decreases qs@.len() - i,
    {
        if qs[i].coeffs.len() == 0 && qs[i].c < 0 {
            assert(f[i as int].0.len() == 0 && f[i as int].1 < 0);
            return Some(true);
        }
        i = i + 1;
    }
    Some(false)
}

/// Returns true iff elimination derives a contradiction. Sound: such a set
/// has no integer model ([`lemma_unsat_sound`]). `false` when the arithmetic
/// would leave `i128`.
pub fn unsat(cs: &[Constraint]) -> (r: bool)
    ensures
        r == (unsat_spec(cons_view(cs@)) == Some(true)),
{
    match unsat_checked(cs) {
        Some(b) => b,
        None => false,
    }
}

// ---------------------------------------------------------------------------
// Entailment
// ---------------------------------------------------------------------------

/// The relations whose disjunction is the negation of `r` over the integers.
pub open spec fn negation(r: Relation) -> Seq<Relation> {
    match r {
        Relation::Eq => seq![Relation::Lt, Relation::Gt],
        Relation::Ne => seq![Relation::Eq],
        Relation::Le => seq![Relation::Gt],
        Relation::Lt => seq![Relation::Ge],
        Relation::Ge => seq![Relation::Lt],
        Relation::Gt => seq![Relation::Le],
    }
}

/// Every negation branch of the conclusion, added to the premises, is
/// reported unsatisfiable.
pub open spec fn entails_spec(pre: Seq<ConV>, c: ConV) -> bool {
    forall|i: int| 0 <= i < negation(c.1).len() ==> unsat_spec(#[trigger] pre.push((c.0, negation(c.1)[i]))) == Some(true)
}

pub(crate) fn negation_exec(r: Relation) -> (out: Vec<Relation>)
    ensures
        out@ == negation(r),
{
    let mut v: Vec<Relation> = Vec::new();
    match r {
        Relation::Eq => {
            v.push(Relation::Lt);
            v.push(Relation::Gt);
        },
        Relation::Ne => v.push(Relation::Eq),
        Relation::Le => v.push(Relation::Gt),
        Relation::Lt => v.push(Relation::Ge),
        Relation::Ge => v.push(Relation::Lt),
        Relation::Gt => v.push(Relation::Le),
    }
    assert(v@ == negation(r));
    v
}

/// The premises followed by `c`.
fn with_constraint(premises: &[Constraint], c: Constraint) -> (r: Vec<Constraint>)
    ensures
        cons_view(r@) == cons_view(premises@).push(con_view(c)),
{
    let mut out: Vec<Constraint> = Vec::new();
    let mut i: usize = 0;
    while i < premises.len()
        invariant
            i <= premises@.len(),
            cons_view(out@) == cons_view(premises@.take(i as int)),
        decreases premises@.len() - i,
    {
        let ghost prev = out@;
        let q = premises[i].copy();
        out.push(q);
        assert(cons_view(prev.push(q)) == cons_view(prev).push(con_view(q)));
        assert(cons_view(premises@.take(i + 1)) == cons_view(premises@.take(i as int)).push(con_view(premises@[i as int])));
        i = i + 1;
    }
    assert(premises@.take(premises@.len() as int) == premises@);
    let ghost prev = out@;
    out.push(c);
    assert(cons_view(prev.push(c)) == cons_view(prev).push(con_view(c)));
    out
}

/// Does `premises` entail `concl`? Every negation branch of the conclusion
/// must be unsatisfiable together with the premises.
pub fn entails(premises: &[Constraint], concl: &Constraint) -> (r: bool)
    ensures
        r == entails_spec(cons_view(premises@), con_view(*concl)),
{
    let rels = negation_exec(concl.1);
    let ghost pre = cons_view(premises@);
    let mut i: usize = 0;
    while i < rels.len()
        invariant
            i <= rels@.len(),
            rels@ == negation(concl.1),
            pre == cons_view(premises@),
            forall|j: int| 0 <= j < i ==> unsat_spec(#[trigger] pre.push((con_view(*concl).0, negation(concl.1)[j]))) == Some(true),
        decreases rels@.len() - i,
    {
        let branch = Constraint(concl.0.copy(), rels[i]);
        let combined = with_constraint(premises, branch);
        assert(con_view(branch) == (con_view(*concl).0, negation(concl.1)[i as int]));
        if !unsat(combined.as_slice()) {
            return false;
        }
        i = i + 1;
    }
    true
}

/// Over the integers, a constraint that fails makes one of its negation
/// branches hold.
proof fn lemma_negation_complete(c: ConV, m: Valuation)
    requires
        !holds_v(c, m),
    ensures
        exists|i: int| 0 <= i < negation(c.1).len() && holds_v((c.0, #[trigger] negation(c.1)[i]), m),
{
    let r0 = negation(c.1)[0];
    if holds_v((c.0, r0), m) {
    } else {
        assert(c.1 == Relation::Eq);
        assert(holds_v((c.0, negation(c.1)[1]), m));
    }
}

/// Entailment is sound over the integers: a valuation that satisfies the
/// premises satisfies the conclusion.
pub proof fn lemma_entails_sound(pre: Seq<ConV>, c: ConV, m: Valuation)
    requires
        entails_spec(pre, c),
        forall|i: int| 0 <= i < pre.len() ==> #[trigger] holds_v(pre[i], m),
    ensures
        holds_v(c, m),
{
    if !holds_v(c, m) {
        lemma_negation_complete(c, m);
        let i = choose|i: int| 0 <= i < negation(c.1).len() && holds_v((c.0, #[trigger] negation(c.1)[i]), m);
        let all = pre.push((c.0, negation(c.1)[i]));
        assert(unsat_spec(all) == Some(true));
        lemma_unsat_sound(all, m);
        let k = choose|k: int| 0 <= k < all.len() && !#[trigger] holds_v(all[k], m);
        if k < pre.len() {
            assert(all[k] == pre[k]);
        }
    }
}

// ---------------------------------------------------------------------------
// Every inequality names each variable at most once
// ---------------------------------------------------------------------------

pub open spec fn all_distinct(qs: Seq<IneqV>) -> bool {
    forall|i: int| 0 <= i < qs.len() ==> #[trigger] distinct_names(qs[i].0)
}

proof fn lemma_merge_distinct(ts: Seq<(Seq<char>, int)>, bs: Seq<(Seq<char>, int)>)
    requires
        distinct_names(ts),
    ensures
        distinct_names(merge_terms(ts, bs)),
    decreases bs.len(),
{
    if bs.len() > 0 {
        lemma_merge_distinct(ts, bs.drop_last());
        let acc = merge_terms(ts, bs.drop_last());
        let p = bs.last();
        lemma_find_term(acc, p.0);
        match find_term(acc, p.0) {
            Some(i) => {
                let u = acc.update(i, (acc[i].0, acc[i].1 + p.1));
                assert forall|x: int, y: int| 0 <= x < u.len() && 0 <= y < u.len() && x != y implies u[x].0 != u[y].0 by {
                    assert(u[x].0 == acc[x].0);
                    assert(u[y].0 == acc[y].0);
                }
            },
            None => {
                let u = acc.push(p);
                assert forall|x: int, y: int| 0 <= x < u.len() && 0 <= y < u.len() && x != y implies u[x].0 != u[y].0 by {
                    if x < acc.len() && y < acc.len() {
                        assert(u[x] == acc[x] && u[y] == acc[y]);
                    } else if x < acc.len() {
                        assert(u[x] == acc[x]);
                    } else if y < acc.len() {
                        assert(u[y] == acc[y]);
                    }
                }
            },
        }
    }
}

proof fn lemma_filter_distinct(ts: Seq<(Seq<char>, int)>, p: spec_fn((Seq<char>, int)) -> bool)
    requires
        distinct_names(ts),
    ensures
        distinct_names(ts.filter(p)),
        forall|n: Seq<char>| names_of(ts.filter(p)).contains(n) ==> #[trigger] names_of(ts).contains(n),
    decreases ts.len(),
{
    reveal_with_fuel(Seq::filter, 1);
    if ts.len() > 0 {
        let init = ts.drop_last();
        assert forall|x: int, y: int| 0 <= x < init.len() && 0 <= y < init.len() && x != y implies init[x].0 != init[y].0 by {
            assert(init[x] == ts[x] && init[y] == ts[y]);
        }
        lemma_filter_distinct(init, p);
        let f0 = init.filter(p);
        if p(ts.last()) {
            let f = f0.push(ts.last());
            assert(!names_of(init).contains(ts.last().0)) by {
                if names_of(init).contains(ts.last().0) {
                    let w = choose|w: int| 0 <= w < init.len() && #[trigger] init[w].0 == ts.last().0;
                    assert(ts[w].0 == ts[ts.len() - 1].0);
                }
            }
            assert forall|x: int, y: int| 0 <= x < f.len() && 0 <= y < f.len() && x != y implies f[x].0 != f[y].0 by {
                if x < f0.len() && y < f0.len() {
                    assert(f[x] == f0[x] && f[y] == f0[y]);
                } else if x < f0.len() {
                    assert(f[x] == f0[x]);
                    assert(names_of(f0).contains(f0[x].0));
                } else if y < f0.len() {
                    assert(f[y] == f0[y]);
                    assert(names_of(f0).contains(f0[y].0));
                }
            }
            assert forall|n: Seq<char>| names_of(f).contains(n) implies #[trigger] names_of(ts).contains(n) by {
                let w = choose|w: int| 0 <= w < f.len() && #[trigger] f[w].0 == n;
                if w < f0.len() {
                    assert(f[w] == f0[w]);
                    assert(names_of(f0).contains(n));
                    assert(names_of(init).contains(n));
                    let w2 = choose|w2: int| 0 <= w2 < init.len() && #[trigger] init[w2].0 == n;
                    assert(ts[w2] == init[w2]);
                } else {
                    assert(ts[ts.len() - 1].0 == n);
                }
            }
        } else {
            assert forall|n: Seq<char>| names_of(f0).contains(n) implies #[trigger] names_of(ts).contains(n) by {
                assert(names_of(init).contains(n));
                let w2 = choose|w2: int| 0 <= w2 < init.len() && #[trigger] init[w2].0 == n;
                assert(ts[w2] == init[w2]);
            }
        }
    }
}

proof fn lemma_without_distinct(ts: Seq<(Seq<char>, int)>, v: Seq<char>)
    requires
        distinct_names(ts),
    ensures
        distinct_names(without(ts, v)),
        !names_of(without(ts, v)).contains(v),
        forall|n: Seq<char>| names_of(without(ts, v)).contains(n) ==> #[trigger] names_of(ts).contains(n),
{
    lemma_find_term(ts, v);
    match find_term(ts, v) {
        Some(i) => {
            let w = ts.remove(i);
            assert forall|x: int, y: int| 0 <= x < w.len() && 0 <= y < w.len() && x != y implies w[x].0 != w[y].0 by {
                let xs = if x < i { x } else { x + 1 };
                let ys = if y < i { y } else { y + 1 };
                assert(w[x] == ts[xs] && w[y] == ts[ys]);
            }
            if names_of(w).contains(v) {
                let k = choose|k: int| 0 <= k < w.len() && #[trigger] w[k].0 == v;
                let ks = if k < i { k } else { k + 1 };
                assert(w[k] == ts[ks]);
            }
            assert forall|n: Seq<char>| names_of(w).contains(n) implies #[trigger] names_of(ts).contains(n) by {
                let k = choose|k: int| 0 <= k < w.len() && #[trigger] w[k].0 == n;
                let ks = if k < i { k } else { k + 1 };
                assert(w[k] == ts[ks]);
            }
        },
        None => {
            if names_of(ts).contains(v) {
                let k = choose|k: int| 0 <= k < ts.len() && #[trigger] ts[k].0 == v;
            }
        },
    }
}

proof fn lemma_pair_distinct(u: BoundV, l: BoundV)
    requires
        distinct_names(u.2),
    ensures
        distinct_names(pair_ineq(u, l).0),
{
    let su = scale_terms(u.2, l.0);
    assert forall|x: int, y: int| 0 <= x < su.len() && 0 <= y < su.len() && x != y implies su[x].0 != su[y].0 by {
        assert(su[x].0 == u.2[x].0 && su[y].0 == u.2[y].0);
    }
    lemma_merge_distinct(su, scale_terms(l.2, -u.0));
    lemma_filter_distinct(merge_terms(su, scale_terms(l.2, -u.0)), |p: (Seq<char>, int)| p.1 != 0);
}

/// An elimination step keeps every variable named at most once per
/// inequality.
proof fn lemma_step_distinct(qs: Seq<IneqV>, v: Seq<char>)
    requires
        all_distinct(qs),
    ensures
        all_distinct(step(qs, v)),
{
    broadcast use vstd::seq_lib::group_filter_ensures;
    let rest = rest_of(qs, v);
    let us = uppers_of(qs, v);
    let ls = lowers_of(qs, v);
    let fu = qs.filter(|q: IneqV| coef(q.0, v) > 0);
    assert forall|k: int| 0 <= k < step(qs, v).len() implies #[trigger] distinct_names(step(qs, v)[k].0) by {
        if k < rest.len() {
            assert(step(qs, v)[k] == rest[k]);
            assert(rest.contains(rest[k]));
            qs.lemma_filter_contains_rev(|q: IneqV| coef(q.0, v) == 0, rest[k]);
            let w = choose|w: int| 0 <= w < qs.len() && qs[w] == rest[k];
            assert(distinct_names(qs[w].0));
        } else {
            let kk = k - rest.len();
            assert(step(qs, v)[k] == pairs_of(us, ls)[kk]);
            lemma_pairs_index(us, ls, kk);
            let (i, j) = choose|i: int, j: int| 0 <= i < us.len() && 0 <= j < ls.len() && pairs_of(us, ls)[kk] == #[trigger] pair_ineq(us[i], ls[j]);
            let q1 = fu[i];
            assert(us[i] == upper_of(q1, v));
            assert(fu.contains(q1));
            qs.lemma_filter_contains_rev(|q: IneqV| coef(q.0, v) > 0, q1);
            let w1 = choose|w: int| 0 <= w < qs.len() && qs[w] == q1;
            assert(distinct_names(qs[w1].0));
            lemma_without_distinct(q1.0, v);
            lemma_pair_distinct(us[i], ls[j]);
        }
    }
}

proof fn lemma_fm_distinct(qs: Seq<IneqV>, vars: Seq<Seq<char>>, k: nat)
    requires
        all_distinct(qs),
        fm_spec(qs, vars, k) is Some,
    ensures
        all_distinct(fm_spec(qs, vars, k).unwrap()),
    decreases k,
{
    if k > 0 {
        lemma_fm_distinct(qs, vars, (k - 1) as nat);
        lemma_step_distinct(fm_spec(qs, vars, (k - 1) as nat).unwrap(), vars[k - 1]);
    }
}

proof fn lemma_to_ineqs_distinct(cs: Seq<ConV>)
    ensures
        all_distinct(to_ineqs(cs)),
    decreases cs.len(),
{
    if cs.len() > 0 {
        lemma_to_ineqs_distinct(cs.drop_last());
        let ts = cs.last().0.0;
        let e = Seq::<(Seq<char>, int)>::empty();
        lemma_merge_distinct(e, ts);
        lemma_filter_distinct(merge_terms(e, ts), |p: (Seq<char>, int)| p.1 != 0);
        let t = norm_terms(ts);
        let nt = negate_terms(t);
        assert forall|x: int, y: int| 0 <= x < nt.len() && 0 <= y < nt.len() && x != y implies nt[x].0 != nt[y].0 by {
            assert(nt[x].0 == t[x].0 && nt[y].0 == t[y].0);
        }
        let a = to_ineqs(cs.drop_last());
        let b = ineqs_of(cs.last());
        assert forall|k: int| 0 <= k < (a + b).len() implies #[trigger] distinct_names((a + b)[k].0) by {
            if k < a.len() {
                assert((a + b)[k] == a[k]);
            } else {
                assert((a + b)[k] == b[k - a.len()]);
            }
        }
    }
}

// ---------------------------------------------------------------------------
// Models
// ---------------------------------------------------------------------------

/// The valuation a model stands for: a variable's value, or 0 when absent.
pub open spec fn model_val(mv: Seq<(Seq<char>, int)>) -> Valuation {
    |n: Seq<char>| coef(mv, n)
}

/// The model with `n` set to `x`.
pub open spec fn set_spec(mv: Seq<(Seq<char>, int)>, n: Seq<char>, x: int) -> Seq<(Seq<char>, int)> {
    match find_term(mv, n) {
        Some(i) => mv.update(i, (n, x)),
        None => mv.push((n, x)),
    }
}

/// A model maps variable names to integer values; absent names read as 0.
#[derive(Debug, Clone)]
pub struct Model {
    entries: Vec<(String, i64)>,
}

impl View for Model {
    type V = Seq<(Seq<char>, int)>;

    closed spec fn view(&self) -> Seq<(Seq<char>, int)> {
        terms_view(self.entries@)
    }
}

impl Model {
    /// The empty model.
    pub fn new() -> (r: Model)
        ensures
            r@ == Seq::<(Seq<char>, int)>::empty(),
    {
        let r = Model { entries: Vec::new() };
        assert(r@ =~= Seq::<(Seq<char>, int)>::empty());
        r
    }

    /// The value of `name`, if the model gives it one.
    pub fn get(&self, name: &str) -> (r: Option<&i64>)
        ensures
            match r {
                Some(v) => find_term(self@, name@) matches Some(i) && self@[i].1 == *v as int,
                None => find_term(self@, name@) is None,
            },
    {
        let ghost mv = self@;
        let mut i: usize = 0;
        while i < self.entries.len()
            invariant
                i <= self.entries@.len(),
                mv == terms_view(self.entries@),
                find_term(mv.take(i as int), name@) is None,
            decreases self.entries@.len() - i,
        {
            assert(mv.take(i + 1).drop_last() == mv.take(i as int));
            if str_eq(self.entries[i].0.as_str(), name) {
                proof {
                    crate::ir::lemma_find_prefix(mv, i as int + 1, name@);
                }
                return Some(&self.entries[i].1);
            }
            i = i + 1;
        }
        assert(mv.take(mv.len() as int) == mv);
        None
    }

    /// The bindings of the model, in the order they were made.
    pub fn bindings(&self) -> (r: &Vec<(String, i64)>)
        ensures
            terms_view(r@) == self@,
    {
        &self.entries
    }

    /// A copy of the model with the same bindings.
    pub fn copy(&self) -> (r: Model)
        ensures
            r@ == self@,
    {
        let mut entries: Vec<(String, i64)> = Vec::new();
        let mut i: usize = 0;
        while i < self.entries.len()
            invariant
                i <= self.entries@.len(),
                terms_view(entries@) == terms_view(self.entries@.take(i as int)),
            decreases self.entries@.len() - i,
        {
            let ghost before = entries@;
            entries.push((copy_string(&self.entries[i].0), self.entries[i].1));
            assert(terms_view(entries@) =~= terms_view(before).push((self.entries@[i as int].0@, self.entries@[i as int].1 as int)));
            assert(terms_view(self.entries@.take(i + 1)) =~= terms_view(self.entries@.take(i as int)).push((self.entries@[i as int].0@, self.entries@[i as int].1 as int)));
            i = i + 1;
        }
        assert(self.entries@.take(self.entries@.len() as int) =~= self.entries@);
        Model { entries }
    }

    /// Number of variables the model assigns.
    pub fn len(&self) -> (r: usize)
        ensures
            r == self@.len(),
    {
        self.entries.len()
    }

    /// Give `name` the value `x`, replacing any value it had.
    pub fn insert(&mut self, name: &str, x: i64)
        ensures
            final(self)@ == set_spec(old(self)@, name@, x as int),
    {
        let n = crate::text::string_of(name);
        self.set(&n, x);
    }

    /// Bind `name` to `x`, replacing an earlier binding of it.
    pub fn set(&mut self, name: &String, x: i64)
        ensures
            final(self)@ == set_spec(old(self)@, name@, x as int),
    {
        set_binding(&mut self.entries, name, x);
    }
}

/// Bind `name` to `x` in a list of bindings, replacing its first binding if
/// it has one.
pub(crate) fn set_binding(entries: &mut Vec<(String, i64)>, name: &String, x: i64)
    ensures
        terms_view(final(entries)@) == set_spec(terms_view(old(entries)@), name@, x as int),
{
    let ghost mv = terms_view(entries@);
    let mut i: usize = 0;
    while i < entries.len()
        invariant
            i <= entries@.len(),
            mv == terms_view(entries@),
            mv == terms_view(old(entries)@),
            find_term(mv.take(i as int), name@) is None,
        decreases entries@.len() - i,
    {
        assert(mv.take(i + 1).drop_last() == mv.take(i as int));
        if str_eq(entries[i].0.as_str(), name.as_str()) {
            proof {
                assert(mv[i as int].0 == name@);
                assert(find_term(mv.take(i + 1), name@) == Some(i as int));
                crate::ir::lemma_find_prefix(mv, i as int + 1, name@);
                assert(find_term(mv, name@) == Some(i as int));
            }
            entries.set(i, (copy_string(name), x));
            assert(terms_view(entries@) == mv.update(i as int, (name@, x as int)));
            return;
        }
        i = i + 1;
    }
    assert(mv.take(mv.len() as int) == mv);
    entries.push((copy_string(name), x));
    assert(terms_view(entries@) == mv.push((name@, x as int)));
}

proof fn lemma_find_first(ts: Seq<(Seq<char>, int)>, v: Seq<char>)
    ensures
        find_term(ts, v) matches Some(i) ==> forall|j: int| 0 <= j < i ==> #[trigger] ts[j].0 != v,
    decreases ts.len(),
{
    if ts.len() > 0 {
        let init = ts.drop_last();
        lemma_find_first(init, v);
        lemma_find_term(init, v);
        match find_term(init, v) {
            Some(i) => {
                assert forall|j: int| 0 <= j < i implies #[trigger] ts[j].0 != v by {
                    assert(ts[j] == init[j]);
                }
            },
            None => {
                assert forall|j: int| 0 <= j < ts.len() - 1 implies #[trigger] ts[j].0 != v by {
                    assert(ts[j] == init[j]);
                }
            },
        }
    }
}

proof fn lemma_set_val(mv: Seq<(Seq<char>, int)>, n: Seq<char>, x: int, k: Seq<char>)
    ensures
        model_val(set_spec(mv, n, x))(k) == if k == n { x } else { model_val(mv)(k) },
{
    lemma_find_term(mv, n);
    lemma_find_term(mv, k);
    lemma_find_first(mv, n);
    lemma_find_first(mv, k);
    let s = set_spec(mv, n, x);
    lemma_find_term(s, k);
    match find_term(mv, n) {
        Some(i) => {
            if k == n {
                lemma_first_index(s, k, i);
            } else {
                match find_term(mv, k) {
                    Some(j) => lemma_first_index(s, k, j),
                    None => {},
                }
            }
        },
        None => {
            if k == n {
                lemma_first_index(s, k, mv.len() as int);
            } else {
                match find_term(mv, k) {
                    Some(j) => lemma_first_index(s, k, j),
                    None => {
                        assert forall|j: int| 0 <= j < s.len() implies s[j].0 != k by {
                            if j < mv.len() { assert(s[j] == mv[j]); }
                        }
                        if find_term(s, k) is Some {
                            let w = find_term(s, k).unwrap();
                            assert(s[w].0 == k);
                        }
                    },
                }
            }
        },
    }
}

/// `find_term` is the first index carrying the name.
proof fn lemma_first_index(ts: Seq<(Seq<char>, int)>, v: Seq<char>, i: int)
    requires
        0 <= i < ts.len(),
        ts[i].0 == v,
        forall|j: int| 0 <= j < i ==> ts[j].0 != v,
    ensures
        find_term(ts, v) == Some(i),
    decreases ts.len(),
{
    if i < ts.len() - 1 {
        lemma_first_index(ts.drop_last(), v, i);
    } else {
        lemma_find_term(ts.drop_last(), v);
        if find_term(ts.drop_last(), v) is Some {
            let w = find_term(ts.drop_last(), v).unwrap();
            assert(ts.drop_last()[w] == ts[w]);
        }
    }
}

/// Valuations that agree off `v` give a term list without `v` one value.
proof fn lemma_eval_same(ts: Seq<(Seq<char>, int)>, m1: Valuation, m2: Valuation, v: Seq<char>)
    requires
        !names_of(ts).contains(v),
        forall|k: Seq<char>| k != v ==> #[trigger] m1(k) == m2(k),
    ensures
        eval_terms(ts, m1) == eval_terms(ts, m2),
    decreases ts.len(),
{
    if ts.len() > 0 {
        let init = ts.drop_last();
        if names_of(init).contains(v) {
            let w = choose|w: int| 0 <= w < init.len() && #[trigger] init[w].0 == v;
            assert(ts[w].0 == v);
        }
        lemma_eval_same(init, m1, m2, v);
        assert(ts[ts.len() - 1].0 != v);
    }
}

proof fn lemma_eval_zero(ts: Seq<(Seq<char>, int)>)
    ensures
        eval_terms(ts, model_val(Seq::empty())) == 0,
    decreases ts.len(),
{
    if ts.len() > 0 {
        lemma_eval_zero(ts.drop_last());
        assert(model_val(Seq::empty())(ts.last().0) == 0);
    }
}

/// Every step of the running sum of `coeff * value` stays within `i128`.
pub open spec fn eval_ok(ts: Seq<(Seq<char>, int)>, m: Valuation) -> bool
    decreases ts.len(),
{
    if ts.len() == 0 {
        true
    } else {
        eval_ok(ts.drop_last(), m) && fits128(ts.last().1 * m(ts.last().0)) && fits128(eval_terms(ts, m))
    }
}

/// A `!=` constraint evaluates within `i128` and holds; any other
/// constraint is left to its inequalities.
pub open spec fn ne_ok(c: ConV, m: Valuation) -> bool {
    c.1 == Relation::Ne ==> eval_ok(norm_terms(c.0.0), m) && eval_terms(norm_terms(c.0.0), m) + c.0.1 != 0
}

/// Every inequality of `cs` evaluates within `i128` and holds under the
/// model, and so does every `!=` constraint.
pub open spec fn sat_spec(cs: Seq<ConV>, mv: Seq<(Seq<char>, int)>) -> bool {
    &&& norm_ok(cs)
    &&& forall|i: int| 0 <= i < to_ineqs(cs).len() ==>
        eval_ok(#[trigger] to_ineqs(cs)[i].0, model_val(mv)) && ineq_holds(to_ineqs(cs)[i], model_val(mv))
    &&& forall|i: int| 0 <= i < cs.len() ==> #[trigger] ne_ok(cs[i], model_val(mv))
}

fn eval_model(ts: &Vec<(String, i128)>, model: &Model) -> (r: Option<i128>)
    ensures
        r is Some <==> eval_ok(t128_view(ts@), model_val(model@)),
        r matches Some(x) ==> x == eval_terms(t128_view(ts@), model_val(model@)),
{
    let ghost tv = t128_view(ts@);
    let ghost m = model_val(model@);
    let mut acc: i128 = 0;
    let mut i: usize = 0;
    while i < ts.len()
        invariant
            i <= ts@.len(),
            tv == t128_view(ts@),
            m == model_val(model@),
            eval_ok(tv.take(i as int), m),
            acc == eval_terms(tv.take(i as int), m),
        decreases ts@.len() - i,
    {
        assert(tv.take(i + 1).drop_last() == tv.take(i as int));
        assert(tv.take(i + 1).last() == tv[i as int]);
        let x: i64 = match model.get(ts[i].0.as_str()) {
            Some(v) => *v,
            None => 0,
        };
        assert(x as int == m(tv[i as int].0));
        let p = match ts[i].1.checked_mul(x as i128) {
            Some(p) => p,
            None => {
                proof { lemma_eval_ok_prefix(tv, m, i as int + 1); }
                return None;
            },
        };
        acc = match acc.checked_add(p) {
            Some(a) => a,
            None => {
                proof { lemma_eval_ok_prefix(tv, m, i as int + 1); }
                return None;
            },
        };
        i = i + 1;
    }
    assert(tv.take(tv.len() as int) == tv);
    Some(acc)
}

proof fn lemma_eval_ok_prefix(ts: Seq<(Seq<char>, int)>, m: Valuation, k: int)
    requires
        0 <= k <= ts.len(),
        !eval_ok(ts.take(k), m),
    ensures
        !eval_ok(ts, m),
    decreases ts.len() - k,
{
    if k < ts.len() {
        assert(ts.take(k + 1).drop_last() == ts.take(k));
        lemma_eval_ok_prefix(ts, m, k + 1);
    } else {
        assert(ts.take(k) == ts);
    }
}

/// Check whether an integer model satisfies every constraint in `cs`,
/// variables it does not bind reading as 0. `false` as well when an
/// evaluation would leave `i128`.
pub fn satisfies_model(cs: &[Constraint], model: &Model) -> (r: bool)
    ensures
        r == sat_spec(cons_view(cs@), model@),
        r ==> forall|i: int| 0 <= i < cs@.len() ==> #[trigger] holds_v(cons_view(cs@)[i], model_val(model@)),
{
    let qs = match to_inequalities(cs) {
        Some(q) => q,
        None => { return false; },
    };
    let ghost qv = ineqs_view(qs@);
    let ghost m = model_val(model@);
    let mut i: usize = 0;
    while i < qs.len()
        invariant
            i <= qs@.len(),
            qv == ineqs_view(qs@),
            qv == to_ineqs(cons_view(cs@)),
            m == model_val(model@),
            forall|j: int| 0 <= j < i ==> eval_ok(#[trigger] qv[j].0, m) && ineq_holds(qv[j], m),
        decreases qs@.len() - i,
    {
        match eval_model(&qs[i].coeffs, model) {
            Some(x) => {
                if x > qs[i].c {
                    assert(!ineq_holds(qv[i as int], m));
                    assert(!(eval_ok(qv[i as int].0, m) && ineq_holds(qv[i as int], m)));
                    return false;
                }
            },
            None => {
                assert(!eval_ok(qv[i as int].0, m));
                return false;
            },
        }
        i = i + 1;
    }
    let mut k: usize = 0;
    while k < cs.len()
        invariant
            k <= cs@.len(),
            qv == to_ineqs(cons_view(cs@)),
            norm_ok(cons_view(cs@)),
            m == model_val(model@),
            forall|j: int| 0 <= j < qv.len() ==> eval_ok(#[trigger] qv[j].0, m) && ineq_holds(qv[j], m),
            forall|j: int| 0 <= j < k ==> #[trigger] ne_ok(cons_view(cs@)[j], m),
        decreases cs@.len() - k,
    {
        let ghost c = cons_view(cs@)[k as int];
        if cs[k].1 == Relation::Ne {
            let single = [Constraint(cs[k].0.copy(), Relation::Le)];
            proof {
                assert(norm_ok(cons_view(cs@)) ==> crate::ir::merge_fits(Seq::empty(), c.0.0));
                assert(cons_view(single@) =~= seq![(c.0, Relation::Le)]);
                assert(to_ineqs(seq![(c.0, Relation::Le)]) =~= ineqs_of((c.0, Relation::Le))) by {
                    reveal_with_fuel(to_ineqs, 2);
                    assert(seq![(c.0, Relation::Le)].drop_last() =~= Seq::<ConV>::empty());
                }
            }
            match to_inequalities(&single) {
                Some(q) => {
                    assert(q@.len() == 1);
                    assert(c.1 == Relation::Ne);
                    assert(ineqs_view(q@)[0] == ineq_view(q@[0]));
                    assert(ineq_view(q@[0]) == (norm_terms(c.0.0), -c.0.1));
                    match eval_model(&q[0].coeffs, model) {
                        Some(x) => {
                            if x == q[0].c {
                                assert(!ne_ok(c, m));
                                return false;
                            }
                        },
                        None => {
                            assert(!ne_ok(c, m));
                            return false;
                        },
                    }
                },
                None => {
                    return false;
                },
            }
        }
        k = k + 1;
    }
    proof {
        let cv = cons_view(cs@);
        lemma_model_satisfies(cv, m);
        assert forall|i: int| 0 <= i < cs@.len() implies #[trigger] holds_v(cv[i], m) by {
            if cv[i].1 == Relation::Ne {
                assert(ne_ok(cv[i], m));
                lemma_norm_eval(cv[i].0.0, m);
            }
        }
    }
    true
}

/// The inequalities of a constraint other than `!=` say exactly that it
/// holds.
pub proof fn lemma_ineqs_of_complete(c: ConV, m: Valuation)
    requires
        c.1 != Relation::Ne,
        all_hold(ineqs_of(c), m),
    ensures
        holds_v(c, m),
{
    let ts = c.0.0;
    lemma_norm_eval(ts, m);
    lemma_eval_negate(norm_terms(ts), m);
    assert(ineq_holds(ineqs_of(c)[0], m));
    if c.1 == Relation::Eq {
        assert(ineq_holds(ineqs_of(c)[1], m));
    }
}

// ---------------------------------------------------------------------------
// Model construction by back-substitution
// ---------------------------------------------------------------------------

/// The bounds of one eliminated variable.
struct Level {
    ups: Vec<Bound>,
    lows: Vec<Bound>,
}

/// Every upper bound `a*x + U <= b` and lower bound `a*x + L >= b` holds for
/// value `x` under `m`.
pub open spec fn bounds_hold(us: Seq<BoundV>, ls: Seq<BoundV>, x: int, m: Valuation) -> bool {
    &&& forall|j: int| 0 <= j < us.len() ==> #[trigger] us[j].0 * x + eval_terms(us[j].2, m) <= us[j].1
    &&& forall|j: int| 0 <= j < ls.len() ==> #[trigger] ls[j].0 * x + eval_terms(ls[j].2, m) >= ls[j].1
}

/// `lv` holds the bounds on `vars[j]` in the system after eliminating
/// `vars[0..j]`.
spec fn level_ok(q0: Seq<IneqV>, vars: Seq<Seq<char>>, j: int, lv: Level) -> bool {
    &&& fm_spec(q0, vars, j as nat) is Some
    &&& bounds_v(lv.ups@) == uppers_of(fm_spec(q0, vars, j as nat).unwrap(), vars[j])
    &&& bounds_v(lv.lows@) == lowers_of(fm_spec(q0, vars, j as nat).unwrap(), vars[j])
    &&& (forall|t: int| 0 <= t < lv.ups@.len() ==> (#[trigger] lv.ups@[t]).a > 0)
    &&& (forall|t: int| 0 <= t < lv.lows@.len() ==> (#[trigger] lv.lows@[t]).a > 0)
}

/// An integer value for the variable of `lv` within all its bounds, given
/// the values of the variables eliminated after it; the smallest one when it
/// has a lower bound, the largest when only upper bounds, 0 when none.
fn pick_value(lv: &Level, model: &Model) -> (r: Option<i64>)
    requires
        forall|k: int| 0 <= k < lv.ups@.len() ==> (#[trigger] lv.ups@[k]).a > 0,
        forall|k: int| 0 <= k < lv.lows@.len() ==> (#[trigger] lv.lows@[k]).a > 0,
    ensures
        r matches Some(x) ==> bounds_hold(bounds_v(lv.ups@), bounds_v(lv.lows@), x as int, model_val(model@)),
{
    let ghost us = bounds_v(lv.ups@);
    let ghost ls = bounds_v(lv.lows@);
    let ghost m = model_val(model@);
    let mut hi: Option<i128> = None;
    let mut j: usize = 0;
    while j < lv.ups.len()
        invariant
            j <= lv.ups@.len(),
            us == bounds_v(lv.ups@),
            m == model_val(model@),
            forall|k: int| 0 <= k < lv.ups@.len() ==> (#[trigger] lv.ups@[k]).a > 0,
            j > 0 ==> hi is Some,
            hi matches Some(h) ==> forall|k: int| 0 <= k < j ==> #[trigger] us[k].0 * h + eval_terms(us[k].2, m) <= us[k].1,
        decreases lv.ups@.len() - j,
    {
        let u = &lv.ups[j];
        let eu = eval_model(&u.rest, model)?;
        let n = u.b.checked_sub(eu)?;
        let f = n.checked_div_euclid(u.a)?;
        proof {
            let a = u.a as int;
            let nn = n as int;
            assert(a * (nn / a) <= nn) by (nonlinear_arith) requires a > 0;
        }
        let nh = match hi {
            Some(h) => {
                if f < h {
                    proof {
                        assert forall|k: int| 0 <= k < j implies #[trigger] us[k].0 * f + eval_terms(us[k].2, m) <= us[k].1 by {
                            let a = us[k].0;
                            assert(a * f <= a * h) by (nonlinear_arith) requires a > 0, f < h;
                        }
                    }
                    f
                } else {
                    proof {
                        let a = u.a as int;
                        assert(a * h <= a * f) by (nonlinear_arith) requires a > 0, h <= f;
                    }
                    h
                }
            },
            None => f,
        };
        hi = Some(nh);
        j = j + 1;
    }
    let mut lo: Option<i128> = None;
    let mut j: usize = 0;
    while j < lv.lows.len()
        invariant
            j <= lv.lows@.len(),
            ls == bounds_v(lv.lows@),
            m == model_val(model@),
            forall|k: int| 0 <= k < lv.lows@.len() ==> (#[trigger] lv.lows@[k]).a > 0,
            j > 0 ==> lo is Some,
            lo matches Some(l) ==> forall|k: int| 0 <= k < j ==> #[trigger] ls[k].0 * l + eval_terms(ls[k].2, m) >= ls[k].1,
        decreases lv.lows@.len() - j,
    {
        let w = &lv.lows[j];
        let ew = eval_model(&w.rest, model)?;
        let n = w.b.checked_sub(ew)?;
        let q = n.checked_div_euclid(w.a)?;
        let rm = n.checked_rem_euclid(w.a)?;
        let f = if rm != 0 { q.checked_add(1)? } else { q };
        proof {
            let e = w.a as int;
            let nn = n as int;
            assert(nn == e * (nn / e) + nn % e) by (nonlinear_arith) requires e > 0;
            assert(0 <= nn % e < e) by (nonlinear_arith) requires e > 0;
            assert(e * f >= nn) by (nonlinear_arith)
                requires e > 0, nn == e * (nn / e) + nn % e, 0 <= nn % e < e,
                    f == if nn % e != 0 { nn / e + 1 } else { nn / e };
        }
        let nl = match lo {
            Some(l) => {
                if f > l {
                    proof {
                        assert forall|k: int| 0 <= k < j implies #[trigger] ls[k].0 * f + eval_terms(ls[k].2, m) >= ls[k].1 by {
                            let e = ls[k].0;
                            assert(e * f >= e * l) by (nonlinear_arith) requires e > 0, f > l;
                        }
                    }
                    f
                } else {
                    proof {
                        let e = w.a as int;
                        assert(e * l >= e * f) by (nonlinear_arith) requires e > 0, l >= f;
                    }
                    l
                }
            },
            None => f,
        };
        lo = Some(nl);
        j = j + 1;
    }
    let x: i128 = match (lo, hi) {
        (None, None) => 0,
        (Some(l), None) => l,
        (None, Some(h)) => h,
        (Some(l), Some(h)) => {
            if l > h {
                return None;
            }
            proof {
                assert forall|k: int| 0 <= k < us.len() implies #[trigger] us[k].0 * l + eval_terms(us[k].2, m) <= us[k].1 by {
                    let a = us[k].0;
                    assert(a * l <= a * h) by (nonlinear_arith) requires a > 0, l <= h;
                }
            }
            l
        },
    };
    if x < i64::MIN as i128 || x > i64::MAX as i128 {
        return None;
    }
    Some(x as i64)
}

/// Back-substituting a value for `v` that meets all of its bounds turns a
/// model of the eliminated system into a model of the system before.
proof fn lemma_level(qs: Seq<IneqV>, v: Seq<char>, mv: Seq<(Seq<char>, int)>, x: int)
    requires
        all_distinct(qs),
        all_hold(step(qs, v), model_val(mv)),
        bounds_hold(uppers_of(qs, v), lowers_of(qs, v), x, model_val(mv)),
    ensures
        all_hold(qs, model_val(set_spec(mv, v, x))),
{
    broadcast use vstd::seq_lib::group_filter_ensures;
    let m = model_val(mv);
    let m2 = model_val(set_spec(mv, v, x));
    assert forall|k: Seq<char>| k != v implies #[trigger] m2(k) == m(k) by {
        lemma_set_val(mv, v, x, k);
    }
    lemma_set_val(mv, v, x, v);
    let rest = rest_of(qs, v);
    let fu = qs.filter(|q: IneqV| coef(q.0, v) > 0);
    let fl = qs.filter(|q: IneqV| coef(q.0, v) < 0);
    assert forall|i: int| 0 <= i < qs.len() implies #[trigger] ineq_holds(qs[i], m2) by {
        let q = qs[i];
        let c = coef(q.0, v);
        let w = without(q.0, v);
        assert(distinct_names(q.0));
        lemma_without_distinct(q.0, v);
        lemma_eval_same(w, m2, m, v);
        lemma_eval_without(q.0, v, m2);
        lemma_eval_without(q.0, v, m);
        if c == 0 {
            qs.lemma_filter_contains(|q: IneqV| coef(q.0, v) == 0, i);
            let j = choose|j: int| 0 <= j < rest.len() && rest[j] == q;
            assert(step(qs, v)[j] == rest[j]);
            assert(ineq_holds(step(qs, v)[j], m));
        } else if c > 0 {
            qs.lemma_filter_contains(|q: IneqV| coef(q.0, v) > 0, i);
            let j = choose|j: int| 0 <= j < fu.len() && fu[j] == q;
            let u = uppers_of(qs, v)[j];
            assert(u == upper_of(q, v));
            assert(u.0 * x + eval_terms(u.2, m) <= u.1);
            assert(c * x + eval_terms(w, m) <= q.1);
        } else {
            qs.lemma_filter_contains(|q: IneqV| coef(q.0, v) < 0, i);
            let j = choose|j: int| 0 <= j < fl.len() && fl[j] == q;
            let l = lowers_of(qs, v)[j];
            assert(l == lower_of(q, v));
            assert(l.0 * x + eval_terms(l.2, m) >= l.1);
            lemma_eval_negate(w, m);
            assert((-c) * x + (-eval_terms(w, m)) >= -q.1);
            assert((-c) * x == -(c * x)) by (nonlinear_arith);
        }
    }
}

/// Find a concrete integer model satisfying `cs`, if one exists: eliminate
/// every variable, then assign the variables back to front within the bounds
/// derived for them. `None` when the system is unsatisfiable, when the
/// bounds of a variable leave no integer between them, or when a value would
/// leave `i64` (or the arithmetic `i128`).
pub fn model(cs: &[Constraint]) -> (r: Option<Model>)
    ensures
        r matches Some(m) ==> norm_ok(cons_view(cs@)) && all_hold(to_ineqs(cons_view(cs@)), model_val(m@)),
        unsat_spec(cons_view(cs@)) == Some(true) ==> r is None,
        (norm_ok(cons_view(cs@)) && vars_in(to_ineqs(cons_view(cs@))).len() == 0)
            ==> (r is Some <==> constant_sat(cons_view(cs@))),
{
    let qs0 = to_inequalities(cs)?;
    let ghost q0 = ineqs_view(qs0@);
    proof { lemma_to_ineqs_distinct(cons_view(cs@)); }
    let vars = collect_vars(&qs0);
    let ghost vv = strs_view(vars@);
    let n = vars.len();
    let mut levels: Vec<Level> = Vec::new();
    let mut qs = qs0;
    let mut k: usize = 0;
    while k < n
        invariant
            n == vars@.len(),
            k <= n,
            vv == strs_view(vars@),
            vv.len() == n,
            q0 == to_ineqs(cons_view(cs@)),
            vv == vars_in(q0),
            all_distinct(q0),
            fm_spec(q0, vv, k as nat) == Some(ineqs_view(qs@)),
            levels@.len() == k,
            forall|j: int| 0 <= j < k ==> level_ok(q0, vv, j, #[trigger] levels@[j]),
        decreases n - k,
    {
        let (nq, ups, lows) = eliminate(&qs, vars[k].as_str())?;
        assert(vv[k as int] == vars@[k as int]@);
        let lv = Level { ups, lows };
        assert(level_ok(q0, vv, k as int, lv));
        levels.push(lv);
        qs = nq;
        k = k + 1;
    }
    let ghost fin = ineqs_view(qs@);
    assert(n == 0 ==> fin == q0);
    let mut i: usize = 0;
    while i < qs.len()
        invariant
            i <= qs@.len(),
            fin == ineqs_view(qs@),
            n == 0 ==> fin == q0,
            n == vars@.len(),
            vv == strs_view(vars@),
            vv.len() == n,
            q0 == to_ineqs(cons_view(cs@)),
            vv == vars_in(q0),
            forall|j: int| 0 <= j < i ==> #[trigger] fin[j].1 >= 0,
        decreases qs@.len() - i,
    {
        if qs[i].c < 0 {
            proof {
                assert(fin[i as int].1 < 0);
            }
            return None;
        }
        i = i + 1;
    }
    let mut model = Model::new();
    proof {
        assert forall|j: int| 0 <= j < fin.len() implies #[trigger] ineq_holds(fin[j], model_val(model@)) by {
            lemma_eval_zero(fin[j].0);
        }
    }
    let mut k: usize = n;
    while k > 0
        invariant
            n == vars@.len(),
            k <= n,
            vv == strs_view(vars@),
            vv.len() == n,
            q0 == to_ineqs(cons_view(cs@)),
            vv == vars_in(q0),
            all_distinct(q0),
            levels@.len() == n,
            fm_spec(q0, vv, k as nat) is Some,
            all_hold(fm_spec(q0, vv, k as nat).unwrap(), model_val(model@)),
            forall|j: int| 0 <= j < n ==> level_ok(q0, vv, j, #[trigger] levels@[j]),
        decreases k,
    {
        k = k - 1;
        let ghost sk = fm_spec(q0, vv, k as nat).unwrap();
        let ghost before = model@;
        assert(level_ok(q0, vv, k as int, levels@[k as int]));
        let x = pick_value(&levels[k], &model)?;
        model.set(&vars[k], x);
        proof {
            assert(levels@[k as int] == levels@[k as int]);
            lemma_fm_distinct(q0, vv, k as nat);
            assert(fm_spec(q0, vv, (k + 1) as nat) == Some(step(sk, vv[k as int])));
            assert(vv[k as int] == vars@[k as int]@);
            lemma_level(sk, vv[k as int], before, x as int);
        }
    }
    proof {
        if unsat_spec(cons_view(cs@)) == Some(true) {
            lemma_unsat_no_model(cons_view(cs@), model_val(model@));
        }
        if n == 0 {
            assert(fin == q0);
        }
    }
    Some(model)
}

/// Produce a concrete counter-example (a witness model) showing that
/// `concl` does not follow from `premises`: a model of the premises and of
/// one negation branch of the conclusion. `None` when no branch yields one.
pub fn counterexample(premises: &[Constraint], concl: &Constraint) -> (r: Option<Model>)
    ensures
        r matches Some(m) ==> exists|i: int| 0 <= i < negation(concl.1).len()
            && #[trigger] all_hold(to_ineqs(cons_view(premises@).push((con_view(*concl).0, negation(concl.1)[i]))), model_val(m@)),
        (forall|i: int| 0 <= i < negation(concl.1).len()
            ==> #[trigger] unsat_spec(cons_view(premises@).push((con_view(*concl).0, negation(concl.1)[i]))) == Some(true))
            ==> r is None,
        (exists|i: int| 0 <= i < negation(concl.1).len()
            && #[trigger] constant_sat(cons_view(premises@).push((con_view(*concl).0, negation(concl.1)[i]))))
            ==> r is Some,
{
    let rels = negation_exec(concl.1);
    let mut i: usize = 0;
    while i < rels.len()
        invariant
            i <= rels@.len(),
            rels@ == negation(concl.1),
            forall|k: int| 0 <= k < i ==>
                !#[trigger] constant_sat(cons_view(premises@).push((con_view(*concl).0, negation(concl.1)[k]))),
        decreases rels@.len() - i,
    {
        let branch = Constraint(concl.0.copy(), rels[i]);
        let combined = with_constraint(premises, branch);
        assert(con_view(branch) == (con_view(*concl).0, negation(concl.1)[i as int]));
        match model(combined.as_slice()) {
            Some(m) => {
                return Some(m);
            },
            None => {},
        }
        i = i + 1;
    }
    None
}

/// Negate a conclusion into branches (each a conjunction of constraints)
/// that, conjoined with the premises, must each be unsatisfiable for the
/// conclusion to be entailed.
pub fn negate(concl: &Constraint) -> (r: Vec<Vec<Constraint>>)
    ensures
        r@.len() == negation(concl.1).len(),
        forall|i: int| 0 <= i < r@.len() ==> #[trigger] cons_view(r@[i]@) == seq![(con_view(*concl).0, negation(concl.1)[i])],
{
    let rels = negation_exec(concl.1);
    let mut out: Vec<Vec<Constraint>> = Vec::new();
    let mut i: usize = 0;
    while i < rels.len()
        invariant
            i <= rels@.len(),
            rels@ == negation(concl.1),
            out@.len() == i,
            forall|j: int| 0 <= j < i ==> #[trigger] cons_view(out@[j]@) == seq![(con_view(*concl).0, negation(concl.1)[j])],
        decreases rels@.len() - i,
    {
        let mut b: Vec<Constraint> = Vec::new();
        let c = Constraint(concl.0.copy(), rels[i]);
        b.push(c);
        assert(cons_view(b@) == seq![con_view(c)]);
        out.push(b);
        i = i + 1;
    }
    out
}

/// A model found for a set of constraints satisfies each of them but `!=`.
pub proof fn lemma_model_satisfies(cs: Seq<ConV>, m: Valuation)
    requires
        all_hold(to_ineqs(cs), m),
    ensures
        forall|i: int| 0 <= i < cs.len() && cs[i].1 != Relation::Ne ==> #[trigger] holds_v(cs[i], m),
    decreases cs.len(),
{
    if cs.len() > 0 {
        let a = to_ineqs(cs.drop_last());
        let b = ineqs_of(cs.last());
        assert forall|k: int| 0 <= k < a.len() implies #[trigger] ineq_holds(a[k], m) by {
            assert((a + b)[k] == a[k]);
        }
        assert forall|k: int| 0 <= k < b.len() implies #[trigger] ineq_holds(b[k], m) by {
            assert((a + b)[a.len() + k] == b[k]);
        }
        lemma_model_satisfies(cs.drop_last(), m);
        assert forall|i: int| 0 <= i < cs.len() && cs[i].1 != Relation::Ne implies #[trigger] holds_v(cs[i], m) by {
            if i < cs.len() - 1 {
                assert(cs.drop_last()[i] == cs[i]);
            } else {
                lemma_ineqs_of_complete(cs.last(), m);
            }
        }
    }
}

/// A counter-example refutes the conclusion and satisfies every premise
/// but `!=`.
pub proof fn lemma_counterexample_refutes(pre: Seq<ConV>, c: ConV, m: Valuation, i: int)
    requires
        0 <= i < negation(c.1).len(),
        all_hold(to_ineqs(pre.push((c.0, negation(c.1)[i]))), m),
    ensures
        !holds_v(c, m),
        forall|k: int| 0 <= k < pre.len() && pre[k].1 != Relation::Ne ==> #[trigger] holds_v(pre[k], m),
{
    let all = pre.push((c.0, negation(c.1)[i]));
    lemma_model_satisfies(all, m);
    assert(all[pre.len() as int] == (c.0, negation(c.1)[i]));
    assert(holds_v(all[pre.len() as int], m));
    assert forall|k: int| 0 <= k < pre.len() && pre[k].1 != Relation::Ne implies #[trigger] holds_v(pre[k], m) by {
        assert(all[k] == pre[k]);
    }
}

/// When the conclusion is entailed, no valuation satisfies the inequalities
/// of the premises with a negation branch: no counter-example exists.
pub proof fn lemma_entailed_no_counterexample(pre: Seq<ConV>, c: ConV, m: Valuation, i: int)
    requires
        entails_spec(pre, c),
        0 <= i < negation(c.1).len(),
    ensures
        !all_hold(to_ineqs(pre.push((c.0, negation(c.1)[i]))), m),
{
    let all = pre.push((c.0, negation(c.1)[i]));
    assert(unsat_spec(all) == Some(true));
    if all_hold(to_ineqs(all), m) {
        let qs = to_ineqs(all);
        lemma_fm_sound(qs, vars_in(qs), vars_in(qs).len(), m);
        let f = fm_spec(qs, vars_in(qs), vars_in(qs).len()).unwrap();
        let j = choose|j: int| 0 <= j < f.len() && #[trigger] f[j].0.len() == 0 && f[j].1 < 0;
        assert(ineq_holds(f[j], m));
        assert(eval_terms(f[j].0, m) == 0);
    }
}

} // verus!
