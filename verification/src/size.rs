//! Symbolic byte-size arithmetic for allocation proofs.
//!
//! An allocation's size in bytes is a function of its tensor's dimensions.
//! Some dimensions are symbolic (named variables); others are fixed
//! constants. [`SizeExpr`] captures that arithmetic so that a prover can
//! linearize it for the Fourier-Motzkin engine.

use vstd::prelude::*;
use crate::ir::{
    Valuation, terms_view, eval_terms, merge_terms, merge_fits, scale_terms, fits_i64,
    lemma_eval_merge_terms, lemma_eval_scale, try_merge,
};
use crate::solver::{Model, model_val};
use crate::text::string_of;

verus! {

/// An integer arithmetic expression over (possibly symbolic) dimension names.
#[derive(Debug, PartialEq)]
pub enum SizeExpr {
    /// A fixed constant (a fixed dimension or an element width).
    Const(i64),
    /// A symbolic dimension name.
    Var(String),
    Add(Box<SizeExpr>, Box<SizeExpr>),
    Mul(Box<SizeExpr>, Box<SizeExpr>),
    /// Integer scalar multiplication (`Scale(k, e)` is `k * e`).
    Scale(i64, Box<SizeExpr>),
}

/// Why a [`SizeExpr`] has no linear form: it multiplies two factors that
/// both mention a variable.
#[derive(Debug, Clone, Copy, PartialEq, Eq)]
pub enum LinearizeError {
    Nonlinear,
}

/// The value of an expression under a valuation of its variables.
pub open spec fn size_eval(e: SizeExpr, m: Valuation) -> int
    decreases e,
{
    match e {
        SizeExpr::Const(n) => n as int,
        SizeExpr::Var(v) => m(v@),
        SizeExpr::Add(a, b) => size_eval(*a, m) + size_eval(*b, m),
        SizeExpr::Mul(a, b) => size_eval(*a, m) * size_eval(*b, m),
        SizeExpr::Scale(k, x) => k * size_eval(*x, m),
    }
}

/// Every intermediate value of evaluating `e` under `m` fits in an `i64`.
pub open spec fn eval_fits(e: SizeExpr, m: Valuation) -> bool
    decreases e,
{
    &&& fits_i64(size_eval(e, m))
    &&& match e {
        SizeExpr::Const(_) => true,
        SizeExpr::Var(_) => true,
        SizeExpr::Add(a, b) => eval_fits(*a, m) && eval_fits(*b, m),
        SizeExpr::Mul(a, b) => eval_fits(*a, m) && eval_fits(*b, m),
        SizeExpr::Scale(_, x) => eval_fits(*x, m),
    }
}

/// The expression mentions a variable: it is not a constant.
pub open spec fn has_var(e: SizeExpr) -> bool
    decreases e,
{
    match e {
        SizeExpr::Const(_) => false,
        SizeExpr::Var(_) => true,
        SizeExpr::Scale(_, x) => has_var(*x),
        SizeExpr::Add(a, b) => has_var(*a) || has_var(*b),
        SizeExpr::Mul(a, b) => has_var(*a) || has_var(*b),
    }
}

/// Linearity: no product of two non-constant factors.
pub open spec fn is_linear_spec(e: SizeExpr) -> bool
    decreases e,
{
    match e {
        SizeExpr::Const(_) => true,
        SizeExpr::Var(_) => true,
        SizeExpr::Scale(_, x) => is_linear_spec(*x),
        SizeExpr::Add(a, b) => is_linear_spec(*a) && is_linear_spec(*b),
        SizeExpr::Mul(a, b) => (!has_var(*a) || !has_var(*b)) && is_linear_spec(*a) && is_linear_spec(*b),
    }
}

/// The linear form `(terms, constant)` of an expression, with unbounded
/// coefficients, or `None` when two factors of a product both have terms.
/// Terms keep the order in which their variables first appear, and a
/// variable whose coefficients cancel keeps a zero term.
pub open spec fn lin_spec(e: SizeExpr) -> Option<(Seq<(Seq<char>, int)>, int)>
    decreases e,
{
    match e {
        SizeExpr::Const(n) => Some((Seq::empty(), n as int)),
        SizeExpr::Var(v) => Some((seq![(v@, 1int)], 0)),
        SizeExpr::Add(a, b) => match (lin_spec(*a), lin_spec(*b)) {
            (Some(la), Some(lb)) => Some((merge_terms(la.0, lb.0), la.1 + lb.1)),
            _ => None,
        },
        SizeExpr::Scale(k, x) => match lin_spec(*x) {
            Some(l) => Some((scale_terms(l.0, k as int), l.1 * k)),
            None => None,
        },
        SizeExpr::Mul(a, b) => match (lin_spec(*a), lin_spec(*b)) {
            (Some(la), Some(lb)) => if la.0.len() == 0 {
                Some((scale_terms(lb.0, la.1), la.1 * lb.1))
            } else if lb.0.len() == 0 {
                Some((scale_terms(la.0, lb.1), la.1 * lb.1))
            } else {
                None
            },
            _ => None,
        },
    }
}

/// Every coefficient of `scale_terms(ts, k)` fits in an `i64`.
pub open spec fn scale_terms_fit(ts: Seq<(Seq<char>, int)>, k: int) -> bool {
    forall|i: int| 0 <= i < ts.len() ==> fits_i64(#[trigger] ts[i].1 * k)
}

/// Every number computed while linearizing `e` (left operand first, stopping
/// at the first nonlinear product) fits in an `i64`.
pub open spec fn lin_fits(e: SizeExpr) -> bool
    decreases e,
{
    match e {
        SizeExpr::Const(_) => true,
        SizeExpr::Var(_) => true,
        SizeExpr::Add(a, b) => {
            &&& lin_fits(*a)
            &&& lin_spec(*a) is Some ==> lin_fits(*b)
            &&& match (lin_spec(*a), lin_spec(*b)) {
                (Some(la), Some(lb)) => merge_fits(la.0, lb.0) && fits_i64(la.1 + lb.1),
                _ => true,
            }
        },
        SizeExpr::Scale(k, x) => {
            &&& lin_fits(*x)
            &&& match lin_spec(*x) {
                Some(l) => scale_terms_fit(l.0, k as int) && fits_i64(l.1 * k),
                None => true,
            }
        },
        SizeExpr::Mul(a, b) => {
            &&& lin_fits(*a)
            &&& lin_spec(*a) is Some ==> lin_fits(*b)
            &&& match (lin_spec(*a), lin_spec(*b)) {
                (Some(la), Some(lb)) => {
                    &&& fits_i64(la.1 * lb.1)
                    &&& la.0.len() == 0 ==> scale_terms_fit(lb.0, la.1)
                    &&& (la.0.len() != 0 && lb.0.len() == 0) ==> scale_terms_fit(la.0, lb.1)
                },
                _ => true,
            }
        },
    }
}

/// Multiply every coefficient by `k`.
fn scale_vec(ts: &Vec<(String, i64)>, k: i64) -> (r: Vec<(String, i64)>)
    requires
        scale_terms_fit(terms_view(ts@), k as int),
    ensures
        terms_view(r@) == scale_terms(terms_view(ts@), k as int),
{
    let mut out: Vec<(String, i64)> = Vec::new();
    let mut i: usize = 0;
    while i < ts.len()
        invariant
            i <= ts@.len(),
            scale_terms_fit(terms_view(ts@), k as int),
            terms_view(out@) == scale_terms(terms_view(ts@.take(i as int)), k as int),
        decreases ts@.len() - i,
    {
        let c = ts[i].1;
        assert(terms_view(ts@)[i as int].1 == c);
        assert(fits_i64(c * k));
        out.push((ts[i].0.clone(), c * k));
        assert(scale_terms(terms_view(ts@.take(i + 1)), k as int) == scale_terms(terms_view(ts@.take(i as int)), k as int).push((ts@[i as int].0@, c * k)));
        i = i + 1;
    }
    assert(ts@.take(ts@.len() as int) == ts@);
    out
}

impl SizeExpr {
    /// A fixed constant.
    pub fn const_(n: i64) -> (r: SizeExpr)
        ensures
            r == SizeExpr::Const(n),
    {
        SizeExpr::Const(n)
    }

    /// A symbolic dimension.
    pub fn var(name: &str) -> (r: SizeExpr)
        ensures
            r matches SizeExpr::Var(v) && v@ == name@,
    {
        SizeExpr::Var(string_of(name))
    }

    /// True iff the expression contains no product of two non-constant
    /// factors. The Fourier-Motzkin engine decides only linear arithmetic.
    pub fn is_linear(&self) -> (r: bool)
        ensures
            r == is_linear_spec(*self),
        decreases self,
    {
        match self {
            SizeExpr::Const(_) => true,
            SizeExpr::Var(_) => true,
            SizeExpr::Scale(_, e) => e.is_linear(),
            SizeExpr::Add(a, b) => a.is_linear() && b.is_linear(),
            SizeExpr::Mul(a, b) => (!a.has_var() || !b.has_var()) && a.is_linear() && b.is_linear(),
        }
    }

    /// Does the expression mention a variable?
    pub fn has_var(&self) -> (r: bool)
        ensures
            r == has_var(*self),
        decreases self,
    {
        match self {
            SizeExpr::Const(_) => false,
            SizeExpr::Var(_) => true,
            SizeExpr::Scale(_, e) => e.has_var(),
            SizeExpr::Add(a, b) => a.has_var() || b.has_var(),
            SizeExpr::Mul(a, b) => a.has_var() || b.has_var(),
        }
    }

    /// The linear form `(terms, constant)` of the expression, such that it
    /// equals `sum(coefficient * variable) + constant`, or
    /// `Err(Nonlinear)` when a product has terms on both sides.
    pub fn try_linearize(&self) -> (r: Result<(Vec<(String, i64)>, i64), LinearizeError>)
        requires
            lin_fits(*self),
        ensures
            match r {
                Ok((t, c)) => lin_spec(*self) == Some((terms_view(t@), c as int)),
                Err(_) => lin_spec(*self) is None,
            },
        decreases self,
    {
        match self {
            SizeExpr::Const(n) => {
                let t: Vec<(String, i64)> = Vec::new();
                assert(terms_view(t@) == Seq::<(Seq<char>, int)>::empty());
                Ok((t, *n))
            },
            SizeExpr::Var(v) => {
                let mut t: Vec<(String, i64)> = Vec::new();
                t.push((v.clone(), 1));
                assert(terms_view(t@) == seq![(v@, 1int)]);
                Ok((t, 0))
            },
            SizeExpr::Add(a, b) => {
                let (t1, c1) = a.try_linearize()?;
                let (t2, c2) = b.try_linearize()?;
                match try_merge(&t1, &t2) {
                    Some(t) => Ok((t, c1 + c2)),
                    None => Err(LinearizeError::Nonlinear),
                }
            },
            SizeExpr::Scale(k, e) => {
                let (t, c) = e.try_linearize()?;
                Ok((scale_vec(&t, *k), c * *k))
            },
            SizeExpr::Mul(a, b) => {
                let (t1, c1) = a.try_linearize()?;
                let (t2, c2) = b.try_linearize()?;
                if t1.len() == 0 {
                    Ok((scale_vec(&t2, c1), c1 * c2))
                } else if t2.len() == 0 {
                    Ok((scale_vec(&t1, c2), c1 * c2))
                } else {
                    Err(LinearizeError::Nonlinear)
                }
            },
        }
    }

    /// The linear form of an expression that has one.
    pub fn linearize(&self) -> (r: (Vec<(String, i64)>, i64))
        requires
            lin_fits(*self),
            lin_spec(*self) is Some,
        ensures
            lin_spec(*self) == Some((terms_view(r.0@), r.1 as int)),
    {
        match self.try_linearize() {
            Ok(l) => l,
            Err(_) => {
                assert(false);
                (Vec::new(), 0)
            },
        }
    }

    /// The value of the expression in a model; variables the model does not
    /// bind read as 0.
    pub fn eval(&self, model: &Model) -> (r: i64)
        requires
            eval_fits(*self, model_val(model@)),
        ensures
            r == size_eval(*self, model_val(model@)),
        decreases self,
    {
        match self {
            SizeExpr::Const(n) => *n,
            SizeExpr::Var(v) => {
                match model.get(v.as_str()) {
                    Some(x) => *x,
                    None => 0,
                }
            },
            SizeExpr::Add(a, b) => a.eval(model) + b.eval(model),
            SizeExpr::Mul(a, b) => a.eval(model) * b.eval(model),
            SizeExpr::Scale(k, e) => *k * e.eval(model),
        }
    }
}

proof fn lemma_find_term_range(ts: Seq<(Seq<char>, int)>, v: Seq<char>)
    ensures
        crate::ir::find_term(ts, v) matches Some(i) ==> 0 <= i < ts.len(),
    decreases ts.len(),
{
    if ts.len() > 0 {
        lemma_find_term_range(ts.drop_last(), v);
    }
}

proof fn lemma_merge_terms_len(ts: Seq<(Seq<char>, int)>, bs: Seq<(Seq<char>, int)>)
    ensures
        merge_terms(ts, bs).len() >= ts.len(),
        bs.len() > 0 ==> merge_terms(ts, bs).len() > 0,
    decreases bs.len(),
{
    if bs.len() > 0 {
        lemma_merge_terms_len(ts, bs.drop_last());
        lemma_find_term_range(merge_terms(ts, bs.drop_last()), bs.last().0);
    }
}

/// An expression is linear exactly when it has a linear form, and its
/// linear form has terms exactly when it mentions a variable.
pub proof fn lemma_linear_iff_form(e: SizeExpr)
    ensures
        is_linear_spec(e) == (lin_spec(e) is Some),
        lin_spec(e) is Some ==> (lin_spec(e).unwrap().0.len() == 0 <==> !has_var(e)),
    decreases e,
{
    match e {
        SizeExpr::Const(_) => {},
        SizeExpr::Var(_) => {},
        SizeExpr::Scale(_, x) => {
            lemma_linear_iff_form(*x);
        },
        SizeExpr::Add(a, b) => {
            lemma_linear_iff_form(*a);
            lemma_linear_iff_form(*b);
            if lin_spec(*a) is Some && lin_spec(*b) is Some {
                lemma_merge_terms_len(lin_spec(*a).unwrap().0, lin_spec(*b).unwrap().0);
            }
        },
        SizeExpr::Mul(a, b) => {
            lemma_linear_iff_form(*a);
            lemma_linear_iff_form(*b);
        },
    }
}

/// The linear form denotes the expression: wherever `lin_spec(e)` is
/// `(terms, c)`, `e` equals `sum(coefficient * variable) + c` under every
/// valuation.
pub proof fn lemma_linearize_sound(e: SizeExpr, m: Valuation)
    requires
        lin_spec(e) is Some,
    ensures
        eval_terms(lin_spec(e).unwrap().0, m) + lin_spec(e).unwrap().1 == size_eval(e, m),
    decreases e,
{
    match e {
        SizeExpr::Const(n) => {
            assert(lin_spec(e) == Some((Seq::<(Seq<char>, int)>::empty(), n as int)));
            assert(eval_terms(Seq::<(Seq<char>, int)>::empty(), m) == 0);
            assert(size_eval(e, m) == n);
            assert(lin_spec(e).unwrap().1 == n);
            assert(lin_spec(e).unwrap().0 == Seq::<(Seq<char>, int)>::empty());
        },
        SizeExpr::Var(v) => {
            let t = seq![(v@, 1int)];
            assert(t.drop_last() == Seq::<(Seq<char>, int)>::empty());
            assert(eval_terms(Seq::<(Seq<char>, int)>::empty(), m) == 0);
            assert(eval_terms(t, m) == m(v@));
        },
        SizeExpr::Add(a, b) => {
            lemma_linearize_sound(*a, m);
            lemma_linearize_sound(*b, m);
            let la = lin_spec(*a).unwrap();
            let lb = lin_spec(*b).unwrap();
            lemma_eval_merge_terms(la.0, lb.0, m);
        },
        SizeExpr::Scale(k, x) => {
            lemma_linearize_sound(*x, m);
            let l = lin_spec(*x).unwrap();
            lemma_eval_scale(l.0, k as int, m);
            let v = eval_terms(l.0, m);
            assert(k * v + l.1 * k == k * (v + l.1)) by (nonlinear_arith);
        },
        SizeExpr::Mul(a, b) => {
            lemma_linearize_sound(*a, m);
            lemma_linearize_sound(*b, m);
            let la = lin_spec(*a).unwrap();
            let lb = lin_spec(*b).unwrap();
            if la.0.len() == 0 {
                lemma_eval_scale(lb.0, la.1, m);
                let v = eval_terms(lb.0, m);
                let c1 = la.1;
                let c2 = lb.1;
                assert(c1 * v + c1 * c2 == c1 * (v + c2)) by (nonlinear_arith);
            } else {
                lemma_eval_scale(la.0, lb.1, m);
                let v = eval_terms(la.0, m);
                let c1 = la.1;
                let c2 = lb.1;
                assert(c2 * v + c1 * c2 == (v + c1) * c2) by (nonlinear_arith);
            }
        },
    }
}

} // verus!
