//! Intermediate representation for verification.
//!
//! All constraints are lowered into *linear* form: a sum of
//! `coefficient * variable` plus a constant, compared against zero. A
//! [`Linear`] denotes an integer-valued function of a valuation
//! ([`eval_linear`]); the arithmetic helpers are exact with respect to that
//! denotation.

use vstd::prelude::*;
use crate::span::Span;
use crate::text::string_of;

verus! {

#[derive(Debug, Clone, Copy, PartialEq, Eq, Structural)]
pub enum Relation {
    Le, // <= 0
    Lt, // <  0
    Ge, // >= 0
    Gt, // >  0
    Eq, // == 0
    Ne, // != 0
}

#[derive(Debug, Clone, PartialEq, Eq)]
pub struct Linear {
    /// `(variable, coefficient)` pairs.
    pub terms: Vec<(String, i64)>,
    pub constant: i64,
}

/// A linear arithmetic constraint: `linear_expression relation 0`.
#[derive(Debug, Clone, PartialEq, Eq)]
pub struct Constraint(pub Linear, pub Relation);

/// A valuation of variables by name.
pub type Valuation = spec_fn(Seq<char>) -> int;

/// The `(name, coefficient)` view of a list of terms.
pub open spec fn terms_view(ts: Seq<(String, i64)>) -> Seq<(Seq<char>, int)> {
    ts.map_values(|p: (String, i64)| (p.0@, p.1 as int))
}

/// `sum(coeff * m(name))` over a list of terms.
pub open spec fn eval_terms(ts: Seq<(Seq<char>, int)>, m: Valuation) -> int
    decreases ts.len(),
{
    if ts.len() == 0 {
        0
    } else {
        eval_terms(ts.drop_last(), m) + ts.last().1 * m(ts.last().0)
    }
}

/// The value of a linear expression under a valuation.
pub open spec fn eval_linear(l: Linear, m: Valuation) -> int {
    eval_terms(terms_view(l.terms@), m) + l.constant
}

/// Does the constraint hold under a valuation?
pub open spec fn holds(c: Constraint, m: Valuation) -> bool {
    let v = eval_linear(c.0, m);
    match c.1 {
        Relation::Le => v <= 0,
        Relation::Lt => v < 0,
        Relation::Ge => v >= 0,
        Relation::Gt => v > 0,
        Relation::Eq => v == 0,
        Relation::Ne => v != 0,
    }
}

/// Index of the first term named `v`, if any.
pub open spec fn find_term(ts: Seq<(Seq<char>, int)>, v: Seq<char>) -> Option<int>
    decreases ts.len(),
{
    if ts.len() == 0 {
        None
    } else {
        match find_term(ts.drop_last(), v) {
            Some(i) => Some(i),
            None => if ts.last().0 == v { Some(ts.len() - 1) } else { None },
        }
    }
}

/// Add `c * v` into a term list: onto the first term named `v`, or as a new
/// last term.
pub open spec fn merge_term(ts: Seq<(Seq<char>, int)>, p: (Seq<char>, int)) -> Seq<(Seq<char>, int)> {
    match find_term(ts, p.0) {
        Some(i) => ts.update(i, (ts[i].0, ts[i].1 + p.1)),
        None => ts.push(p),
    }
}

/// Merge every term of `bs`, in order, into `ts`.
pub open spec fn merge_terms(ts: Seq<(Seq<char>, int)>, bs: Seq<(Seq<char>, int)>) -> Seq<(Seq<char>, int)>
    decreases bs.len(),
{
    if bs.len() == 0 {
        ts
    } else {
        merge_term(merge_terms(ts, bs.drop_last()), bs.last())
    }
}

pub open spec fn fits_i64(x: int) -> bool {
    i64::MIN <= x <= i64::MAX
}

/// Every coefficient produced while merging `bs` into `ts` fits in an `i64`.
pub open spec fn merge_fits(ts: Seq<(Seq<char>, int)>, bs: Seq<(Seq<char>, int)>) -> bool
    decreases bs.len(),
{
    if bs.len() == 0 {
        true
    } else {
        let acc = merge_terms(ts, bs.drop_last());
        &&& merge_fits(ts, bs.drop_last())
        &&& match find_term(acc, bs.last().0) {
            Some(i) => fits_i64(acc[i].1 + bs.last().1),
            None => true,
        }
    }
}

pub open spec fn nonzero_terms(ts: Seq<(Seq<char>, int)>) -> Seq<(Seq<char>, int)> {
    ts.filter(|p: (Seq<char>, int)| p.1 != 0)
}

pub open spec fn negate_terms(ts: Seq<(Seq<char>, int)>) -> Seq<(Seq<char>, int)> {
    ts.map_values(|p: (Seq<char>, int)| (p.0, -p.1))
}

pub open spec fn scale_terms(ts: Seq<(Seq<char>, int)>, k: int) -> Seq<(Seq<char>, int)> {
    ts.map_values(|p: (Seq<char>, int)| (p.0, p.1 * k))
}

/// `a + b` stays within `i64` coefficients and constant.
pub open spec fn add_fits(a: Linear, b: Linear) -> bool {
    &&& merge_fits(terms_view(a.terms@), terms_view(b.terms@))
    &&& fits_i64(a.constant + b.constant)
}

/// `-l` stays within `i64`.
pub open spec fn neg_fits(l: Linear) -> bool {
    &&& l.constant != i64::MIN
    &&& forall|i: int| 0 <= i < l.terms@.len() ==> #[trigger] l.terms@[i].1 != i64::MIN
}

/// `a - b` stays within `i64`.
pub open spec fn sub_fits(a: Linear, b: Linear) -> bool {
    &&& neg_fits(b)
    &&& merge_fits(terms_view(a.terms@), negate_terms(terms_view(b.terms@)))
    &&& fits_i64(a.constant - b.constant)
}

/// `k * l` stays within `i64`.
pub open spec fn scale_fits(l: Linear, k: int) -> bool {
    &&& fits_i64(l.constant * k)
    &&& forall|i: int| 0 <= i < l.terms@.len() ==> fits_i64(#[trigger] l.terms@[i].1 * k)
}

// ---------------------------------------------------------------------------
// Lemmas about the denotation
// ---------------------------------------------------------------------------

pub proof fn lemma_eval_push(ts: Seq<(Seq<char>, int)>, p: (Seq<char>, int), m: Valuation)
    ensures
        eval_terms(ts.push(p), m) == eval_terms(ts, m) + p.1 * m(p.0),
{
    assert(ts.push(p).drop_last() == ts);
}

pub proof fn lemma_eval_update(ts: Seq<(Seq<char>, int)>, i: int, c: int, m: Valuation)
    requires
        0 <= i < ts.len(),
    ensures
        eval_terms(ts.update(i, (ts[i].0, ts[i].1 + c)), m) == eval_terms(ts, m) + c * m(ts[i].0),
    decreases ts.len(),
{
    let u = ts.update(i, (ts[i].0, ts[i].1 + c));
    if i == ts.len() - 1 {
        assert(u.drop_last() == ts.drop_last());
        assert(u.last().1 * m(u.last().0) == ts.last().1 * m(ts.last().0) + c * m(ts[i].0)) by (nonlinear_arith)
            requires u.last().1 == ts.last().1 + c, u.last().0 == ts.last().0, ts[i].0 == ts.last().0;
    } else {
        lemma_eval_update(ts.drop_last(), i, c, m);
        assert(u.drop_last() == ts.drop_last().update(i, (ts[i].0, ts[i].1 + c)));
    }
}

pub proof fn lemma_find_term(ts: Seq<(Seq<char>, int)>, v: Seq<char>)
    ensures
        find_term(ts, v) matches Some(i) ==> 0 <= i < ts.len() && ts[i].0 == v,
        find_term(ts, v) is None ==> forall|j: int| 0 <= j < ts.len() ==> ts[j].0 != v,
    decreases ts.len(),
{
    if ts.len() > 0 {
        lemma_find_term(ts.drop_last(), v);
        if find_term(ts, v) is None {
            assert forall|j: int| 0 <= j < ts.len() implies ts[j].0 != v by {
                if j < ts.len() - 1 {
                    assert(ts[j] == ts.drop_last()[j]);
                }
            }
        }
    }
}

pub proof fn lemma_eval_merge_term(ts: Seq<(Seq<char>, int)>, p: (Seq<char>, int), m: Valuation)
    ensures
        eval_terms(merge_term(ts, p), m) == eval_terms(ts, m) + p.1 * m(p.0),
{
    lemma_find_term(ts, p.0);
    match find_term(ts, p.0) {
        Some(i) => lemma_eval_update(ts, i, p.1, m),
        None => lemma_eval_push(ts, p, m),
    }
}

pub proof fn lemma_eval_merge_terms(ts: Seq<(Seq<char>, int)>, bs: Seq<(Seq<char>, int)>, m: Valuation)
    ensures
        eval_terms(merge_terms(ts, bs), m) == eval_terms(ts, m) + eval_terms(bs, m),
    decreases bs.len(),
{
    if bs.len() > 0 {
        lemma_eval_merge_terms(ts, bs.drop_last(), m);
        lemma_eval_merge_term(merge_terms(ts, bs.drop_last()), bs.last(), m);
    }
}

pub proof fn lemma_eval_nonzero(ts: Seq<(Seq<char>, int)>, m: Valuation)
    ensures
        eval_terms(nonzero_terms(ts), m) == eval_terms(ts, m),
    decreases ts.len(),
{
    reveal_with_fuel(Seq::filter, 1);
    if ts.len() > 0 {
        lemma_eval_nonzero(ts.drop_last(), m);
        if ts.last().1 != 0 {
            lemma_eval_push(nonzero_terms(ts.drop_last()), ts.last(), m);
        }
    }
}

pub proof fn lemma_eval_negate(ts: Seq<(Seq<char>, int)>, m: Valuation)
    ensures
        eval_terms(negate_terms(ts), m) == -eval_terms(ts, m),
    decreases ts.len(),
{
    if ts.len() > 0 {
        lemma_eval_negate(ts.drop_last(), m);
        assert(negate_terms(ts).drop_last() == negate_terms(ts.drop_last()));
        assert((-ts.last().1) * m(ts.last().0) == -(ts.last().1 * m(ts.last().0))) by (nonlinear_arith);
    }
}

pub proof fn lemma_eval_scale(ts: Seq<(Seq<char>, int)>, k: int, m: Valuation)
    ensures
        eval_terms(scale_terms(ts, k), m) == k * eval_terms(ts, m),
    decreases ts.len(),
{
    if ts.len() > 0 {
        lemma_eval_scale(ts.drop_last(), k, m);
        assert(scale_terms(ts, k).drop_last() == scale_terms(ts.drop_last(), k));
        let a = eval_terms(ts.drop_last(), m);
        let c = ts.last().1;
        let x = m(ts.last().0);
        assert(k * a + (c * k) * x == k * (a + c * x)) by (nonlinear_arith);
    }
}

// ---------------------------------------------------------------------------
// Executable arithmetic
// ---------------------------------------------------------------------------

pub(crate) fn copy_terms(ts: &Vec<(String, i64)>) -> (r: Vec<(String, i64)>)
    ensures
        terms_view(r@) == terms_view(ts@),
{
    let mut out: Vec<(String, i64)> = Vec::new();
    let mut i: usize = 0;
    while i < ts.len()
        invariant
            i <= ts@.len(),
            terms_view(out@) == terms_view(ts@.take(i as int)),
        decreases ts@.len() - i,
    {
        let (v, c) = (&ts[i].0, ts[i].1);
        out.push((v.clone(), c));
        assert(terms_view(ts@.take(i + 1)) == terms_view(ts@.take(i as int)).push((ts@[i as int].0@, ts@[i as int].1 as int)));
        i = i + 1;
    }
    assert(ts@.take(ts@.len() as int) == ts@);
    out
}

pub(crate) fn find_index(ts: &Vec<(String, i64)>, v: &str) -> (r: Option<usize>)
    ensures
        r matches Some(i) ==> find_term(terms_view(ts@), v@) == Some(i as int) && i < ts@.len(),
        r is None ==> find_term(terms_view(ts@), v@) is None,
{
    let mut i: usize = 0;
    while i < ts.len()
        invariant
            i <= ts@.len(),
            find_term(terms_view(ts@.take(i as int)), v@) is None,
        decreases ts@.len() - i,
    {
        assert(terms_view(ts@.take(i + 1)).drop_last() == terms_view(ts@.take(i as int)));
        if crate::text::str_eq(ts[i].0.as_str(), v) {
            proof {
                lemma_find_prefix(terms_view(ts@), i as int + 1, v@);
                assert(terms_view(ts@).take(i + 1) == terms_view(ts@.take(i + 1)));
            }
            return Some(i);
        }
        i = i + 1;
    }
    assert(ts@.take(ts@.len() as int) == ts@);
    None
}

/// Finding within a prefix that already contains a match agrees with the
/// whole list.
pub proof fn lemma_find_prefix(ts: Seq<(Seq<char>, int)>, k: int, v: Seq<char>)
    requires
        0 < k <= ts.len(),
        find_term(ts.take(k), v) is Some,
    ensures
        find_term(ts, v) == find_term(ts.take(k), v),
    decreases ts.len(),
{
    if k < ts.len() {
        assert(ts.drop_last().take(k) == ts.take(k));
        lemma_find_prefix(ts.drop_last(), k, v);
    } else {
        assert(ts.take(k) == ts);
    }
}

fn retain_nonzero(ts: Vec<(String, i64)>) -> (r: Vec<(String, i64)>)
    ensures
        terms_view(r@) == nonzero_terms(terms_view(ts@)),
{
    let mut out: Vec<(String, i64)> = Vec::new();
    let mut i: usize = 0;
    while i < ts.len()
        invariant
            i <= ts@.len(),
            terms_view(out@) == nonzero_terms(terms_view(ts@.take(i as int))),
        decreases ts@.len() - i,
    {
        reveal_with_fuel(Seq::filter, 1);
        assert(terms_view(ts@.take(i + 1)).drop_last() == terms_view(ts@.take(i as int)));
        if ts[i].1 != 0 {
            out.push((ts[i].0.clone(), ts[i].1));
        }
        i = i + 1;
    }
    assert(ts@.take(ts@.len() as int) == ts@);
    out
}

/// Merge the terms of `ys`, in order, into those of `xs`, keeping zero
/// coefficients; `None` when a coefficient would leave `i64`.
pub(crate) fn try_merge(xs: &Vec<(String, i64)>, ys: &Vec<(String, i64)>) -> (r: Option<Vec<(String, i64)>>)
    ensures
    r is Some <==> merge_fits(terms_view(xs@), terms_view(ys@)),
    r matches Some(t) ==> terms_view(t@) == merge_terms(terms_view(xs@), terms_view(ys@)),
{
    let ghost a = terms_view(xs@);
    let ghost b = terms_view(ys@);
    let mut terms = copy_terms(xs);
    let mut i: usize = 0;
    while i < ys.len()
        invariant
            i <= ys@.len(),
            a == terms_view(xs@),
            b == terms_view(ys@),
            terms_view(terms@) == merge_terms(a, b.take(i as int)),
            merge_fits(a, b.take(i as int)),
        decreases ys@.len() - i,
    {
        let v = &ys[i].0;
        let c = ys[i].1;
        assert(b.take(i + 1).drop_last() == b.take(i as int));
        assert(b.take(i + 1).last() == (v@, c as int));
        let ghost before = terms@;
        match find_index(&terms, v.as_str()) {
            Some(j) => {
                let old_c = terms[j].1;
                proof {
                    lemma_find_term(terms_view(terms@), v@);
                }
                if (c > 0 && old_c > i64::MAX - c) || (c < 0 && old_c < i64::MIN - c) {
                    proof {
                        let acc = terms_view(terms@);
                        assert(acc[j as int].1 == old_c);
                        assert(!fits_i64(old_c + c));
                        assert(merge_terms(a, b.take(i + 1).drop_last()) == acc);
                        assert(find_term(acc, b.take(i + 1).last().0) == Some(j as int));
                        assert(!merge_fits(a, b.take(i + 1)));
                        lemma_merge_fits_prefix(a, b, i as int + 1);
                    }
                    return None;
                }
                let name = terms[j].0.clone();
                terms.set(j, (name, old_c + c));
                assert(terms_view(terms@) == terms_view(before).update(j as int, (terms_view(before)[j as int].0, terms_view(before)[j as int].1 + c)));
            },
            None => {
                terms.push((v.clone(), c));
                assert(terms_view(terms@) == terms_view(before).push((v@, c as int)));
            },
        }
        i = i + 1;
    }
    assert(b.take(b.len() as int) == b);
    Some(terms)
}

impl Linear {
    /// A single variable with coefficient 1.
    pub fn var(name: &str) -> (r: Linear)
        ensures
            terms_view(r.terms@) == seq![(name@, 1int)],
            r.constant == 0,
    {
        let mut terms: Vec<(String, i64)> = Vec::new();
        terms.push((string_of(name), 1));
        assert(terms_view(terms@) == seq![(name@, 1int)]);
        Linear { terms, constant: 0 }
    }

    /// No variable terms and a fixed constant.
    pub fn constant_only(c: i64) -> (r: Linear)
        ensures
            r.terms@.len() == 0,
            r.constant == c,
    {
        Linear { terms: Vec::new(), constant: c }
    }

    /// A copy with the same terms and constant.
    pub fn copy(&self) -> (r: Linear)
        ensures
            terms_view(r.terms@) == terms_view(self.terms@),
            r.constant == self.constant,
    {
        Linear { terms: copy_terms(&self.terms), constant: self.constant }
    }

    /// `self + other`, or `None` when a coefficient or the constant would
    /// leave `i64`.
    pub fn try_add(&self, other: &Linear) -> (r: Option<Linear>)
        ensures
            r is Some <==> add_fits(*self, *other),
            r matches Some(l) ==> terms_view(l.terms@) == nonzero_terms(merge_terms(terms_view(self.terms@), terms_view(other.terms@))),
            r matches Some(l) ==> l.constant == self.constant + other.constant,
    {
        let terms = match try_merge(&self.terms, &other.terms) {
            Some(t) => t,
            None => return None,
        };
        let (ac, bc) = (self.constant, other.constant);
        if (bc > 0 && ac > i64::MAX - bc) || (bc < 0 && ac < i64::MIN - bc) {
            return None;
        }
        let terms = retain_nonzero(terms);
        Some(Linear { terms, constant: ac + bc })
    }

    /// Add two linear expressions term-by-term, cancelling zero-coefficient
    /// terms.
    pub fn add(&self, other: &Linear) -> (r: Linear)
        requires
            add_fits(*self, *other),
        ensures
            terms_view(r.terms@) == nonzero_terms(merge_terms(terms_view(self.terms@), terms_view(other.terms@))),
            r.constant == self.constant + other.constant,
            forall|m: Valuation| eval_linear(r, m) == eval_linear(*self, m) + eval_linear(*other, m),
    {
        let r = self.try_add(other).unwrap();
        proof {
            assert forall|m: Valuation| eval_linear(r, m) == eval_linear(*self, m) + eval_linear(*other, m) by {
                lemma_eval_nonzero(merge_terms(terms_view(self.terms@), terms_view(other.terms@)), m);
                lemma_eval_merge_terms(terms_view(self.terms@), terms_view(other.terms@), m);
            }
        }
        r
    }

    /// `-self`, or `None` when a coefficient or the constant is `i64::MIN`.
    pub fn try_neg(&self) -> (r: Option<Linear>)
        ensures
            r is Some <==> neg_fits(*self),
            r matches Some(l) ==> terms_view(l.terms@) == negate_terms(terms_view(self.terms@)),
            r matches Some(l) ==> l.constant == -self.constant,
    {
        let mut terms: Vec<(String, i64)> = Vec::new();
        let mut i: usize = 0;
        while i < self.terms.len()
            invariant
                i <= self.terms@.len(),
                terms_view(terms@) == negate_terms(terms_view(self.terms@.take(i as int))),
                forall|j: int| 0 <= j < i ==> #[trigger] self.terms@[j].1 != i64::MIN,
            decreases self.terms@.len() - i,
        {
            let c = self.terms[i].1;
            if c == i64::MIN {
                return None;
            }
            terms.push((self.terms[i].0.clone(), -c));
            assert(negate_terms(terms_view(self.terms@.take(i + 1))) == negate_terms(terms_view(self.terms@.take(i as int))).push((self.terms@[i as int].0@, -(c as int))));
            i = i + 1;
        }
        assert(self.terms@.take(self.terms@.len() as int) == self.terms@);
        if self.constant == i64::MIN {
            return None;
        }
        Some(Linear { terms, constant: -self.constant })
    }

    /// Negate every coefficient and the constant.
    pub fn neg(&self) -> (r: Linear)
        requires
            neg_fits(*self),
        ensures
            terms_view(r.terms@) == negate_terms(terms_view(self.terms@)),
            r.constant == -self.constant,
            forall|m: Valuation| eval_linear(r, m) == -eval_linear(*self, m),
    {
        let r = self.try_neg().unwrap();
        proof {
            assert forall|m: Valuation| eval_linear(r, m) == -eval_linear(*self, m) by {
                lemma_eval_negate(terms_view(self.terms@), m);
            }
        }
        r
    }

    /// `self - other`, or `None` when the result would leave `i64`.
    pub fn try_sub(&self, other: &Linear) -> (r: Option<Linear>)
        ensures
            r is Some <==> sub_fits(*self, *other),
            r matches Some(l) ==> terms_view(l.terms@) == nonzero_terms(merge_terms(terms_view(self.terms@), negate_terms(terms_view(other.terms@)))),
            r matches Some(l) ==> l.constant == self.constant - other.constant,
    {
        match other.try_neg() {
            Some(n) => self.try_add(&n),
            None => None,
        }
    }

    /// Subtract `other` from `self` term-by-term.
    pub fn sub(&self, other: &Linear) -> (r: Linear)
        requires
            sub_fits(*self, *other),
        ensures
            terms_view(r.terms@) == nonzero_terms(merge_terms(terms_view(self.terms@), negate_terms(terms_view(other.terms@)))),
            r.constant == self.constant - other.constant,
            forall|m: Valuation| eval_linear(r, m) == eval_linear(*self, m) - eval_linear(*other, m),
    {
        let r = self.try_sub(other).unwrap();
        proof {
            assert forall|m: Valuation| eval_linear(r, m) == eval_linear(*self, m) - eval_linear(*other, m) by {
                let n = negate_terms(terms_view(other.terms@));
                lemma_eval_nonzero(merge_terms(terms_view(self.terms@), n), m);
                lemma_eval_merge_terms(terms_view(self.terms@), n, m);
                lemma_eval_negate(terms_view(other.terms@), m);
            }
        }
        r
    }

    /// `k * self`, or `None` when a product would leave `i64`.
    pub fn try_scale(&self, k: i64) -> (r: Option<Linear>)
        ensures
            r is Some <==> scale_fits(*self, k as int),
            r matches Some(l) ==> terms_view(l.terms@) == scale_terms(terms_view(self.terms@), k as int),
            r matches Some(l) ==> l.constant == self.constant * k,
    {
        let mut terms: Vec<(String, i64)> = Vec::new();
        let mut i: usize = 0;
        while i < self.terms.len()
            invariant
                i <= self.terms@.len(),
                terms_view(terms@) == scale_terms(terms_view(self.terms@.take(i as int)), k as int),
                forall|j: int| 0 <= j < i ==> fits_i64(#[trigger] self.terms@[j].1 * k),
            decreases self.terms@.len() - i,
        {
            let c = self.terms[i].1;
            let p = c.checked_mul(k);
            match p {
                Some(v) => {
                    terms.push((self.terms[i].0.clone(), v));
                    assert(scale_terms(terms_view(self.terms@.take(i + 1)), k as int) == scale_terms(terms_view(self.terms@.take(i as int)), k as int).push((self.terms@[i as int].0@, c * k)));
                },
                None => {
                    return None;
                },
            }
            i = i + 1;
        }
        assert(self.terms@.take(self.terms@.len() as int) == self.terms@);
        match self.constant.checked_mul(k) {
            Some(c) => Some(Linear { terms, constant: c }),
            None => None,
        }
    }

    /// Multiply every coefficient and the constant by `k`.
    pub fn scale(&self, k: i64) -> (r: Linear)
        requires
            scale_fits(*self, k as int),
        ensures
            terms_view(r.terms@) == scale_terms(terms_view(self.terms@), k as int),
            r.constant == self.constant * k,
            forall|m: Valuation| eval_linear(r, m) == k * eval_linear(*self, m),
    {
        let r = self.try_scale(k).unwrap();
        proof {
            assert forall|m: Valuation| eval_linear(r, m) == k * eval_linear(*self, m) by {
                lemma_eval_scale(terms_view(self.terms@), k as int, m);
                let e = eval_terms(terms_view(self.terms@), m);
                assert(k * e + self.constant * k == k * (e + self.constant)) by (nonlinear_arith);
            }
        }
        r
    }
}

proof fn lemma_merge_fits_prefix(a: Seq<(Seq<char>, int)>, b: Seq<(Seq<char>, int)>, k: int)
    requires
        0 <= k <= b.len(),
        !merge_fits(a, b.take(k)),
    ensures
        !merge_fits(a, b),
    decreases b.len() - k,
{
    if k < b.len() {
        assert(b.take(k + 1).drop_last() == b.take(k));
        lemma_merge_fits_prefix(a, b, k + 1);
    } else {
        assert(b.take(k) == b);
    }
}

impl Constraint {
    /// A copy with the same linear form and relation.
    pub fn copy(&self) -> (r: Constraint)
        ensures
            terms_view(r.0.terms@) == terms_view(self.0.terms@),
            r.0.constant == self.0.constant,
            r.1 == self.1,
            forall|m: Valuation| holds(r, m) == holds(*self, m),
    {
        Constraint(self.0.copy(), self.1)
    }
}

/// A single function's verification problem.
#[derive(Debug, Clone)]
pub struct VerificationProblem {
    pub func_name: String,
    /// Location of the function's `func` keyword.
    pub func_span: Span,
    /// Facts assumed/known: pre-conditions, type constraints, entry
    /// invariants, and `mutate state` assignments.
    pub premises: Vec<Constraint>,
    /// Properties that must be proven from the premises.
    pub conclusions: Vec<Conclusion>,
}

#[derive(Debug, Clone)]
pub struct Conclusion {
    /// Human-readable description, e.g. the source clause.
    pub description: String,
    pub constraint: Constraint,
    /// True for post-condition `ensures`, false for a maintained invariant.
    pub is_ensures: bool,
    /// True when interval bounding was used to linearize a nonlinear product.
    pub is_approximation: bool,
    /// Source location of the clause this conclusion came from.
    pub location: Span,
    /// Conclusions sharing an `or_group` are the branches of one disjunction,
    /// the conclusions of a branch sharing their description: every
    /// conclusion of at least one branch must be proven.
    pub or_group: Option<usize>,
}

} // verus!
