//! Contradiction checking over named groups of linear-arithmetic
//! constraints: given named groups (one per alerting rule, or one per
//! input-shape assumption), find which pairs can never simultaneously hold.

use vstd::prelude::*;
use crate::ir::Constraint;
use crate::extract::{ConV, cons_view};
use crate::solver::{unsat_checked, unsat_spec, holds_v, lemma_unsat_sound};
use crate::text::copy_string;
use crate::ir::Valuation;

verus! {

/// One caller-named group of constraints to check for mutual consistency
/// against the other groups passed to [`check_contradictions`].
#[derive(Debug, Clone)]
pub struct NamedConstraints {
    pub label: String,
    pub constraints: Vec<Constraint>,
}

/// A pair of group labels whose combined constraints are jointly
/// unsatisfiable: the two groups can never both hold at once.
#[derive(Debug, Clone, PartialEq, Eq)]
pub struct Contradiction {
    pub a: String,
    pub b: String,
}

/// The result of [`check_contradictions`].
#[derive(Debug, Clone)]
pub struct ContradictionReport {
    /// Whether every group's constraints combined are jointly
    /// unsatisfiable. `None` when the solver could not decide (its
    /// arithmetic would overflow) rather than a genuine yes/no answer.
    pub overall_unsat: Option<bool>,
    /// Every pair of groups whose combined constraints are jointly
    /// unsatisfiable.
    pub pairs: Vec<Contradiction>,
}

pub open spec fn group_cons(g: NamedConstraints) -> Seq<ConV> {
    cons_view(g.constraints@)
}

/// The constraints of all groups, in order.
pub open spec fn all_cons(gs: Seq<NamedConstraints>) -> Seq<ConV>
    decreases gs.len(),
{
    if gs.len() == 0 {
        Seq::empty()
    } else {
        all_cons(gs.drop_last()) + group_cons(gs.last())
    }
}

/// Groups `i` and `j` together are reported unsatisfiable.
pub open spec fn clash(gs: Seq<NamedConstraints>, i: int, j: int) -> bool {
    unsat_spec(group_cons(gs[i]) + group_cons(gs[j])) == Some(true)
}

/// The clashing pairs `(i, j)` for `i < j < m`, by increasing `j`.
pub open spec fn row(gs: Seq<NamedConstraints>, i: int, m: int) -> Seq<(Seq<char>, Seq<char>)>
    decreases m - i,
{
    if m <= i + 1 {
        Seq::empty()
    } else {
        row(gs, i, m - 1) + if clash(gs, i, m - 1) { seq![(gs[i].label@, gs[m - 1].label@)] } else { Seq::empty() }
    }
}

/// The clashing pairs with first group below `n`, by first then second group.
pub open spec fn rows(gs: Seq<NamedConstraints>, n: int) -> Seq<(Seq<char>, Seq<char>)>
    decreases n,
{
    if n <= 0 {
        Seq::empty()
    } else {
        rows(gs, n - 1) + row(gs, n - 1, gs.len() as int)
    }
}

pub open spec fn pairs_view(ps: Seq<Contradiction>) -> Seq<(Seq<char>, Seq<char>)> {
    ps.map_values(|p: Contradiction| (p.a@, p.b@))
}

proof fn lemma_all_cons_take(gs: Seq<NamedConstraints>, i: int)
    requires
        0 <= i < gs.len(),
    ensures
        all_cons(gs.take(i + 1)) == all_cons(gs.take(i)) + group_cons(gs[i]),
{
    assert(gs.take(i + 1).drop_last() == gs.take(i));
}

fn append_all(out: &mut Vec<Constraint>, cs: &Vec<Constraint>)
    ensures
        cons_view(final(out)@) == cons_view(old(out)@) + cons_view(cs@),
{
    let ghost start = cons_view(out@);
    let mut i: usize = 0;
    while i < cs.len()
        invariant
            i <= cs@.len(),
            cons_view(out@) == start + cons_view(cs@.take(i as int)),
        decreases cs@.len() - i,
    {
        let ghost prev = out@;
        let c = cs[i].copy();
        out.push(c);
        proof {
            assert(cons_view(prev.push(c)) == cons_view(prev).push(crate::extract::con_view(c)));
            assert(cons_view(cs@.take(i + 1)) == cons_view(cs@.take(i as int)).push(crate::extract::con_view(cs@[i as int])));
        }
        i = i + 1;
    }
    assert(cs@.take(cs@.len() as int) == cs@);
}

/// Find contradictions among named groups of linear-arithmetic
/// constraints: whether all groups together are unsatisfiable, and every
/// pair of groups (earlier group first) that is.
pub fn check_contradictions(groups: &[NamedConstraints]) -> (r: ContradictionReport)
    ensures
        r.overall_unsat == unsat_spec(all_cons(groups@)),
        pairs_view(r.pairs@) == rows(groups@, groups@.len() as int),
{
    let ghost gs = groups@;
    let mut all: Vec<Constraint> = Vec::new();
    let mut i: usize = 0;
    while i < groups.len()
        invariant
            i <= gs.len(),
            gs == groups@,
            cons_view(all@) == all_cons(gs.take(i as int)),
        decreases gs.len() - i,
    {
        proof { lemma_all_cons_take(gs, i as int); }
        append_all(&mut all, &groups[i].constraints);
        i = i + 1;
    }
    assert(gs.take(gs.len() as int) == gs);
    let overall_unsat = unsat_checked(all.as_slice());

    let n = groups.len();
    let mut pairs: Vec<Contradiction> = Vec::new();
    let mut i: usize = 0;
    while i < n
        invariant
            n == gs.len(),
            i <= n,
            gs == groups@,
            pairs_view(pairs@) == rows(gs, i as int),
        decreases n - i,
    {
        let ghost start = pairs_view(pairs@);
        let mut j: usize = i + 1;
        while j < n
            invariant
                n == gs.len(),
                i < n,
                i + 1 <= j <= n,
                gs == groups@,
                pairs_view(pairs@) == start + row(gs, i as int, j as int),
            decreases n - j,
        {
            let mut combined: Vec<Constraint> = Vec::new();
            append_all(&mut combined, &groups[i].constraints);
            append_all(&mut combined, &groups[j].constraints);
            assert(cons_view(combined@) == group_cons(gs[i as int]) + group_cons(gs[j as int]));
            if unsat_checked(combined.as_slice()) == Some(true) {
                let p = Contradiction {
                    a: copy_string(&groups[i].label),
                    b: copy_string(&groups[j].label),
                };
                let ghost prev = pairs@;
                pairs.push(p);
                assert(pairs_view(prev.push(p)) == pairs_view(prev).push((p.a@, p.b@)));
            }
            j = j + 1;
        }
        i = i + 1;
    }
    ContradictionReport { overall_unsat, pairs }
}

/// A reported pair can never both hold: under every valuation some
/// constraint of one of the two groups fails.
pub proof fn lemma_clash_sound(gs: Seq<NamedConstraints>, i: int, j: int, m: Valuation)
    requires
        0 <= i < gs.len(),
        0 <= j < gs.len(),
        clash(gs, i, j),
    ensures
        (exists|k: int| 0 <= k < group_cons(gs[i]).len() && !#[trigger] holds_v(group_cons(gs[i])[k], m))
        || (exists|k: int| 0 <= k < group_cons(gs[j]).len() && !#[trigger] holds_v(group_cons(gs[j])[k], m)),
{
    let a = group_cons(gs[i]);
    let b = group_cons(gs[j]);
    lemma_unsat_sound(a + b, m);
    let k = choose|k: int| 0 <= k < (a + b).len() && !#[trigger] holds_v((a + b)[k], m);
    if k < a.len() {
        assert((a + b)[k] == a[k]);
    } else {
        assert((a + b)[k] == b[k - a.len()]);
    }
}

} // verus!
