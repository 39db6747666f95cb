//! Top-level verification driver over a `VerificationProblem`.

use vstd::prelude::*;
use crate::ir::{Constraint, Conclusion, VerificationProblem};
use crate::extract::{ConV, con_view, cons_view};
use crate::solver::{
    entails, entails_spec, unsat, unsat_spec, lemma_filter_step, counterexample, negation, all_hold, to_ineqs,
    model_val, Model,
};
use crate::span::Span;
use crate::text::{copy_string, str_eq};

verus! {

/// The outcome of verifying one conclusion (an `ensures` clause or invariant).
#[derive(Debug, Clone)]
pub struct CheckResult {
    pub description: String,
    pub passed: bool,
    pub is_ensures: bool,
    /// Mirrors [`Conclusion::is_approximation`]: true when the constraint was
    /// proved via interval-arithmetic bounding of a nonlinear product rather
    /// than exact linear arithmetic.
    pub is_approximation: bool,
    /// For a failed check, a model of the premises in which the conclusion
    /// fails, when the solver finds one.
    pub counterexample: Option<Model>,
    /// The disjunction group of the conclusion, if any.
    pub or_group: Option<usize>,
    /// Where the conclusion's clause stands in the source.
    pub location: Option<Span>,
}

/// The aggregate verification result for a single function.
#[derive(Debug, Clone)]
pub struct VerificationResult {
    pub func_name: String,
    pub checks: Vec<CheckResult>,
    pub all_passed: bool,
}

/// A check: description, passed, `is_ensures`, `is_approximation`,
/// disjunction group, location.
pub type CheckV = (Seq<char>, bool, bool, bool, Option<usize>, Option<Span>);

pub open spec fn check_view(c: CheckResult) -> CheckV {
    (c.description@, c.passed, c.is_ensures, c.is_approximation, c.or_group, c.location)
}

/// `m` is a model of the premises in which conclusion `c` fails: it
/// satisfies one branch of the negation of `c`.
pub open spec fn refuted_by(pre: Seq<ConV>, c: Constraint, m: Model) -> bool {
    exists|i: int| 0 <= i < negation(c.1).len()
        && #[trigger] all_hold(to_ineqs(pre.push((con_view(c).0, negation(c.1)[i]))), model_val(m@))
}

/// A check's counterexample, when it has one, comes with a failure and
/// refutes a conclusion of `cs` with the check's description.
pub open spec fn cex_ok(chk: CheckResult, pre: Seq<ConV>, cs: Seq<Conclusion>) -> bool {
    chk.counterexample matches Some(m) ==> !chk.passed && exists|j: int| 0 <= j < cs.len()
        && cs[j].description@ == chk.description@ && #[trigger] refuted_by(pre, cs[j].constraint, m)
}

pub open spec fn checks_view(cs: Seq<CheckResult>) -> Seq<CheckV> {
    cs.map_values(|c: CheckResult| check_view(c))
}

/// The check a conclusion gets: passed when the premises entail it.
pub open spec fn check_of(pre: Seq<ConV>, c: Conclusion) -> CheckV {
    (c.description@, entails_spec(pre, con_view(c.constraint)), c.is_ensures, c.is_approximation, c.or_group, Some(c.location))
}

/// The `or_group` ids, in order of first appearance.
pub open spec fn group_ids(cs: Seq<Conclusion>) -> Seq<usize>
    decreases cs.len(),
{
    if cs.len() == 0 {
        Seq::empty()
    } else {
        let a = group_ids(cs.drop_last());
        match cs.last().or_group {
            Some(g) => if a.contains(g) { a } else { a.push(g) },
            None => a,
        }
    }
}

pub open spec fn ungrouped(cs: Seq<Conclusion>) -> Seq<Conclusion> {
    cs.filter(|c: Conclusion| c.or_group is None)
}

pub open spec fn in_group(cs: Seq<Conclusion>, g: usize) -> Seq<Conclusion> {
    cs.filter(|c: Conclusion| c.or_group == Some(g))
}

/// The checks of the groups `gs`, group by group.
pub open spec fn group_checks(pre: Seq<ConV>, cs: Seq<Conclusion>, gs: Seq<usize>) -> Seq<CheckV>
    decreases gs.len(),
{
    if gs.len() == 0 {
        Seq::empty()
    } else {
        group_checks(pre, cs, gs.drop_last()) + in_group(cs, gs.last()).map_values(|c: Conclusion| check_of(pre, c))
    }
}

/// Independent conclusions first, in order; then each disjunction group in
/// order of first appearance.
pub open spec fn expected_checks(pre: Seq<ConV>, cs: Seq<Conclusion>) -> Seq<CheckV> {
    ungrouped(cs).map_values(|c: Conclusion| check_of(pre, c)) + group_checks(pre, cs, group_ids(cs))
}

/// Some branch of the checks passes whole: the checks of one branch share
/// its description (`... [branch i]`), and every one of them passed.
pub open spec fn some_branch_passes(vs: Seq<CheckV>) -> bool {
    exists|i: int| 0 <= i < vs.len() && #[trigger] branch_passes(vs, vs[i].0)
}

/// Every check described `d` passed.
pub open spec fn branch_passes(vs: Seq<CheckV>, d: Seq<char>) -> bool {
    forall|j: int| 0 <= j < vs.len() && (#[trigger] vs[j]).0 == d ==> vs[j].1
}

/// Some branch of group `g` is entailed whole: every conclusion of that
/// branch follows from the premises.
pub open spec fn group_passes(pre: Seq<ConV>, cs: Seq<Conclusion>, g: usize) -> bool {
    some_branch_passes(in_group(cs, g).map_values(|c: Conclusion| check_of(pre, c)))
}

/// Every independent conclusion is entailed, and in every group some
/// branch is entailed whole.
pub open spec fn all_passed_spec(pre: Seq<ConV>, cs: Seq<Conclusion>) -> bool {
    &&& forall|i: int| 0 <= i < ungrouped(cs).len() ==> entails_spec(pre, con_view(#[trigger] ungrouped(cs)[i].constraint))
    &&& forall|k: int| 0 <= k < group_ids(cs).len() ==> group_passes(pre, cs, #[trigger] group_ids(cs)[k])
}

fn check_result(pre: &[Constraint], c: &Conclusion) -> (r: CheckResult)
    ensures
        check_view(r) == check_of(cons_view(pre@), *c),
        r.counterexample matches Some(m) ==> !r.passed && refuted_by(cons_view(pre@), c.constraint, m),
{
    let passed = entails(pre, &c.constraint);
    let ce = if passed { None } else { counterexample(pre, &c.constraint) };
    CheckResult {
        description: copy_string(&c.description),
        passed,
        is_ensures: c.is_ensures,
        is_approximation: c.is_approximation,
        counterexample: ce,
        or_group: c.or_group,
        location: Some(c.location),
    }
}

fn push_check(out: &mut Vec<CheckResult>, c: CheckResult)
    ensures
        checks_view(final(out)@) == checks_view(old(out)@).push(check_view(c)),
        final(out)@ == old(out)@.push(c),
{
    let ghost prev = out@;
    out.push(c);
    assert(checks_view(prev.push(c)) == checks_view(prev).push(check_view(c)));
}

fn contains_id(ids: &Vec<usize>, g: usize) -> (r: bool)
    ensures
        r == ids@.contains(g),
{
    let mut i: usize = 0;
    while i < ids.len()
        invariant
            i <= ids@.len(),
            forall|j: int| 0 <= j < i ==> ids@[j] != g,
        decreases ids@.len() - i,
    {
        if ids[i] == g {
            return true;
        }
        i = i + 1;
    }
    false
}

/// Whether some branch of the checks from `from` on passed whole.
fn branch_passed_from(checks: &Vec<CheckResult>, from: usize) -> (r: bool)
    requires
        from <= checks@.len(),
    ensures
        r == some_branch_passes(checks_view(checks@).skip(from as int)),
{
    let ghost vs = checks_view(checks@).skip(from as int);
    let mut i: usize = from;
    while i < checks.len()
        invariant
            from <= i <= checks@.len(),
            vs == checks_view(checks@).skip(from as int),
            forall|k: int| 0 <= k < i - from ==> !#[trigger] branch_passes(vs, vs[k].0),
        decreases checks@.len() - i,
    {
        let mut all = true;
        let mut j: usize = from;
        while j < checks.len()
            invariant
                from <= i < checks@.len(),
                from <= j <= checks@.len(),
                vs == checks_view(checks@).skip(from as int),
                all == forall|t: int| 0 <= t < j - from && (#[trigger] vs[t]).0 == vs[i - from].0 ==> vs[t].1,
            decreases checks@.len() - j,
        {
            assert(vs[j - from] == check_view(checks@[j as int]));
            assert(vs[i - from] == check_view(checks@[i as int]));
            if str_eq(checks[j].description.as_str(), checks[i].description.as_str()) && !checks[j].passed {
                all = false;
            }
            j = j + 1;
        }
        if all {
            assert(branch_passes(vs, vs[i - from].0));
            return true;
        }
        i = i + 1;
    }
    false
}

/// Verify every conclusion of a single function: each independent
/// conclusion must be entailed by the premises, and in each disjunction group
/// (`or_group`) every conclusion of at least one branch.
pub fn verify(problem: &VerificationProblem) -> (r: VerificationResult)
    ensures
        r.func_name@ == problem.func_name@,
        checks_view(r.checks@) == expected_checks(cons_view(problem.premises@), problem.conclusions@),
        r.all_passed == all_passed_spec(cons_view(problem.premises@), problem.conclusions@),
        forall|i: int| 0 <= i < r.checks@.len() ==> cex_ok(#[trigger] r.checks@[i], cons_view(problem.premises@), problem.conclusions@),
{
    let pre = problem.premises.as_slice();
    let ghost pv = cons_view(pre@);
    let cs = &problem.conclusions;
    let ghost cv = cs@;
    let ghost pnone = |c: Conclusion| c.or_group is None;
    let mut checks: Vec<CheckResult> = Vec::new();
    let mut indep_ok = true;
    let mut i: usize = 0;
    // First pass: independent conclusions (or_group: None).
    while i < cs.len()
        invariant
            i <= cv.len(),
            cv == cs@,
            pv == cons_view(pre@),
            pnone == (|c: Conclusion| c.or_group is None),
            forall|j: int| 0 <= j < checks@.len() ==> cex_ok(#[trigger] checks@[j], pv, cv),
            checks_view(checks@) == cv.take(i as int).filter(pnone).map_values(|c: Conclusion| check_of(pv, c)),
            indep_ok == forall|j: int| 0 <= j < cv.take(i as int).filter(pnone).len()
                ==> entails_spec(pv, con_view(#[trigger] cv.take(i as int).filter(pnone)[j].constraint)),
        decreases cv.len() - i,
    {
        proof { lemma_filter_step(cv, i as int, pnone); }
        let c = &cs[i];
        if c.or_group.is_none() {
            let chk = check_result(pre, c);
            assert(cex_ok(chk, pv, cv)) by {
                if chk.counterexample is Some {
                    assert(cv[i as int].description@ == chk.description@);
                }
            }
            let ghost old_ok = indep_ok;
            if !chk.passed {
                indep_ok = false;
            }
            let ghost f0 = cv.take(i as int).filter(pnone);
            push_check(&mut checks, chk);
            proof {
                let f1 = f0.push(cv[i as int]);
                assert(cv.take(i + 1).filter(pnone) == f1);
                assert(f1.map_values(|c: Conclusion| check_of(pv, c))
                    == f0.map_values(|c: Conclusion| check_of(pv, c)).push(check_of(pv, cv[i as int])));
                assert forall|j: int| 0 <= j < f0.len() implies f1[j] == f0[j] by {}
                assert(f1[f0.len() as int] == cv[i as int]);
                if indep_ok {
                    assert forall|j: int| 0 <= j < f1.len() implies entails_spec(pv, con_view(#[trigger] f1[j].constraint)) by {
                        if j < f0.len() {
                            assert(f1[j] == f0[j]);
                        }
                    }
                } else if !old_ok {
                    let j = choose|j: int| 0 <= j < f0.len() && !entails_spec(pv, con_view(#[trigger] f0[j].constraint));
                    assert(f1[j] == f0[j]);
                } else {
                    assert(!entails_spec(pv, con_view(f1[f0.len() as int].constraint)));
                }
            }
        }
        i = i + 1;
    }
    assert(cv.take(cv.len() as int) == cv);
    // Disjunction groups, in order of first appearance.
    let mut ids: Vec<usize> = Vec::new();
    let mut i: usize = 0;
    while i < cs.len()
        invariant
            i <= cv.len(),
            cv == cs@,
            ids@ == group_ids(cv.take(i as int)),
        decreases cv.len() - i,
    {
        assert(cv.take(i + 1).drop_last() == cv.take(i as int));
        match cs[i].or_group {
            Some(g) => {
                if !contains_id(&ids, g) {
                    ids.push(g);
                }
            },
            None => {},
        }
        i = i + 1;
    }
    let ghost gids = ids@;
    let ghost base = checks_view(checks@);
    let mut groups_ok = true;
    let mut k: usize = 0;
    while k < ids.len()
        invariant
            k <= gids.len(),
            gids == ids@,
            gids == group_ids(cv),
            cv == cs@,
            pv == cons_view(pre@),
            checks_view(checks@) == base + group_checks(pv, cv, gids.take(k as int)),
            forall|j: int| 0 <= j < checks@.len() ==> cex_ok(#[trigger] checks@[j], pv, cv),
            groups_ok == forall|t: int| 0 <= t < k ==> group_passes(pv, cv, #[trigger] gids[t]),
        decreases gids.len() - k,
    {
        let g = ids[k];
        let ghost pg = |c: Conclusion| c.or_group == Some(g);
        let ghost start = checks_view(checks@);
        let n0 = checks.len();
        let mut i: usize = 0;
        while i < cs.len()
            invariant
                i <= cv.len(),
                cv == cs@,
                pv == cons_view(pre@),
                pg == (|c: Conclusion| c.or_group == Some(g)),
                checks_view(checks@) == start + cv.take(i as int).filter(pg).map_values(|c: Conclusion| check_of(pv, c)),
                start.len() == n0,
                forall|j: int| 0 <= j < checks@.len() ==> cex_ok(#[trigger] checks@[j], pv, cv),
            decreases cv.len() - i,
        {
            proof { lemma_filter_step(cv, i as int, pg); }
            let c = &cs[i];
            if c.or_group == Some(g) {
                let chk = check_result(pre, c);
                assert(cex_ok(chk, pv, cv)) by {
                    if chk.counterexample is Some {
                        assert(cv[i as int].description@ == chk.description@);
                    }
                }
                let ghost f0 = cv.take(i as int).filter(pg);
                push_check(&mut checks, chk);
                proof {
                    assert(f0.push(cv[i as int]).map_values(|c: Conclusion| check_of(pv, c))
                        == f0.map_values(|c: Conclusion| check_of(pv, c)).push(check_of(pv, cv[i as int])));
                    assert forall|j: int| 0 <= j < f0.len() implies f0.push(cv[i as int])[j] == f0[j] by {}
                }
            }
            i = i + 1;
        }
        assert(cv.take(cv.len() as int) == cv);
        proof {
            assert(gids.take(k + 1).drop_last() == gids.take(k as int));
            assert(gids.take(k + 1).last() == g);
            assert(in_group(cv, g) == cv.filter(pg));
            assert(checks_view(checks@).skip(n0 as int) =~= in_group(cv, g).map_values(|c: Conclusion| check_of(pv, c)));
        }
        let any_passed = branch_passed_from(&checks, n0);
        if !any_passed {
            groups_ok = false;
        }
        k = k + 1;
    }
    assert(gids.take(gids.len() as int) == gids);
    VerificationResult {
        func_name: copy_string(&problem.func_name),
        checks,
        all_passed: indep_ok && groups_ok,
    }
}

/// Convenience: is this constraint set already contradictory?
pub fn is_unsat(cs: &[Constraint]) -> (r: bool)
    ensures
        r == (unsat_spec(cons_view(cs@)) == Some(true)),
{
    unsat(cs)
}

} // verus!
